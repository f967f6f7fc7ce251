//! Transaction receipts: status, gas used, bloom filter and the ordered logs,
//! encoded as a list of four members with the logs as a nested list.

use vstd::prelude::*;
use crate::bigendian::{be_bytes, be_value, lemma_be_value_bounds, pow256, U256};
use crate::error::DecodeError;
use crate::framing::{
    encode_items, encode_list, items_of, list_item, list_items, read_items, read_list,
    string_item, views, write_list, Item, ItemRef,
};
use crate::laws::{lemma_receipt_decoding_canonical, lemma_receipt_round_trip};
use crate::layout::{find_misfit, first_misfit, fits, fixed_bytes, lemma_first_misfit, FieldKind};
use crate::log::{log_of_item, LogEntry, LogView};
use crate::writer::ListWriter;

verus! {

/// The outcome of one transaction.
#[derive(Clone, Debug, PartialEq, Eq)]
pub struct Receipt {
    pub status: bool,
    pub gas_used: U256,
    pub log_bloom: [u8; 256],
    pub logs: Vec<LogEntry>,
}

/// What a receipt holds, as plain values.
pub struct ReceiptView {
    pub status: bool,
    pub gas_used: nat,
    pub log_bloom: Seq<u8>,
    pub logs: Seq<LogView>,
}

/// The logs as plain values, in order.
pub open spec fn log_views(logs: Seq<LogEntry>) -> Seq<LogView> {
    logs.map_values(|log: LogEntry| log@)
}

impl View for Receipt {
    type V = ReceiptView;

    open spec fn view(&self) -> ReceiptView {
        ReceiptView {
            status: self.status,
            gas_used: self.gas_used@,
            log_bloom: self.log_bloom@,
            logs: log_views(self.logs@),
        }
    }
}

/// The logs as list items, in order.
pub open spec fn log_items(logs: Seq<LogView>) -> Seq<Item> {
    logs.map_values(|log: LogView| log.item())
}

/// The status flag as the integer the wire carries.
pub open spec fn flag_value(status: bool) -> nat {
    if status {
        1
    } else {
        0
    }
}

impl ReceiptView {
    /// Every field has the width its type gives it, in every log too.
    pub open spec fn wf(self) -> bool {
        &&& self.gas_used < pow256(32)
        &&& self.log_bloom.len() == 256
        &&& forall|k: int| 0 <= k < self.logs.len() ==> (#[trigger] self.logs[k]).wf()
    }

    /// The four members of the receipt's list: status, gas used, bloom, logs.
    pub open spec fn items(self) -> Seq<Item> {
        seq![
            string_item(be_bytes(flag_value(self.status))),
            string_item(be_bytes(self.gas_used)),
            string_item(self.log_bloom),
            list_item(encode_items(log_items(self.logs))),
        ]
    }

    /// The canonical encoding of the receipt.
    pub open spec fn rlp(self) -> Seq<u8> {
        encode_list(self.items())
    }

    /// The list payload is short enough for its length to be written down.
    /// This holds of every receipt that fits in memory.
    pub open spec fn encodable(self) -> bool {
        encode_items(self.items()).len() <= u64::MAX
    }
}

/// The shapes of a receipt's four members.
pub open spec fn receipt_layout() -> Seq<FieldKind> {
    seq![FieldKind::Flag, FieldKind::Uint(32), FieldKind::Fixed(256), FieldKind::List]
}

/// The least position at or after `from` whose item stands for no log.
pub open spec fn first_bad_log(items: Seq<Item>, from: nat) -> Option<nat>
    decreases items.len() - from,
{
    if from >= items.len() {
        None
    } else if log_of_item(items[from as int]) is Err {
        Some(from)
    } else {
        first_bad_log(items, from + 1)
    }
}

/// `first_bad_log` finds the least position of an unsound log, and finds none
/// only if all are sound.
pub proof fn lemma_first_bad_log(items: Seq<Item>, from: nat)
    ensures
        match first_bad_log(items, from) {
            Some(k) => from <= k < items.len() && log_of_item(items[k as int]) is Err
                && forall|j: int| from <= j < k ==> log_of_item(#[trigger] items[j]) is Ok,
            None => forall|j: int| from <= j < items.len() ==> log_of_item(#[trigger] items[j]) is Ok,
        },
    decreases items.len() - from,
{
    if from < items.len() && log_of_item(items[from as int]) is Ok {
        lemma_first_bad_log(items, from + 1);
    }
}

/// The error of a receipt whose log at position `log` was rejected with `cause`.
pub open spec fn log_error(log: usize, cause: DecodeError) -> DecodeError {
    match cause {
        DecodeError::FieldShape { index } => DecodeError::LogFieldShape { log, index },
        _ => DecodeError::MalformedLog { log },
    }
}

/// The log that a sound item stands for.
pub open spec fn log_read(item: Item) -> LogView {
    match log_of_item(item) {
        Ok(log) => log,
        Err(_) => arbitrary(),
    }
}

/// The rejection of an item that stands for no log.
pub open spec fn log_rejection(item: Item) -> DecodeError {
    match log_of_item(item) {
        Ok(_) => arbitrary(),
        Err(e) => e,
    }
}

/// The logs that sound items stand for, in order.
pub open spec fn logs_read(items: Seq<Item>) -> Seq<LogView> {
    items.map_values(|item: Item| log_read(item))
}

/// The receipt that `bytes` is the canonical encoding of, or why it is none.
pub open spec fn decoded_receipt(bytes: Seq<u8>) -> Result<ReceiptView, DecodeError> {
    match list_items(bytes) {
        None => Err(DecodeError::MalformedList),
        Some(fields) => {
            if fields.len() != 4 {
                Err(DecodeError::MalformedList)
            } else {
                match first_misfit(receipt_layout(), fields, 0) {
                    Some(i) => Err(DecodeError::FieldShape { index: i as usize }),
                    None => {
                        let logs = items_of(fields[3].payload).unwrap();
                        match first_bad_log(logs, 0) {
                            Some(k) => Err(log_error(k as usize, log_rejection(logs[k as int]))),
                            None => Ok(
                                ReceiptView {
                                    status: fields[0].payload.len() == 1,
                                    gas_used: be_value(fields[1].payload),
                                    log_bloom: fields[2].payload,
                                    logs: logs_read(logs),
                                },
                            ),
                        }
                    },
                }
            }
        },
    }
}

impl Receipt {
    /// The view of any receipt has fields of the right widths.
    pub proof fn lemma_view_wf(&self)
        ensures
            self@.wf(),
    {
        lemma_be_value_bounds(self.gas_used.0@);
        assert forall|k: int| 0 <= k < self@.logs.len() implies (#[trigger] self@.logs[k]).wf() by {
            self.logs@[k].lemma_view_wf();
        }
    }

    /// The concatenated encodings of the logs.
    fn logs_payload(&self) -> (payload: Vec<u8>)
        ensures
            payload@ == encode_items(log_items(self@.logs)),
    {
        let ghost all = log_items(self@.logs);
        let mut logs = ListWriter::new();
        let mut k: usize = 0;
        while k < self.logs.len()
            invariant
                k <= self.logs@.len(),
                all == log_items(self@.logs),
                logs.wf(),
                logs.items() == all.take(k as int),
            decreases self.logs@.len() - k,
        {
            let one = self.logs[k].payload();
            logs.list(one.as_slice());
            k += 1;
        }
        assert(all.take(k as int) =~= all);
        logs.into_payload()
    }

    /// Appends the canonical encoding of the receipt to `stream`.
    pub fn rlp_append(&self, stream: &mut Vec<u8>)
        ensures
            final(stream)@ == old(stream)@ + self@.rlp(),
    {
        let payload = self.payload();
        write_list(stream, payload.as_slice());
    }

    /// The concatenated encodings of the receipt's four members.
    fn payload(&self) -> (payload: Vec<u8>)
        ensures
            payload@ == encode_items(self@.items()),
    {
        let logs = self.logs_payload();
        let gas_used = self.gas_used.to_minimal_be();
        let mut fields = ListWriter::new();
        fields.uint(if self.status { 1 } else { 0 });
        fields.string(gas_used.as_slice());
        fields.string(self.log_bloom.as_slice());
        fields.list(logs.as_slice());
        assert(fields.items() =~= self@.items());
        fields.into_payload()
    }

    /// The canonical encoding of the receipt. Decoding it gives the receipt
    /// back, its logs in their order.
    pub fn encode(&self) -> (out: Vec<u8>)
        ensures
            out@ == self@.rlp(),
            decoded_receipt(out@) == Ok::<ReceiptView, DecodeError>(self@),
    {
        let payload = self.payload();
        let mut out = Vec::new();
        write_list(&mut out, payload.as_slice());
        proof {
            assert(payload.len() <= u64::MAX);
            self.lemma_view_wf();
            lemma_receipt_round_trip(self@);
        }
        out
    }

    /// The logs that a run of items stands for, or the position of the first
    /// item that stands for none, with its rejection.
    fn logs_of(items: &Vec<ItemRef>) -> (r: Result<Vec<LogEntry>, DecodeError>)
        ensures
            match r {
                Ok(logs) => first_bad_log(views(items@), 0) is None && log_views(logs@)
                    == logs_read(views(items@)),
                Err(e) => first_bad_log(views(items@), 0) matches Some(k) && k <= usize::MAX && e
                    == log_error(k as usize, log_rejection(views(items@)[k as int])),
            },
    {
        let mut logs: Vec<LogEntry> = Vec::new();
        let mut k: usize = 0;
        while k < items.len()
            invariant
                k <= items@.len(),
                logs@.len() == k,
                first_bad_log(views(items@), 0) == first_bad_log(views(items@), k as nat),
                forall|j: int|
                    0 <= j < k ==> (#[trigger] logs@[j])@ == log_read(views(items@)[j]),
            decreases items@.len() - k,
        {
            match LogEntry::from_item(&items[k]) {
                Ok(log) => {
                    logs.push(log);
                },
                Err(e) => {
                    return Err(
                        match e {
                            DecodeError::FieldShape { index } => DecodeError::LogFieldShape {
                                log: k,
                                index,
                            },
                            _ => DecodeError::MalformedLog { log: k },
                        },
                    );
                },
            }
            k += 1;
        }
        Ok(logs)
    }

    /// Decodes the canonical encoding of a receipt. Anything else is
    /// rejected, bytes after the list included; a rejected log is reported
    /// with its position.
    pub fn decode(bytes: &[u8]) -> (r: Result<Receipt, DecodeError>)
        ensures
            match r {
                Ok(receipt) => decoded_receipt(bytes@) == Ok::<ReceiptView, DecodeError>(receipt@)
                    && receipt@.rlp() == bytes@,
                Err(e) => decoded_receipt(bytes@) == Err::<ReceiptView, DecodeError>(e),
            },
    {
        proof {
            if decoded_receipt(bytes@) is Ok {
                lemma_receipt_decoding_canonical(bytes@);
            }
        }
        let fields = match read_list(bytes) {
            Some(fields) => fields,
            None => {
                return Err(DecodeError::MalformedList);
            },
        };
        if fields.len() != 4 {
            return Err(DecodeError::MalformedList);
        }
        let layout = [FieldKind::Flag, FieldKind::Uint(32), FieldKind::Fixed(256), FieldKind::List];
        match find_misfit(layout.as_slice(), &fields) {
            Some(i) => {
                return Err(DecodeError::FieldShape { index: i });
            },
            None => {},
        }
        let ghost shown = views(fields@);
        proof {
            lemma_first_misfit(receipt_layout(), shown, 0);
            assert forall|j: int| 0 <= j < 4 implies fits(receipt_layout()[j], shown[j])
                && shown[j] == fields@[j]@ by {}
        }
        let items = read_items(fields[3].payload).unwrap();
        let logs = match Self::logs_of(&items) {
            Ok(logs) => logs,
            Err(e) => {
                return Err(e);
            },
        };
        Ok(
            Receipt {
                status: fields[0].payload.len() == 1,
                gas_used: U256::from_be_slice(fields[1].payload).unwrap(),
                log_bloom: fixed_bytes(fields[2].payload).unwrap(),
                logs,
            },
        )
    }
}

} // verus!
