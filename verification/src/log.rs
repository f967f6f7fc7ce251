//! Event logs: an address, an ordered run of 32-byte topics, and opaque data,
//! encoded as a list of three members.

use vstd::prelude::*;
use vstd::slice::slice_to_vec;
use crate::error::DecodeError;
use crate::framing::{
    encode_item, encode_items, items_of, lemma_first_item_sound, list_item, read_items, read_whole, string_item, views,
    whole_item, write_list, Item, ItemRef,
};
use crate::laws::{lemma_log_item_canonical, lemma_log_round_trip};
use crate::layout::{find_misfit, first_misfit, fixed_bytes, lemma_first_misfit, FieldKind};
use crate::writer::ListWriter;

verus! {

/// One event emitted by a transaction.
#[derive(Clone, Debug, Default, PartialEq, Eq)]
pub struct LogEntry {
    pub address: [u8; 20],
    pub topics: Vec<[u8; 32]>,
    pub data: Vec<u8>,
}

/// What a log holds, as plain sequences.
pub struct LogView {
    pub address: Seq<u8>,
    pub topics: Seq<Seq<u8>>,
    pub data: Seq<u8>,
}

impl View for LogEntry {
    type V = LogView;

    open spec fn view(&self) -> LogView {
        LogView {
            address: self.address@,
            topics: self.topics@.map_values(|t: [u8; 32]| t@),
            data: self.data@,
        }
    }
}

/// The byte strings as string items, in order.
pub open spec fn string_items(strings: Seq<Seq<u8>>) -> Seq<Item> {
    strings.map_values(|s: Seq<u8>| string_item(s))
}

/// The payloads of the items, in order.
pub open spec fn payloads(items: Seq<Item>) -> Seq<Seq<u8>> {
    items.map_values(|item: Item| item.payload)
}

impl LogView {
    /// The address has 20 bytes and every topic 32.
    pub open spec fn wf(self) -> bool {
        &&& self.address.len() == 20
        &&& forall|k: int| 0 <= k < self.topics.len() ==> (#[trigger] self.topics[k]).len() == 32
    }

    /// The three members of the log's list: address, topics, data.
    pub open spec fn items(self) -> Seq<Item> {
        seq![
            string_item(self.address),
            list_item(encode_items(string_items(self.topics))),
            string_item(self.data),
        ]
    }

    /// The log as one list item.
    pub open spec fn item(self) -> Item {
        list_item(encode_items(self.items()))
    }

    /// The canonical encoding of the log.
    pub open spec fn rlp(self) -> Seq<u8> {
        encode_item(self.item())
    }
}

/// The shapes of a log's three members.
pub open spec fn log_layout() -> Seq<FieldKind> {
    seq![FieldKind::Fixed(20), FieldKind::Hashes, FieldKind::Bytes]
}

/// The log that `item` stands for, or why it stands for none.
pub open spec fn log_of_item(item: Item) -> Result<LogView, DecodeError> {
    if !item.is_list {
        Err(DecodeError::MalformedList)
    } else {
        match items_of(item.payload) {
            None => Err(DecodeError::MalformedList),
            Some(fields) => {
                if fields.len() != 3 {
                    Err(DecodeError::MalformedList)
                } else {
                    match first_misfit(log_layout(), fields, 0) {
                        Some(i) => Err(DecodeError::FieldShape { index: i as usize }),
                        None => Ok(
                            LogView {
                                address: fields[0].payload,
                                topics: payloads(items_of(fields[1].payload).unwrap()),
                                data: fields[2].payload,
                            },
                        ),
                    }
                }
            },
        }
    }
}

/// The log that `bytes` is the canonical encoding of, or why it is none.
pub open spec fn decoded_log(bytes: Seq<u8>) -> Result<LogView, DecodeError> {
    match whole_item(bytes) {
        Some(item) => log_of_item(item),
        None => Err(DecodeError::MalformedList),
    }
}

impl LogEntry {
    /// The view of any log has fields of the right widths.
    pub proof fn lemma_view_wf(&self)
        ensures
            self@.wf(),
    {
    }

    /// The concatenated encodings of the log's three members.
    pub fn payload(&self) -> (payload: Vec<u8>)
        ensures
            payload@ == encode_items(self@.items()),
    {
        let ghost all = string_items(self@.topics);
        let mut hashes = ListWriter::new();
        let mut k: usize = 0;
        while k < self.topics.len()
            invariant
                k <= self.topics@.len(),
                all == string_items(self@.topics),
                hashes.wf(),
                hashes.items() == all.take(k as int),
            decreases self.topics@.len() - k,
        {
            hashes.string(self.topics[k].as_slice());
            k += 1;
        }
        assert(all.take(k as int) =~= all);
        let topics = hashes.into_payload();
        let mut fields = ListWriter::new();
        fields.string(self.address.as_slice());
        fields.list(topics.as_slice());
        fields.string(self.data.as_slice());
        assert(fields.items() =~= self@.items());
        fields.into_payload()
    }

    /// Appends the canonical encoding of the log to `stream`.
    pub fn rlp_append(&self, stream: &mut Vec<u8>)
        ensures
            final(stream)@ == old(stream)@ + self@.rlp(),
    {
        let payload = self.payload();
        write_list(stream, payload.as_slice());
    }

    /// The canonical encoding of the log. Decoding it gives the log back.
    pub fn encode(&self) -> (out: Vec<u8>)
        ensures
            out@ == self@.rlp(),
            decoded_log(out@) == Ok::<LogView, DecodeError>(self@),
    {
        let payload = self.payload();
        let mut out = Vec::new();
        write_list(&mut out, payload.as_slice());
        proof {
            assert(payload.len() <= u64::MAX);
            self.lemma_view_wf();
            lemma_log_round_trip(self@);
        }
        out
    }

    /// The log that an item already cut out of its surroundings stands for.
    pub fn from_item(item: &ItemRef) -> (r: Result<LogEntry, DecodeError>)
        ensures
            match r {
                Ok(log) => log_of_item(item@) == Ok::<LogView, DecodeError>(log@),
                Err(e) => log_of_item(item@) == Err::<LogView, DecodeError>(e),
            },
    {
        if !item.is_list {
            return Err(DecodeError::MalformedList);
        }
        let fields = match read_items(item.payload) {
            Some(fields) => fields,
            None => {
                return Err(DecodeError::MalformedList);
            },
        };
        if fields.len() != 3 {
            return Err(DecodeError::MalformedList);
        }
        let layout = [FieldKind::Fixed(20), FieldKind::Hashes, FieldKind::Bytes];
        match find_misfit(layout.as_slice(), &fields) {
            Some(i) => {
                return Err(DecodeError::FieldShape { index: i });
            },
            None => {},
        }
        let ghost shown = views(fields@);
        proof {
            lemma_first_misfit(log_layout(), shown, 0);
        }
        let address: [u8; 20] = fixed_bytes(fields[0].payload).unwrap();
        let hashes = read_items(fields[1].payload).unwrap();
        let topics = Self::topics_of(&hashes);
        let data = slice_to_vec(fields[2].payload);
        Ok(LogEntry { address, topics, data })
    }

    /// The payloads of a run of 32-byte strings, each as an array.
    fn topics_of(hashes: &Vec<ItemRef>) -> (topics: Vec<[u8; 32]>)
        requires
            forall|k: int| 0 <= k < hashes@.len() ==> (#[trigger] views(hashes@)[k]).payload.len() == 32,
        ensures
            topics@.map_values(|t: [u8; 32]| t@) == payloads(views(hashes@)),
    {
        let mut topics: Vec<[u8; 32]> = Vec::new();
        let mut k: usize = 0;
        while k < hashes.len()
            invariant
                k <= hashes@.len(),
                topics@.len() == k,
                forall|j: int|
                    0 <= j < hashes@.len() ==> (#[trigger] views(hashes@)[j]).payload.len() == 32,
                forall|j: int| 0 <= j < k ==> (#[trigger] topics@[j])@ == hashes@[j].payload@,
            decreases hashes@.len() - k,
        {
            assert(views(hashes@)[k as int] == hashes@[k as int]@);
            let topic: [u8; 32] = fixed_bytes(hashes[k].payload).unwrap();
            topics.push(topic);
            k += 1;
        }
        topics
    }

    /// Decodes the canonical encoding of a log. Anything else is rejected,
    /// bytes after the list included.
    pub fn decode(bytes: &[u8]) -> (r: Result<LogEntry, DecodeError>)
        ensures
            match r {
                Ok(log) => decoded_log(bytes@) == Ok::<LogView, DecodeError>(log@) && log@.rlp()
                    == bytes@,
                Err(e) => decoded_log(bytes@) == Err::<LogView, DecodeError>(e),
            },
    {
        match read_whole(bytes) {
            Some(item) => {
                proof {
                    lemma_first_item_sound(bytes@);
                    if log_of_item(item@) is Ok {
                        lemma_log_item_canonical(item@);
                    }
                }
                Self::from_item(&item)
            },
            None => Err(DecodeError::MalformedList),
        }
    }
}

} // verus!
