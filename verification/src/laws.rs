//! What holds of the codecs as a whole: decoding inverts encoding, decoding
//! accepts nothing but canonical encodings, and the partial encoding does not
//! see the seal.

use vstd::prelude::*;
use crate::bigendian::{
    be_bytes, lemma_pow256_values, lemma_reading, lemma_spelling, lemma_value_of_be_bytes,
};
use crate::error::DecodeError;
use crate::framing::{
    encode_items, items_of, lemma_encode_items_len, lemma_first_item_of_encoding,
    lemma_first_item_sound, lemma_items_of_encoding, lemma_items_of_sound, lemma_list_items_of_encoding, lemma_list_items_sound, list_items,
    representable, whole_item, Item,
};
use crate::header::{decoded_header, header_layout, header_of_items, HeaderView};
use crate::layout::{first_misfit, fits, lemma_first_misfit};
use crate::log::{decoded_log, log_layout, log_of_item, payloads, string_items, LogView};
use crate::receipt::{
    decoded_receipt, flag_value, lemma_first_bad_log, log_items, logs_read, receipt_layout,
    ReceiptView,
};

verus! {

/// The members of a well-formed header have the shapes the layout asks for,
/// and reading them back gives the header's own fields.
proof fn lemma_header_items(header: HeaderView)
    requires
        header.wf(),
    ensures
        first_misfit(header_layout(), header.items(true), 0) is None,
        header_of_items(header.items(true)) == header.with_hashes(None, None),
{
    let items = header.items(true);
    let layout = header_layout();
    lemma_pow256_values();
    lemma_spelling(header.difficulty, 32);
    lemma_spelling(header.number, 8);
    lemma_spelling(header.gas_limit, 32);
    lemma_spelling(header.gas_used, 32);
    lemma_spelling(header.timestamp, 8);
    assert forall|j: int| 0 <= j < 15 implies fits(#[trigger] layout[j], items[j]) by {}
    lemma_first_misfit(layout, items, 0);
}

/// Every member of a run is representable if the run's encoding is.
proof fn lemma_members_representable(items: Seq<Item>)
    requires
        encode_items(items).len() <= u64::MAX,
    ensures
        forall|k: int| 0 <= k < items.len() ==> representable(#[trigger] items[k]),
{
    assert forall|k: int| 0 <= k < items.len() implies representable(#[trigger] items[k]) by {
        lemma_encode_items_len(items, k);
    }
}

/// Decoding the sealed encoding of a header gives back every field of the
/// header, with `hash` the Keccak-256 of exactly the bytes decoded and
/// `partial_hash` the Keccak-256 of the header's partial encoding.
pub proof fn lemma_header_round_trip(header: HeaderView)
    requires
        header.wf(),
        header.encodable(true),
    ensures
        decoded_header(header.rlp(true)) == Ok::<HeaderView, DecodeError>(
            header.with_hashes(Some(header.sealed_hash()), Some(header.unsealed_hash())),
        ),
{
    let items = header.items(true);
    lemma_members_representable(items);
    lemma_list_items_of_encoding(items);
    lemma_header_items(header);
}

/// Whatever the header decoder accepts is the sealed encoding of the header
/// it returns, and that header is well formed: no second byte string decodes
/// to the same header.
pub proof fn lemma_header_decoding_canonical(bytes: Seq<u8>)
    requires
        decoded_header(bytes) is Ok,
    ensures
        decoded_header(bytes).unwrap().wf(),
        decoded_header(bytes).unwrap().rlp(true) == bytes,
        decoded_header(bytes).unwrap().encodable(true),
{
    let items = list_items(bytes).unwrap();
    let header = decoded_header(bytes).unwrap();
    let layout = header_layout();
    lemma_list_items_sound(bytes);
    lemma_first_item_sound(bytes);
    lemma_items_of_sound(whole_item(bytes).unwrap().payload);
    lemma_first_misfit(layout, items, 0);
    assert(fits(layout[7], items[7]) && fits(layout[8], items[8]) && fits(layout[9], items[9])
        && fits(layout[10], items[10]) && fits(layout[11], items[11]));
    lemma_reading(items[7].payload, 32);
    lemma_reading(items[8].payload, 8);
    lemma_reading(items[9].payload, 32);
    lemma_reading(items[10].payload, 32);
    lemma_reading(items[11].payload, 8);
    lemma_pow256_values();
    assert(header.items(true) =~= items);
}

/// A byte string is rejected as a malformed list exactly when it is not the
/// canonical encoding of a list of fifteen members; a list of any other
/// length, fourteen or thirteen included, is rejected so.
pub proof fn lemma_header_arity(bytes: Seq<u8>)
    ensures
        decoded_header(bytes) == Err::<HeaderView, DecodeError>(DecodeError::MalformedList) <==> !(
        list_items(bytes) matches Some(items) && items.len() == 15),
{
}

/// Two headers that agree on the first thirteen fields have the same partial
/// encoding and so the same partial hash, whatever their mix hashes and
/// nonces are.
pub proof fn lemma_partial_hash_ignores_seal(a: HeaderView, b: HeaderView)
    requires
        a.same_unsealed_fields(b),
    ensures
        a.rlp(false) == b.rlp(false),
        a.unsealed_hash() == b.unsealed_hash(),
{
}

/// Two headers that agree on the first thirteen fields decode, from their
/// sealed encodings, to headers with the same cached partial hash.
pub proof fn lemma_decoded_partial_hash_ignores_seal(a: HeaderView, b: HeaderView)
    requires
        a.wf(),
        b.wf(),
        a.encodable(true),
        b.encodable(true),
        a.same_unsealed_fields(b),
    ensures
        decoded_header(a.rlp(true)) is Ok,
        decoded_header(b.rlp(true)) is Ok,
        decoded_header(a.rlp(true)).unwrap().partial_hash == decoded_header(
            b.rlp(true),
        ).unwrap().partial_hash,
{
    lemma_header_round_trip(a);
    lemma_header_round_trip(b);
    lemma_partial_hash_ignores_seal(a, b);
}

/// Two well-formed headers with the same encoding, sealed or partial, agree
/// on every field that the encoding carries. Headers that differ in such a
/// field therefore hand different bytes to the hash function.
pub proof fn lemma_header_encoding_injective(a: HeaderView, b: HeaderView, sealed: bool)
    requires
        a.wf(),
        b.wf(),
        a.encodable(sealed),
        b.encodable(sealed),
        a.rlp(sealed) == b.rlp(sealed),
    ensures
        a.same_unsealed_fields(b),
        sealed ==> a.mix_hash == b.mix_hash && a.nonce == b.nonce,
{
    let x = a.items(sealed);
    let y = b.items(sealed);
    lemma_members_representable(x);
    lemma_members_representable(y);
    lemma_list_items_of_encoding(x);
    lemma_list_items_of_encoding(y);
    assert(x[0] == y[0] && x[1] == y[1] && x[2] == y[2] && x[3] == y[3] && x[4] == y[4] && x[5]
        == y[5] && x[6] == y[6] && x[7] == y[7] && x[8] == y[8] && x[9] == y[9] && x[10] == y[10]
        && x[11] == y[11] && x[12] == y[12]);
    if sealed {
        assert(x[13] == y[13] && x[14] == y[14]);
    }
    lemma_value_of_be_bytes(a.difficulty);
    lemma_value_of_be_bytes(b.difficulty);
    lemma_value_of_be_bytes(a.number);
    lemma_value_of_be_bytes(b.number);
    lemma_value_of_be_bytes(a.gas_limit);
    lemma_value_of_be_bytes(b.gas_limit);
    lemma_value_of_be_bytes(a.gas_used);
    lemma_value_of_be_bytes(b.gas_used);
    lemma_value_of_be_bytes(a.timestamp);
    lemma_value_of_be_bytes(b.timestamp);
}

/// Reading the item of a well-formed log gives the log back: its address,
/// its topics in their order, and its data.
pub proof fn lemma_log_item_round_trip(log: LogView)
    requires
        log.wf(),
        representable(log.item()),
    ensures
        log_of_item(log.item()) == Ok::<LogView, DecodeError>(log),
{
    let items = log.items();
    let hashes = string_items(log.topics);
    lemma_members_representable(items);
    lemma_items_of_encoding(items);
    lemma_members_representable(hashes);
    lemma_items_of_encoding(hashes);
    assert forall|j: int| 0 <= j < 3 implies fits(#[trigger] log_layout()[j], items[j]) by {}
    lemma_first_misfit(log_layout(), items, 0);
    assert(payloads(hashes) =~= log.topics);
}

/// Decoding the encoding of a well-formed log gives the log back.
pub proof fn lemma_log_round_trip(log: LogView)
    requires
        log.wf(),
        representable(log.item()),
    ensures
        decoded_log(log.rlp()) == Ok::<LogView, DecodeError>(log),
{
    lemma_log_item_round_trip(log);
    lemma_first_item_of_encoding(log.item(), Seq::empty());
}

/// Whatever item is read as a log is the item of the log it is read as, and
/// that log is well formed.
pub proof fn lemma_log_item_canonical(item: Item)
    requires
        log_of_item(item) is Ok,
    ensures
        log_of_item(item).unwrap().wf(),
        log_of_item(item).unwrap().item() == item,
{
    let log = log_of_item(item).unwrap();
    let fields = items_of(item.payload).unwrap();
    lemma_items_of_sound(item.payload);
    lemma_first_misfit(log_layout(), fields, 0);
    assert forall|j: int| 0 <= j < 3 implies fits(#[trigger] log_layout()[j], fields[j]) by {}
    assert(fits(log_layout()[0], fields[0]) && fits(log_layout()[1], fields[1]) && fits(
        log_layout()[2],
        fields[2],
    ));
    let hashes = items_of(fields[1].payload).unwrap();
    lemma_items_of_sound(fields[1].payload);
    assert(string_items(log.topics) =~= hashes);
    assert(log.items() =~= fields);
}

/// Decoding the encoding of a well-formed receipt gives the receipt back:
/// status, gas used, bloom, and the logs index for index in their order.
pub proof fn lemma_receipt_round_trip(receipt: ReceiptView)
    requires
        receipt.wf(),
        receipt.encodable(),
    ensures
        decoded_receipt(receipt.rlp()) == Ok::<ReceiptView, DecodeError>(receipt),
{
    let items = receipt.items();
    let logs = log_items(receipt.logs);
    lemma_members_representable(items);
    lemma_list_items_of_encoding(items);
    lemma_members_representable(logs);
    lemma_items_of_encoding(logs);
    lemma_spelling(receipt.gas_used, 32);
    assert(be_bytes(1) =~= seq![1u8]) by {
        reveal_with_fuel(be_bytes, 2);
    }
    assert forall|j: int| 0 <= j < 4 implies fits(#[trigger] receipt_layout()[j], items[j]) by {}
    lemma_first_misfit(receipt_layout(), items, 0);
    assert forall|j: int| 0 <= j < logs.len() implies log_of_item(#[trigger] logs[j]) == Ok::<
        LogView,
        DecodeError,
    >(receipt.logs[j]) by {
        lemma_log_item_round_trip(receipt.logs[j]);
    }
    lemma_first_bad_log(logs, 0);
    assert(logs_read(logs) =~= receipt.logs);
}

/// The log at each position of a well-formed receipt is the log at the same
/// position of what its encoding decodes to: address, topics and data.
pub proof fn lemma_log_order_preserved(receipt: ReceiptView, k: int)
    requires
        receipt.wf(),
        receipt.encodable(),
        0 <= k < receipt.logs.len(),
    ensures
        decoded_receipt(receipt.rlp()) is Ok,
        decoded_receipt(receipt.rlp()).unwrap().logs.len() == receipt.logs.len(),
        decoded_receipt(receipt.rlp()).unwrap().logs[k].address == receipt.logs[k].address,
        decoded_receipt(receipt.rlp()).unwrap().logs[k].topics == receipt.logs[k].topics,
        decoded_receipt(receipt.rlp()).unwrap().logs[k].data == receipt.logs[k].data,
{
    lemma_receipt_round_trip(receipt);
}

/// Whatever the receipt decoder accepts is the encoding of the receipt it
/// returns, and that receipt is well formed.
pub proof fn lemma_receipt_decoding_canonical(bytes: Seq<u8>)
    requires
        decoded_receipt(bytes) is Ok,
    ensures
        decoded_receipt(bytes).unwrap().wf(),
        decoded_receipt(bytes).unwrap().rlp() == bytes,
{
    let fields = list_items(bytes).unwrap();
    let receipt = decoded_receipt(bytes).unwrap();
    let layout = receipt_layout();
    lemma_list_items_sound(bytes);
    lemma_first_misfit(layout, fields, 0);
    assert(fits(layout[0], fields[0]) && fits(layout[1], fields[1]) && fits(layout[2], fields[2])
        && fits(layout[3], fields[3]));
    lemma_reading(fields[1].payload, 32);
    assert(be_bytes(1) =~= seq![1u8]) by {
        reveal_with_fuel(be_bytes, 2);
    }
    assert(fields[0].payload =~= be_bytes(flag_value(receipt.status)));
    let logs = items_of(fields[3].payload).unwrap();
    lemma_items_of_sound(fields[3].payload);
    lemma_first_bad_log(logs, 0);
    assert forall|j: int| 0 <= j < logs.len() implies (#[trigger] receipt.logs[j]).wf()
        && receipt.logs[j].item() == logs[j] by {
        lemma_log_item_canonical(logs[j]);
    }
    assert(log_items(receipt.logs) =~= logs);
    assert(receipt.items() =~= fields);
}

} // verus!
