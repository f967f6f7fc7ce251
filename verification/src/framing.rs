//! Recursive length-prefix framing: how one item (a byte string or a list)
//! is laid out on the wire, and how a run of bytes is cut back into items.
//!
//! The encoding side is the definition. The decoding side is a separate
//! definition that reads a tag byte and a length, and the lemmas of this
//! module show that it accepts exactly what the encoding side produces.

use vstd::prelude::*;
use vstd::slice::slice_subrange;
use crate::bigendian::{
    be_bytes, be_value, lemma_be_bytes_len, lemma_be_bytes_minimal, lemma_be_bytes_of_value,
    lemma_be_value_bounds, lemma_pow256_monotonic, lemma_pow256_values, lemma_value_of_be_bytes,
    u64_from_be, u64_to_be,
};

verus! {

/// One framed item: a byte string, or a list whose payload is the
/// concatenation of its members' encodings.
pub struct Item {
    pub is_list: bool,
    pub payload: Seq<u8>,
}

/// The item for the byte string `payload`.
pub open spec fn string_item(payload: Seq<u8>) -> Item {
    Item { is_list: false, payload }
}

/// The item for a list with the given payload.
pub open spec fn list_item(payload: Seq<u8>) -> Item {
    Item { is_list: true, payload }
}

/// A string that is its own encoding: one byte below `0x80`.
pub open spec fn is_single(payload: Seq<u8>) -> bool {
    payload.len() == 1 && payload[0] < 0x80
}

/// A payload length that the format can express: it fits in eight bytes.
pub open spec fn representable(item: Item) -> bool {
    item.payload.len() <= u64::MAX
}

/// The tag byte, and the length bytes if any, in front of a payload of
/// `len` bytes.
pub open spec fn prefix(is_list: bool, len: nat) -> Seq<u8> {
    let base: nat = if is_list { 0xc0 } else { 0x80 };
    if len < 56 {
        seq![(base + len) as u8]
    } else {
        seq![(base + 55 + be_bytes(len).len()) as u8] + be_bytes(len)
    }
}

/// The canonical encoding of one item.
pub open spec fn encode_item(item: Item) -> Seq<u8> {
    if !item.is_list && is_single(item.payload) {
        item.payload
    } else {
        prefix(item.is_list, item.payload.len()) + item.payload
    }
}

/// The encodings of `items`, one after the other.
pub open spec fn encode_items(items: Seq<Item>) -> Seq<u8>
    decreases items.len(),
{
    if items.len() == 0 {
        Seq::empty()
    } else {
        encode_items(items.drop_last()) + encode_item(items.last())
    }
}

/// The canonical encoding of the list of `items`.
pub open spec fn encode_list(items: Seq<Item>) -> Seq<u8> {
    encode_item(list_item(encode_items(items)))
}

/// What a tag byte and its length bytes announce: the kind of item, where
/// its payload starts and how long it is.
pub struct Head {
    pub is_list: bool,
    pub offset: nat,
    pub len: nat,
}

/// The head of an item whose length is spelled in `width` bytes after the
/// tag. The spelling must be the shortest one, of a length that the one-byte
/// form cannot express.
pub open spec fn long_head(bytes: Seq<u8>, is_list: bool, width: nat) -> Option<Head> {
    if bytes.len() < 1 + width {
        None
    } else {
        let digits = bytes.subrange(1, 1 + width as int);
        if digits[0] == 0 || be_value(digits) < 56 {
            None
        } else {
            Some(Head { is_list, offset: 1 + width, len: be_value(digits) })
        }
    }
}

/// The head that `bytes` begins with.
pub open spec fn head(bytes: Seq<u8>) -> Option<Head> {
    if bytes.len() == 0 {
        None
    } else {
        let tag = bytes[0];
        if tag < 0x80 {
            Some(Head { is_list: false, offset: 0, len: 1 })
        } else if tag < 0xb8 {
            Some(Head { is_list: false, offset: 1, len: (tag - 0x80) as nat })
        } else if tag < 0xc0 {
            long_head(bytes, false, (tag - 0xb7) as nat)
        } else if tag < 0xf8 {
            Some(Head { is_list: true, offset: 1, len: (tag - 0xc0) as nat })
        } else {
            long_head(bytes, true, (tag - 0xf7) as nat)
        }
    }
}

/// The item that `bytes` begins with and the number of bytes it takes up,
/// if `bytes` begins with the canonical encoding of an item.
pub open spec fn first_item(bytes: Seq<u8>) -> Option<(Item, nat)> {
    match head(bytes) {
        Some(h) => {
            let end = h.offset + h.len;
            let payload = bytes.subrange(h.offset as int, end as int);
            if end > bytes.len() {
                None
            } else if !h.is_list && h.offset == 1 && is_single(payload) {
                None
            } else {
                Some((Item { is_list: h.is_list, payload }, end))
            }
        },
        None => None,
    }
}

/// The items that `bytes` is the concatenated encoding of, if it is one.
pub open spec fn items_of(bytes: Seq<u8>) -> Option<Seq<Item>>
    decreases bytes.len(),
{
    if bytes.len() == 0 {
        Some(Seq::empty())
    } else {
        match first_item(bytes) {
            Some((item, used)) => {
                if 0 < used <= bytes.len() {
                    match items_of(bytes.skip(used as int)) {
                        Some(rest) => Some(seq![item] + rest),
                        None => None,
                    }
                } else {
                    None
                }
            },
            None => None,
        }
    }
}

/// The item that `bytes` is the encoding of, with nothing left over.
pub open spec fn whole_item(bytes: Seq<u8>) -> Option<Item> {
    match first_item(bytes) {
        Some((item, used)) => if used == bytes.len() {
            Some(item)
        } else {
            None
        },
        None => None,
    }
}

/// The members of the list that `bytes` is the encoding of.
pub open spec fn list_items(bytes: Seq<u8>) -> Option<Seq<Item>> {
    match whole_item(bytes) {
        Some(item) => if item.is_list {
            items_of(item.payload)
        } else {
            None
        },
        None => None,
    }
}

/// Reading what `encode_item` wrote gives the item back, whatever follows it.
pub proof fn lemma_first_item_of_encoding(item: Item, rest: Seq<u8>)
    requires
        representable(item),
    ensures
        first_item(encode_item(item) + rest) == Some((item, encode_item(item).len())),
        encode_item(item).len() > 0,
        encode_item(item).len() >= item.payload.len(),
{
    let bytes = encode_item(item) + rest;
    let len = item.payload.len();
    if !item.is_list && is_single(item.payload) {
        assert(bytes.subrange(0, 1) =~= item.payload);
    } else if len < 56 {
        assert(bytes.subrange(1, 1 + len as int) =~= item.payload);
    } else {
        lemma_pow256_values();
        lemma_be_bytes_len(len, 8);
        lemma_be_bytes_minimal(len);
        lemma_value_of_be_bytes(len);
        let digits = be_bytes(len);
        let width = digits.len();
        assert(bytes.subrange(1, 1 + width as int) =~= digits);
        assert(bytes.subrange(1 + width as int, 1 + width + len as int) =~= item.payload);
    }
}

/// Whatever `first_item` accepts is the canonical encoding of what it returns.
pub proof fn lemma_first_item_sound(bytes: Seq<u8>)
    requires
        first_item(bytes) is Some,
    ensures
        ({
            let (item, used) = first_item(bytes).unwrap();
            &&& 0 < used <= bytes.len()
            &&& bytes.subrange(0, used as int) == encode_item(item)
            &&& item.payload.len() <= used
            &&& representable(item)
        }),
{
    let tag = bytes[0];
    if 0xb8 <= tag < 0xc0 || 0xf8 <= tag {
        let width = (head(bytes).unwrap().offset - 1) as nat;
        let digits = bytes.subrange(1, 1 + width as int);
        lemma_be_bytes_of_value(digits);
        lemma_be_value_bounds(digits);
        lemma_pow256_monotonic(width, 8);
        lemma_pow256_values();
    }
}

/// Appending one item appends its encoding.
pub proof fn lemma_encode_items_push(items: Seq<Item>, item: Item)
    ensures
        encode_items(items.push(item)) == encode_items(items) + encode_item(item),
{
    assert(items.push(item).drop_last() =~= items);
}

/// The encoding of a non-empty run starts with the encoding of its first item.
pub proof fn lemma_encode_items_front(first: Item, rest: Seq<Item>)
    ensures
        encode_items(seq![first] + rest) == encode_item(first) + encode_items(rest),
    decreases rest.len(),
{
    let all = seq![first] + rest;
    if rest.len() == 0 {
        assert(all.drop_last() =~= Seq::<Item>::empty());
        assert(encode_items(Seq::<Item>::empty()) =~= Seq::<u8>::empty());
    } else {
        lemma_encode_items_front(first, rest.drop_last());
        assert(all.drop_last() =~= seq![first] + rest.drop_last());
    }
}

/// No member's encoding is longer than the whole run's.
pub proof fn lemma_encode_items_len(items: Seq<Item>, k: int)
    requires
        0 <= k < items.len(),
    ensures
        encode_item(items[k]).len() <= encode_items(items).len(),
        items[k].payload.len() <= encode_items(items).len(),
    decreases items.len(),
{
    if k < items.len() - 1 {
        lemma_encode_items_len(items.drop_last(), k);
    }
}

/// Cutting up the concatenated encodings of `items` gives `items` back.
pub proof fn lemma_items_of_encoding(items: Seq<Item>)
    requires
        forall|k: int| 0 <= k < items.len() ==> representable(#[trigger] items[k]),
    ensures
        items_of(encode_items(items)) == Some(items),
    decreases items.len(),
{
    if items.len() > 0 {
        let first = items[0];
        let rest = items.skip(1);
        assert(items =~= seq![first] + rest);
        lemma_encode_items_front(first, rest);
        lemma_first_item_of_encoding(first, encode_items(rest));
        let used = encode_item(first).len();
        assert(encode_items(items).skip(used as int) =~= encode_items(rest));
        lemma_items_of_encoding(rest);
    }
}

/// Whatever `items_of` accepts is the concatenation of the encodings of the
/// items it returns.
pub proof fn lemma_items_of_sound(bytes: Seq<u8>)
    requires
        items_of(bytes) is Some,
    ensures
        encode_items(items_of(bytes).unwrap()) == bytes,
        forall|k: int|
            0 <= k < items_of(bytes).unwrap().len() ==> representable(
                #[trigger] items_of(bytes).unwrap()[k],
            ),
    decreases bytes.len(),
{
    if bytes.len() > 0 {
        let (item, used) = first_item(bytes).unwrap();
        let tail = bytes.skip(used as int);
        lemma_first_item_sound(bytes);
        lemma_items_of_sound(tail);
        lemma_encode_items_front(item, items_of(tail).unwrap());
    }
}

/// Decoding the encoding of a list gives its members back.
pub proof fn lemma_list_items_of_encoding(items: Seq<Item>)
    requires
        forall|k: int| 0 <= k < items.len() ==> representable(#[trigger] items[k]),
        encode_items(items).len() <= u64::MAX,
    ensures
        list_items(encode_list(items)) == Some(items),
{
    let whole = list_item(encode_items(items));
    lemma_first_item_of_encoding(whole, Seq::empty());
    lemma_items_of_encoding(items);
}

/// Whatever `list_items` accepts is the canonical encoding of the list of
/// the items it returns.
pub proof fn lemma_list_items_sound(bytes: Seq<u8>)
    requires
        list_items(bytes) is Some,
    ensures
        encode_list(list_items(bytes).unwrap()) == bytes,
        bytes.len() <= u64::MAX + 9,
{
    let item = whole_item(bytes).unwrap();
    lemma_first_item_sound(bytes);
    lemma_items_of_sound(item.payload);
    assert(encode_item(item).len() <= item.payload.len() + 9) by {
        if item.payload.len() >= 56 {
            lemma_pow256_values();
            lemma_be_bytes_len(item.payload.len(), 8);
        }
    }
}

/// An item as it lies in an input buffer.
#[derive(Clone, Copy, Debug)]
pub struct ItemRef<'a> {
    pub is_list: bool,
    pub payload: &'a [u8],
}

impl<'a> View for ItemRef<'a> {
    type V = Item;

    open spec fn view(&self) -> Item {
        Item { is_list: self.is_list, payload: self.payload@ }
    }
}

/// The items that a run of item references stands for.
pub open spec fn views(items: Seq<ItemRef>) -> Seq<Item> {
    items.map_values(|r: ItemRef| r@)
}

/// Appends `data` to `out`.
pub fn append_bytes(out: &mut Vec<u8>, data: &[u8])
    ensures
        final(out)@ == old(out)@ + data@,
{
    out.extend_from_slice(data);
}

/// Appends the prefix for a payload of `len` bytes to `out`.
pub fn write_prefix(out: &mut Vec<u8>, is_list: bool, len: usize)
    ensures
        final(out)@ == old(out)@ + prefix(is_list, len as nat),
{
    let base: u8 = if is_list { 0xc0 } else { 0x80 };
    if len < 56 {
        out.push(base + len as u8);
    } else {
        let digits = u64_to_be(len as u64);
        proof {
            lemma_pow256_values();
            lemma_be_bytes_len(len as nat, 8);
        }
        out.push(base + 55 + digits.len() as u8);
        append_bytes(out, digits.as_slice());
    }
}

/// Appends the encoding of the byte string `data` to `out`.
pub fn write_string(out: &mut Vec<u8>, data: &[u8])
    ensures
        final(out)@ == old(out)@ + encode_item(string_item(data@)),
{
    if data.len() == 1 && data[0] < 0x80 {
        out.push(data[0]);
    } else {
        write_prefix(out, false, data.len());
        append_bytes(out, data);
    }
}

/// Appends the encoding of the list with the given payload to `out`.
pub fn write_list(out: &mut Vec<u8>, payload: &[u8])
    ensures
        final(out)@ == old(out)@ + encode_item(list_item(payload@)),
{
    write_prefix(out, true, payload.len());
    append_bytes(out, payload);
}

/// Reads a length spelled in `width` bytes after the tag, and checks that a
/// payload of that length fits in what follows.
fn read_long_len(bytes: &[u8], width: usize) -> (r: Option<usize>)
    requires
        1 <= width <= 8,
    ensures
        match r {
            Some(len) => long_head(bytes@, true, width as nat) matches Some(h) && h.len == len
                && 1 + width + len <= bytes@.len(),
            None => long_head(bytes@, true, width as nat) matches Some(h) ==> 1 + width + h.len
                > bytes@.len(),
        },
{
    if bytes.len() < 1 + width {
        return None;
    }
    let digits = slice_subrange(bytes, 1, 1 + width);
    if digits[0] == 0 {
        return None;
    }
    let value = u64_from_be(digits).unwrap();
    if value < 56 {
        return None;
    }
    let room = bytes.len() - 1 - width;
    if value > room as u64 {
        return None;
    }
    Some(value as usize)
}

/// Reads the item at the front of `bytes`: the item and the number of bytes
/// it takes up, or `None` where `bytes` does not begin with a canonical item.
pub fn read_item<'a>(bytes: &'a [u8]) -> (r: Option<(ItemRef<'a>, usize)>)
    ensures
        match r {
            Some((item, used)) => first_item(bytes@) == Some((item@, used as nat)),
            None => first_item(bytes@) is None,
        },
{
    if bytes.len() == 0 {
        return None;
    }
    let tag = bytes[0];
    let is_list = tag >= 0xc0;
    let offset: usize;
    let len: usize;
    if tag < 0x80 {
        offset = 0;
        len = 1;
    } else if tag < 0xb8 {
        offset = 1;
        len = (tag - 0x80) as usize;
    } else if tag < 0xc0 {
        let width = (tag - 0xb7) as usize;
        match read_long_len(bytes, width) {
            Some(n) => {
                offset = 1 + width;
                len = n;
            },
            None => {
                return None;
            },
        }
    } else if tag < 0xf8 {
        offset = 1;
        len = (tag - 0xc0) as usize;
    } else {
        let width = (tag - 0xf7) as usize;
        match read_long_len(bytes, width) {
            Some(n) => {
                offset = 1 + width;
                len = n;
            },
            None => {
                return None;
            },
        }
    }
    if len > bytes.len() - offset {
        return None;
    }
    let payload = slice_subrange(bytes, offset, offset + len);
    if !is_list && offset == 1 && len == 1 && payload[0] < 0x80 {
        return None;
    }
    Some((ItemRef { is_list, payload }, offset + len))
}

/// Cuts `bytes` into the items it is the concatenated encoding of.
pub fn read_items<'a>(bytes: &'a [u8]) -> (r: Option<Vec<ItemRef<'a>>>)
    ensures
        match r {
            Some(items) => items_of(bytes@) == Some(views(items@)),
            None => items_of(bytes@) is None,
        },
{
    let mut items: Vec<ItemRef<'a>> = Vec::new();
    let mut rest = bytes;
    while rest.len() > 0
        invariant
            items_of(bytes@) == match items_of(rest@) {
                Some(tail) => Some(views(items@) + tail),
                None => None,
            },
        decreases rest@.len(),
    {
        match read_item(rest) {
            None => {
                return None;
            },
            Some((item, used)) => {
                proof {
                    lemma_first_item_sound(rest@);
                }
                items.push(item);
                rest = slice_subrange(rest, used, rest.len());
            },
        }
    }
    Some(items)
}

/// Reads `bytes` as the encoding of one item with nothing left over.
pub fn read_whole<'a>(bytes: &'a [u8]) -> (r: Option<ItemRef<'a>>)
    ensures
        match r {
            Some(item) => whole_item(bytes@) == Some(item@),
            None => whole_item(bytes@) is None,
        },
{
    match read_item(bytes) {
        Some((item, used)) => if used == bytes.len() {
            Some(item)
        } else {
            None
        },
        None => None,
    }
}

/// Reads `bytes` as the encoding of one list and returns its members.
pub fn read_list<'a>(bytes: &'a [u8]) -> (r: Option<Vec<ItemRef<'a>>>)
    ensures
        match r {
            Some(items) => list_items(bytes@) == Some(views(items@)),
            None => list_items(bytes@) is None,
        },
{
    match read_whole(bytes) {
        Some(item) => if item.is_list {
            read_items(item.payload)
        } else {
            None
        },
        None => None,
    }
}

} // verus!
