//! The shapes a record's fields can have on the wire, and the search for the
//! first member of a list that does not have the shape its position calls for.

use vstd::prelude::*;
use crate::bigendian::minimal;
use crate::framing::{items_of, read_items, views, Item, ItemRef};

verus! {

/// The shape that a record expects of one member of its list.
#[derive(Clone, Copy, Debug, PartialEq, Eq)]
pub enum FieldKind {
    /// A byte string of exactly this many bytes.
    Fixed(usize),
    /// An unsigned integer of at most this many bytes: a byte string without
    /// a leading zero.
    Uint(usize),
    /// The integer 0 or 1.
    Flag,
    /// A byte string of any length.
    Bytes,
    /// A list of 32-byte strings.
    Hashes,
    /// A list of items of any kind.
    List,
}

/// Whether `item` has the shape `kind`.
pub open spec fn fits(kind: FieldKind, item: Item) -> bool {
    match kind {
        FieldKind::Fixed(n) => !item.is_list && item.payload.len() == n,
        FieldKind::Uint(n) => !item.is_list && item.payload.len() <= n && minimal(item.payload),
        FieldKind::Flag => !item.is_list && (item.payload.len() == 0 || (item.payload.len() == 1
            && item.payload[0] == 1)),
        FieldKind::Bytes => !item.is_list,
        FieldKind::Hashes => item.is_list && match items_of(item.payload) {
            Some(hashes) => forall|k: int|
                0 <= k < hashes.len() ==> !(#[trigger] hashes[k]).is_list && hashes[k].payload.len()
                    == 32,
            None => false,
        },
        FieldKind::List => item.is_list && items_of(item.payload) is Some,
    }
}

/// The least position at or after `from` whose item does not have the shape
/// that `layout` gives for it.
pub open spec fn first_misfit(layout: Seq<FieldKind>, items: Seq<Item>, from: nat) -> Option<nat>
    decreases layout.len() - from,
{
    if from >= layout.len() {
        None
    } else if !fits(layout[from as int], items[from as int]) {
        Some(from)
    } else {
        first_misfit(layout, items, from + 1)
    }
}

/// `first_misfit` finds the least misfit, and finds none only if all fit.
pub proof fn lemma_first_misfit(layout: Seq<FieldKind>, items: Seq<Item>, from: nat)
    ensures
        match first_misfit(layout, items, from) {
            Some(i) => from <= i < layout.len() && !fits(layout[i as int], items[i as int])
                && forall|j: int| from <= j < i ==> fits(#[trigger] layout[j], items[j]),
            None => forall|j: int| from <= j < layout.len() ==> fits(#[trigger] layout[j], items[j]),
        },
    decreases layout.len() - from,
{
    if from < layout.len() && fits(layout[from as int], items[from as int]) {
        lemma_first_misfit(layout, items, from + 1);
    }
}

/// Whether every item is a string of 32 bytes.
fn all_hashes(items: &Vec<ItemRef>) -> (ok: bool)
    ensures
        ok == forall|k: int|
            0 <= k < items@.len() ==> !(#[trigger] views(items@)[k]).is_list && views(
                items@,
            )[k].payload.len() == 32,
{
    let mut k: usize = 0;
    while k < items.len()
        invariant
            k <= items@.len(),
            forall|j: int|
                0 <= j < k ==> !(#[trigger] views(items@)[j]).is_list && views(
                    items@,
                )[j].payload.len() == 32,
        decreases items@.len() - k,
    {
        assert(views(items@)[k as int] == items@[k as int]@);
        if items[k].is_list || items[k].payload.len() != 32 {
            return false;
        }
        k += 1;
    }
    true
}

/// Whether `item` has the shape `kind`.
pub(crate) fn check_field(kind: FieldKind, item: &ItemRef) -> (ok: bool)
    ensures
        ok == fits(kind, item@),
{
    match kind {
        FieldKind::Fixed(n) => !item.is_list && item.payload.len() == n,
        FieldKind::Uint(n) => !item.is_list && item.payload.len() <= n && (item.payload.len() == 0
            || item.payload[0] != 0),
        FieldKind::Flag => !item.is_list && (item.payload.len() == 0 || (item.payload.len() == 1
            && item.payload[0] == 1)),
        FieldKind::Bytes => !item.is_list,
        FieldKind::Hashes => {
            if !item.is_list {
                return false;
            }
            match read_items(item.payload) {
                None => false,
                Some(hashes) => {
                    let ok = all_hashes(&hashes);
                    proof {
                        assert(items_of(item@.payload) == Some(views(hashes@)));
                        if !ok {
                            assert(!fits(FieldKind::Hashes, item@));
                        }
                    }
                    ok
                },
            }
        },
        FieldKind::List => item.is_list && read_items(item.payload).is_some(),
    }
}

/// The first position whose item does not have the shape `layout` gives it.
pub(crate) fn find_misfit(layout: &[FieldKind], items: &Vec<ItemRef>) -> (r: Option<usize>)
    requires
        layout@.len() == items@.len(),
    ensures
        match r {
            Some(i) => first_misfit(layout@, views(items@), 0) == Some(i as nat),
            None => first_misfit(layout@, views(items@), 0) is None,
        },
{
    let mut i: usize = 0;
    while i < layout.len()
        invariant
            i <= layout@.len() == items@.len(),
            first_misfit(layout@, views(items@), 0) == first_misfit(layout@, views(items@), i as nat),
        decreases layout@.len() - i,
    {
        if !check_field(layout[i], &items[i]) {
            return Some(i);
        }
        i += 1;
    }
    None
}

/// The bytes of `data` as an array of `N`; `None` where `data` has another
/// length.
pub fn fixed_bytes<const N: usize>(data: &[u8]) -> (out: Option<[u8; N]>)
    ensures
        match out {
            Some(bytes) => data@.len() == N && bytes@ == data@,
            None => data@.len() != N,
        },
{
    if data.len() != N {
        return None;
    }
    let mut out = [0u8; N];
    let mut i: usize = 0;
    while i < N
        invariant
            i <= N,
            data@.len() == N,
            forall|k: int| 0 <= k < i ==> out@[k] == data@[k],
        decreases N - i,
    {
        out[i] = data[i];
        i += 1;
    }
    Some(out)
}

} // verus!
