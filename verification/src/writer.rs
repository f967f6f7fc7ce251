//! Builds the payload of a list, one member at a time.

use vstd::prelude::*;
use crate::bigendian::{be_bytes, u64_to_be};
use crate::framing::{
    encode_items, encode_list, lemma_encode_items_push, list_item, string_item, write_list,
    write_string, Item,
};

verus! {

/// The members written so far, and their concatenated encodings.
pub struct ListWriter {
    payload: Vec<u8>,
    items: Ghost<Seq<Item>>,
}

impl ListWriter {
    /// The members written so far, in order.
    pub closed spec fn items(&self) -> Seq<Item> {
        self.items@
    }

    /// The buffer holds the encodings of the members, and nothing else.
    pub closed spec fn wf(&self) -> bool {
        self.payload@ == encode_items(self.items@)
    }

    /// A writer that holds no member yet.
    pub fn new() -> (writer: ListWriter)
        ensures
            writer.wf(),
            writer.items() == Seq::<Item>::empty(),
    {
        ListWriter { payload: Vec::new(), items: Ghost(Seq::empty()) }
    }

    /// Adds the byte string `data` as the next member.
    pub fn string(&mut self, data: &[u8])
        requires
            old(self).wf(),
        ensures
            final(self).wf(),
            final(self).items() == old(self).items().push(string_item(data@)),
    {
        proof {
            lemma_encode_items_push(self.items@, string_item(data@));
        }
        write_string(&mut self.payload, data);
        self.items = Ghost(self.items@.push(string_item(data@)));
    }

    /// Adds the unsigned integer `value` as the next member.
    pub fn uint(&mut self, value: u64)
        requires
            old(self).wf(),
        ensures
            final(self).wf(),
            final(self).items() == old(self).items().push(string_item(be_bytes(value as nat))),
    {
        let digits = u64_to_be(value);
        self.string(digits.as_slice());
    }

    /// Adds a list with the given payload as the next member.
    pub fn list(&mut self, payload: &[u8])
        requires
            old(self).wf(),
        ensures
            final(self).wf(),
            final(self).items() == old(self).items().push(list_item(payload@)),
    {
        proof {
            lemma_encode_items_push(self.items@, list_item(payload@));
        }
        write_list(&mut self.payload, payload);
        self.items = Ghost(self.items@.push(list_item(payload@)));
    }

    /// The concatenated encodings of the members.
    pub fn into_payload(self) -> (payload: Vec<u8>)
        requires
            self.wf(),
        ensures
            payload@ == encode_items(self.items()),
    {
        self.payload
    }

    /// Appends the encoding of the list of the members to `out`.
    pub fn finish(self, out: &mut Vec<u8>)
        requires
            self.wf(),
        ensures
            final(out)@ == old(out)@ + encode_list(self.items()),
    {
        write_list(out, self.payload.as_slice());
    }
}

} // verus!
