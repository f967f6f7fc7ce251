//! Block headers: the record, its two wire shapes (sealed, with the
//! proof-of-work fields, and partial, without them) and the two hashes that
//! identify it.

use vstd::prelude::*;
use vstd::slice::slice_to_vec;
use crate::bigendian::{
    be_bytes, be_value, lemma_be_value_bounds, pow256, u64_from_be, U256,
};
use crate::error::{DecodeError, LengthError};
use crate::framing::{
    encode_items, encode_list, list_items, read_list, string_item, views, write_list, Item,
};
use crate::hashing::{keccak256, keccak256_digest};
use crate::laws::{lemma_header_decoding_canonical, lemma_header_round_trip};
use crate::layout::{find_misfit, first_misfit, fits, fixed_bytes, lemma_first_misfit, FieldKind};
use crate::writer::ListWriter;

verus! {

/// The metadata of one block. `hash` and `partial_hash` are filled in by
/// [`BlockHeader::decode`] and by nothing else.
#[derive(Clone, Debug, PartialEq, Eq)]
pub struct BlockHeader {
    pub parent_hash: [u8; 32],
    pub uncles_hash: [u8; 32],
    pub author: [u8; 20],
    pub state_root: [u8; 32],
    pub transactions_root: [u8; 32],
    pub receipts_root: [u8; 32],
    pub log_bloom: [u8; 256],
    pub difficulty: U256,
    pub number: u64,
    pub gas_limit: U256,
    pub gas_used: U256,
    pub timestamp: u64,
    pub extra_data: Vec<u8>,
    pub mix_hash: [u8; 32],
    pub nonce: [u8; 8],
    pub hash: Option<[u8; 32]>,
    pub partial_hash: Option<[u8; 32]>,
}

/// What a header holds, as plain sequences and numbers.
pub struct HeaderView {
    pub parent_hash: Seq<u8>,
    pub uncles_hash: Seq<u8>,
    pub author: Seq<u8>,
    pub state_root: Seq<u8>,
    pub transactions_root: Seq<u8>,
    pub receipts_root: Seq<u8>,
    pub log_bloom: Seq<u8>,
    pub difficulty: nat,
    pub number: nat,
    pub gas_limit: nat,
    pub gas_used: nat,
    pub timestamp: nat,
    pub extra_data: Seq<u8>,
    pub mix_hash: Seq<u8>,
    pub nonce: Seq<u8>,
    pub hash: Option<Seq<u8>>,
    pub partial_hash: Option<Seq<u8>>,
}

/// The bytes of an optional digest.
pub open spec fn digest_view(digest: Option<[u8; 32]>) -> Option<Seq<u8>> {
    match digest {
        Some(bytes) => Some(bytes@),
        None => None,
    }
}

impl View for BlockHeader {
    type V = HeaderView;

    open spec fn view(&self) -> HeaderView {
        HeaderView {
            parent_hash: self.parent_hash@,
            uncles_hash: self.uncles_hash@,
            author: self.author@,
            state_root: self.state_root@,
            transactions_root: self.transactions_root@,
            receipts_root: self.receipts_root@,
            log_bloom: self.log_bloom@,
            difficulty: self.difficulty@,
            number: self.number as nat,
            gas_limit: self.gas_limit@,
            gas_used: self.gas_used@,
            timestamp: self.timestamp as nat,
            extra_data: self.extra_data@,
            mix_hash: self.mix_hash@,
            nonce: self.nonce@,
            hash: digest_view(self.hash),
            partial_hash: digest_view(self.partial_hash),
        }
    }
}

impl HeaderView {
    /// Every field has the width its type gives it.
    pub open spec fn wf(self) -> bool {
        &&& self.parent_hash.len() == 32
        &&& self.uncles_hash.len() == 32
        &&& self.author.len() == 20
        &&& self.state_root.len() == 32
        &&& self.transactions_root.len() == 32
        &&& self.receipts_root.len() == 32
        &&& self.log_bloom.len() == 256
        &&& self.difficulty < pow256(32)
        &&& self.number <= u64::MAX
        &&& self.gas_limit < pow256(32)
        &&& self.gas_used < pow256(32)
        &&& self.timestamp <= u64::MAX
        &&& self.mix_hash.len() == 32
        &&& self.nonce.len() == 8
    }

    /// The members of the header's list, in consensus order: thirteen, and
    /// the mix hash and the nonce after them if `sealed`.
    pub open spec fn items(self, sealed: bool) -> Seq<Item> {
        let unsealed = seq![
            string_item(self.parent_hash),
            string_item(self.uncles_hash),
            string_item(self.author),
            string_item(self.state_root),
            string_item(self.transactions_root),
            string_item(self.receipts_root),
            string_item(self.log_bloom),
            string_item(be_bytes(self.difficulty)),
            string_item(be_bytes(self.number)),
            string_item(be_bytes(self.gas_limit)),
            string_item(be_bytes(self.gas_used)),
            string_item(be_bytes(self.timestamp)),
            string_item(self.extra_data),
        ];
        if sealed {
            unsealed + seq![string_item(self.mix_hash), string_item(self.nonce)]
        } else {
            unsealed
        }
    }

    /// Whether `other` has the same first thirteen fields: all but the mix
    /// hash, the nonce and the cached hashes.
    pub open spec fn same_unsealed_fields(self, other: HeaderView) -> bool {
        &&& self.parent_hash == other.parent_hash
        &&& self.uncles_hash == other.uncles_hash
        &&& self.author == other.author
        &&& self.state_root == other.state_root
        &&& self.transactions_root == other.transactions_root
        &&& self.receipts_root == other.receipts_root
        &&& self.log_bloom == other.log_bloom
        &&& self.difficulty == other.difficulty
        &&& self.number == other.number
        &&& self.gas_limit == other.gas_limit
        &&& self.gas_used == other.gas_used
        &&& self.timestamp == other.timestamp
        &&& self.extra_data == other.extra_data
    }

    /// The canonical encoding, sealed or partial.
    pub open spec fn rlp(self, sealed: bool) -> Seq<u8> {
        encode_list(self.items(sealed))
    }

    /// The list payload is short enough for its length to be written down.
    /// This holds of every header that fits in memory.
    pub open spec fn encodable(self, sealed: bool) -> bool {
        encode_items(self.items(sealed)).len() <= u64::MAX
    }

    /// The header with the given cached hashes.
    pub open spec fn with_hashes(self, hash: Option<Seq<u8>>, partial_hash: Option<Seq<u8>>) -> HeaderView {
        HeaderView { hash, partial_hash, ..self }
    }

    /// The hash that identifies the sealed header.
    pub open spec fn sealed_hash(self) -> Seq<u8> {
        keccak256_digest(self.rlp(true))
    }

    /// The hash of the header without its seal, the proof-of-work input.
    pub open spec fn unsealed_hash(self) -> Seq<u8> {
        keccak256_digest(self.rlp(false))
    }
}

/// The shapes of the fifteen members of a sealed header.
pub open spec fn header_layout() -> Seq<FieldKind> {
    seq![
        FieldKind::Fixed(32),
        FieldKind::Fixed(32),
        FieldKind::Fixed(20),
        FieldKind::Fixed(32),
        FieldKind::Fixed(32),
        FieldKind::Fixed(32),
        FieldKind::Fixed(256),
        FieldKind::Uint(32),
        FieldKind::Uint(8),
        FieldKind::Uint(32),
        FieldKind::Uint(32),
        FieldKind::Uint(8),
        FieldKind::Bytes,
        FieldKind::Fixed(32),
        FieldKind::Fixed(8),
    ]
}

/// The header whose fields are the payloads of `items`, by position, with no
/// hash cached.
pub open spec fn header_of_items(items: Seq<Item>) -> HeaderView {
    HeaderView {
        parent_hash: items[0].payload,
        uncles_hash: items[1].payload,
        author: items[2].payload,
        state_root: items[3].payload,
        transactions_root: items[4].payload,
        receipts_root: items[5].payload,
        log_bloom: items[6].payload,
        difficulty: be_value(items[7].payload),
        number: be_value(items[8].payload),
        gas_limit: be_value(items[9].payload),
        gas_used: be_value(items[10].payload),
        timestamp: be_value(items[11].payload),
        extra_data: items[12].payload,
        mix_hash: items[13].payload,
        nonce: items[14].payload,
        hash: None,
        partial_hash: None,
    }
}

/// The header that `bytes` is the sealed encoding of, or why it is none.
/// `hash` is the Keccak-256 of `bytes` as given; `partial_hash` that of the
/// partial encoding of the fields read.
pub open spec fn decoded_header(bytes: Seq<u8>) -> Result<HeaderView, DecodeError> {
    match list_items(bytes) {
        None => Err(DecodeError::MalformedList),
        Some(items) => {
            if items.len() != 15 {
                Err(DecodeError::MalformedList)
            } else {
                match first_misfit(header_layout(), items, 0) {
                    Some(i) => Err(DecodeError::FieldShape { index: i as usize }),
                    None => {
                        let fields = header_of_items(items);
                        Ok(
                            fields.with_hashes(
                                Some(keccak256_digest(bytes)),
                                Some(fields.unsealed_hash()),
                            ),
                        )
                    },
                }
            }
        },
    }
}

impl BlockHeader {
    /// The view of any header has fields of the right widths.
    pub proof fn lemma_view_wf(&self)
        ensures
            self@.wf(),
    {
        lemma_be_value_bounds(self.difficulty.0@);
        lemma_be_value_bounds(self.gas_limit.0@);
        lemma_be_value_bounds(self.gas_used.0@);
    }

    /// The extra data as a 32-byte value, where it has that length.
    pub fn extra_data(&self) -> (r: Result<[u8; 32], LengthError>)
        ensures
            match r {
                Ok(value) => self.extra_data@.len() == 32 && value@ == self.extra_data@,
                Err(e) => self.extra_data@.len() != 32 && e == (LengthError {
                    expected: 32,
                    actual: self.extra_data.len(),
                }),
            },
    {
        match fixed_bytes(self.extra_data.as_slice()) {
            Some(value) => Ok(value),
            None => Err(LengthError { expected: 32, actual: self.extra_data.len() }),
        }
    }

    /// The concatenated encodings of the header's members.
    fn payload(&self, partial: bool) -> (payload: Vec<u8>)
        ensures
            payload@ == encode_items(self@.items(!partial)),
    {
        let mut fields = ListWriter::new();
        fields.string(self.parent_hash.as_slice());
        fields.string(self.uncles_hash.as_slice());
        fields.string(self.author.as_slice());
        fields.string(self.state_root.as_slice());
        fields.string(self.transactions_root.as_slice());
        fields.string(self.receipts_root.as_slice());
        fields.string(self.log_bloom.as_slice());
        let difficulty = self.difficulty.to_minimal_be();
        fields.string(difficulty.as_slice());
        fields.uint(self.number);
        let gas_limit = self.gas_limit.to_minimal_be();
        fields.string(gas_limit.as_slice());
        let gas_used = self.gas_used.to_minimal_be();
        fields.string(gas_used.as_slice());
        fields.uint(self.timestamp);
        fields.string(self.extra_data.as_slice());
        if !partial {
            fields.string(self.mix_hash.as_slice());
            fields.string(self.nonce.as_slice());
        }
        assert(fields.items() =~= self@.items(!partial));
        fields.into_payload()
    }

    /// Appends the encoding of the header to `stream`: the list of thirteen
    /// members if `partial`, of all fifteen if not.
    pub fn stream_rlp(&self, stream: &mut Vec<u8>, partial: bool)
        ensures
            final(stream)@ == old(stream)@ + self@.rlp(!partial),
            self@.encodable(!partial),
    {
        let payload = self.payload(partial);
        assert(payload.len() <= u64::MAX);
        write_list(stream, payload.as_slice());
    }

    /// Appends the sealed encoding of the header to `stream`.
    pub fn rlp_append(&self, stream: &mut Vec<u8>)
        ensures
            final(stream)@ == old(stream)@ + self@.rlp(true),
            self@.encodable(true),
    {
        self.stream_rlp(stream, false);
    }

    /// The sealed encoding: the list of all fifteen members. Decoding it
    /// gives the header's fields back, with both hashes filled in.
    pub fn encode_sealed(&self) -> (out: Vec<u8>)
        ensures
            out@ == self@.rlp(true),
            decoded_header(out@) == Ok::<HeaderView, DecodeError>(
                self@.with_hashes(Some(self@.sealed_hash()), Some(self@.unsealed_hash())),
            ),
    {
        let mut out = Vec::new();
        self.stream_rlp(&mut out, false);
        proof {
            self.lemma_view_wf();
            lemma_header_round_trip(self@);
        }
        out
    }

    /// The partial encoding: the list of the first thirteen members.
    pub fn encode_partial(&self) -> (out: Vec<u8>)
        ensures
            out@ == self@.rlp(false),
    {
        let mut out = Vec::new();
        self.stream_rlp(&mut out, true);
        out
    }

    /// Keccak-256 of the sealed encoding, computed from the fields.
    pub fn compute_hash(&self) -> (digest: [u8; 32])
        ensures
            digest@ == self@.sealed_hash(),
    {
        let bytes = self.encode_sealed();
        keccak256(bytes.as_slice())
    }

    /// Keccak-256 of the partial encoding, computed from the fields.
    pub fn compute_partial_hash(&self) -> (digest: [u8; 32])
        ensures
            digest@ == self@.unsealed_hash(),
    {
        let bytes = self.encode_partial();
        keccak256(bytes.as_slice())
    }

    /// Decodes the sealed encoding of a header and caches both hashes.
    /// Anything but the canonical encoding of a list of fifteen members of
    /// the right shapes is rejected, bytes after the list included.
    pub fn decode(bytes: &[u8]) -> (r: Result<BlockHeader, DecodeError>)
        ensures
            match r {
                Ok(header) => decoded_header(bytes@) == Ok::<HeaderView, DecodeError>(header@)
                    && header@.rlp(true) == bytes@,
                Err(e) => decoded_header(bytes@) == Err::<HeaderView, DecodeError>(e),
            },
    {
        let items = match read_list(bytes) {
            Some(items) => items,
            None => {
                return Err(DecodeError::MalformedList);
            },
        };
        if items.len() != 15 {
            return Err(DecodeError::MalformedList);
        }
        let layout = [
            FieldKind::Fixed(32),
            FieldKind::Fixed(32),
            FieldKind::Fixed(20),
            FieldKind::Fixed(32),
            FieldKind::Fixed(32),
            FieldKind::Fixed(32),
            FieldKind::Fixed(256),
            FieldKind::Uint(32),
            FieldKind::Uint(8),
            FieldKind::Uint(32),
            FieldKind::Uint(32),
            FieldKind::Uint(8),
            FieldKind::Bytes,
            FieldKind::Fixed(32),
            FieldKind::Fixed(8),
        ];
        match find_misfit(layout.as_slice(), &items) {
            Some(i) => {
                return Err(DecodeError::FieldShape { index: i });
            },
            None => {},
        }
        let ghost shown = views(items@);
        proof {
            lemma_first_misfit(header_layout(), shown, 0);
            assert forall|j: int| 0 <= j < 15 implies fits(header_layout()[j], shown[j])
                && shown[j] == items@[j]@ by {}
        }
        let mut header = BlockHeader {
            parent_hash: fixed_bytes(items[0].payload).unwrap(),
            uncles_hash: fixed_bytes(items[1].payload).unwrap(),
            author: fixed_bytes(items[2].payload).unwrap(),
            state_root: fixed_bytes(items[3].payload).unwrap(),
            transactions_root: fixed_bytes(items[4].payload).unwrap(),
            receipts_root: fixed_bytes(items[5].payload).unwrap(),
            log_bloom: fixed_bytes(items[6].payload).unwrap(),
            difficulty: U256::from_be_slice(items[7].payload).unwrap(),
            number: u64_from_be(items[8].payload).unwrap(),
            gas_limit: U256::from_be_slice(items[9].payload).unwrap(),
            gas_used: U256::from_be_slice(items[10].payload).unwrap(),
            timestamp: u64_from_be(items[11].payload).unwrap(),
            extra_data: slice_to_vec(items[12].payload),
            mix_hash: fixed_bytes(items[13].payload).unwrap(),
            nonce: fixed_bytes(items[14].payload).unwrap(),
            hash: Some(keccak256(bytes)),
            partial_hash: None,
        };
        let partial = header.encode_partial();
        header.partial_hash = Some(keccak256(partial.as_slice()));
        proof {
            lemma_header_decoding_canonical(bytes@);
        }
        Ok(header)
    }
}

} // verus!
