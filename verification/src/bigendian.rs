//! Unsigned integers as big-endian byte strings without leading zeros, the
//! only integer form the wire format admits, and the 256-bit integer the
//! records carry.

use vstd::prelude::*;
use vstd::slice::{slice_subrange, slice_to_vec};

verus! {

/// 256 to the power `k`.
pub open spec fn pow256(k: nat) -> nat
    decreases k,
{
    if k == 0 {
        1
    } else {
        256 * pow256((k - 1) as nat)
    }
}

/// The number that `bytes` spells in base 256, most significant byte first.
pub open spec fn be_value(bytes: Seq<u8>) -> nat
    decreases bytes.len(),
{
    if bytes.len() == 0 {
        0
    } else {
        be_value(bytes.drop_last()) * 256 + bytes.last() as nat
    }
}

/// The shortest big-endian spelling of `n`; zero is the empty string.
pub open spec fn be_bytes(n: nat) -> Seq<u8>
    decreases n,
{
    if n == 0 {
        Seq::empty()
    } else {
        be_bytes(n / 256).push((n % 256) as u8)
    }
}

/// No leading zero byte.
pub open spec fn minimal(bytes: Seq<u8>) -> bool {
    bytes.len() == 0 || bytes[0] != 0
}

/// The powers of 256 that bound one byte, seven bytes and a 64-bit word.
pub proof fn lemma_pow256_values()
    ensures
        pow256(0) == 1,
        pow256(1) == 0x100,
        pow256(7) == 0x100_0000_0000_0000,
        pow256(8) == 0x1_0000_0000_0000_0000,
{
    reveal_with_fuel(pow256, 9);
}

/// Powers of 256 are positive and grow with the exponent.
pub proof fn lemma_pow256_monotonic(i: nat, j: nat)
    requires
        i <= j,
    ensures
        0 < pow256(i) <= pow256(j),
    decreases j,
{
    if j > 0 {
        lemma_pow256_monotonic(if i == j { 0 } else { i }, (j - 1) as nat);
    }
}

/// A spelling of `k` bytes stays below `256^k`, and a non-empty one without a
/// leading zero is not zero.
pub proof fn lemma_be_value_bounds(bytes: Seq<u8>)
    ensures
        be_value(bytes) < pow256(bytes.len()),
        bytes.len() > 0 && bytes[0] != 0 ==> be_value(bytes) > 0,
    decreases bytes.len(),
{
    if bytes.len() > 0 {
        lemma_be_value_bounds(bytes.drop_last());
    }
}

/// The shortest spelling has no leading zero, and is empty only for zero.
pub proof fn lemma_be_bytes_minimal(n: nat)
    ensures
        minimal(be_bytes(n)),
        n > 0 ==> be_bytes(n).len() > 0,
    decreases n,
{
    if n > 0 {
        lemma_be_bytes_minimal(n / 256);
    }
}

/// The shortest spelling of a number below `256^k` has at most `k` bytes.
pub proof fn lemma_be_bytes_len(n: nat, k: nat)
    requires
        n < pow256(k),
    ensures
        be_bytes(n).len() <= k,
    decreases k,
{
    if n > 0 {
        lemma_be_bytes_len(n / 256, (k - 1) as nat);
    }
}

/// Reading back the shortest spelling of `n` gives `n`.
pub proof fn lemma_value_of_be_bytes(n: nat)
    ensures
        be_value(be_bytes(n)) == n,
    decreases n,
{
    if n > 0 {
        lemma_value_of_be_bytes(n / 256);
        assert(be_bytes(n).drop_last() =~= be_bytes(n / 256));
    }
}

/// A string without a leading zero is the shortest spelling of its value.
pub proof fn lemma_be_bytes_of_value(bytes: Seq<u8>)
    requires
        minimal(bytes),
    ensures
        be_bytes(be_value(bytes)) == bytes,
    decreases bytes.len(),
{
    if bytes.len() > 0 {
        let init = bytes.drop_last();
        lemma_be_bytes_of_value(init);
        lemma_be_value_bounds(init);
    }
}

/// A number below `256^k` has a shortest spelling of at most `k` bytes,
/// without a leading zero, that reads back as the number.
pub proof fn lemma_spelling(n: nat, k: nat)
    requires
        n < pow256(k),
    ensures
        be_bytes(n).len() <= k,
        minimal(be_bytes(n)),
        be_value(be_bytes(n)) == n,
{
    lemma_be_bytes_len(n, k);
    lemma_be_bytes_minimal(n);
    lemma_value_of_be_bytes(n);
}

/// A string of at most `k` bytes without a leading zero is the shortest
/// spelling of its value, and that value is below `256^k`.
pub proof fn lemma_reading(bytes: Seq<u8>, k: nat)
    requires
        bytes.len() <= k,
        minimal(bytes),
    ensures
        be_bytes(be_value(bytes)) == bytes,
        be_value(bytes) < pow256(k),
{
    lemma_be_bytes_of_value(bytes);
    lemma_be_value_bounds(bytes);
    lemma_pow256_monotonic(bytes.len(), k);
}

/// Leading zero bytes do not change the value.
pub proof fn lemma_be_value_skips_zeros(bytes: Seq<u8>, zeros: nat)
    requires
        zeros <= bytes.len(),
        forall|k: int| 0 <= k < zeros ==> bytes[k] == 0,
    ensures
        be_value(bytes) == be_value(bytes.skip(zeros as int)),
    decreases bytes.len(),
{
    if zeros == bytes.len() {
        lemma_be_value_zero(bytes);
    } else {
        let init = bytes.drop_last();
        lemma_be_value_skips_zeros(init, zeros);
        assert(bytes.skip(zeros as int).drop_last() =~= init.skip(zeros as int));
    }
}

/// A string of zero bytes spells zero.
proof fn lemma_be_value_zero(bytes: Seq<u8>)
    requires
        forall|k: int| 0 <= k < bytes.len() ==> bytes[k] == 0,
    ensures
        be_value(bytes) == 0,
    decreases bytes.len(),
{
    if bytes.len() > 0 {
        lemma_be_value_zero(bytes.drop_last());
    }
}

/// The shortest big-endian spelling of `x`.
pub fn u64_to_be(x: u64) -> (out: Vec<u8>)
    ensures
        out@ == be_bytes(x as nat),
    decreases x,
{
    if x == 0 {
        Vec::new()
    } else {
        let mut out = u64_to_be(x / 256);
        out.push((x % 256) as u8);
        out
    }
}

/// The value of a big-endian string of at most eight bytes; `None` for a
/// longer one.
pub fn u64_from_be(data: &[u8]) -> (value: Option<u64>)
    ensures
        match value {
            Some(v) => data@.len() <= 8 && v == be_value(data@),
            None => data@.len() > 8,
        },
{
    if data.len() > 8 {
        return None;
    }
    let mut value: u64 = 0;
    let mut i: usize = 0;
    while i < data.len()
        invariant
            i <= data@.len() <= 8,
            value == be_value(data@.take(i as int)),
        decreases data@.len() - i,
    {
        proof {
            lemma_be_value_bounds(data@.take(i as int));
            lemma_pow256_monotonic(i as nat, 7);
            lemma_pow256_values();
            assert(data@.take(i + 1).drop_last() =~= data@.take(i as int));
        }
        value = value * 256 + data[i] as u64;
        i += 1;
    }
    assert(data@.take(i as int) =~= data@);
    Some(value)
}

/// An unsigned 256-bit integer, held as its 32 big-endian bytes.
#[derive(Clone, Copy, Debug, PartialEq, Eq, Hash)]
pub struct U256(pub [u8; 32]);

impl View for U256 {
    type V = nat;

    open spec fn view(&self) -> nat {
        be_value(self.0@)
    }
}

impl U256 {
    /// The integer zero.
    pub fn zero() -> (out: U256)
        ensures
            out@ == 0,
    {
        let out = U256([0u8; 32]);
        proof {
            lemma_be_value_zero(out.0@);
        }
        out
    }

    /// The integer `value`.
    pub fn from_u64(value: u64) -> (out: U256)
        ensures
            out@ == value,
    {
        let digits = u64_to_be(value);
        proof {
            lemma_pow256_values();
            lemma_be_bytes_len(value as nat, 8);
            lemma_value_of_be_bytes(value as nat);
        }
        U256::from_be_slice(digits.as_slice()).unwrap()
    }

    /// The integer whose 32 big-endian bytes are `bytes`.
    pub fn from_be_bytes(bytes: [u8; 32]) -> (out: U256)
        ensures
            out.0 == bytes,
    {
        U256(bytes)
    }

    /// The 32 big-endian bytes of the integer.
    pub fn to_be_bytes(&self) -> (bytes: [u8; 32])
        ensures
            bytes == self.0,
    {
        self.0
    }

    /// The integer that a big-endian string of at most 32 bytes spells;
    /// `None` for a longer one.
    pub fn from_be_slice(data: &[u8]) -> (out: Option<U256>)
        ensures
            match out {
                Some(value) => data@.len() <= 32 && value@ == be_value(data@),
                None => data@.len() > 32,
            },
    {
        if data.len() > 32 {
            return None;
        }
        let pad: usize = 32 - data.len();
        let mut bytes = [0u8; 32];
        let mut i: usize = 0;
        while i < data.len()
            invariant
                i <= data@.len() <= 32,
                pad == 32 - data@.len(),
                forall|k: int| 0 <= k < pad ==> bytes@[k] == 0,
                forall|k: int| 0 <= k < i ==> bytes@[pad + k] == data@[k],
            decreases data@.len() - i,
        {
            bytes[pad + i] = data[i];
            i += 1;
        }
        proof {
            lemma_be_value_skips_zeros(bytes@, pad as nat);
            assert(bytes@.skip(pad as int) =~= data@);
        }
        Some(U256(bytes))
    }

    /// The shortest big-endian spelling of the integer.
    pub fn to_minimal_be(&self) -> (out: Vec<u8>)
        ensures
            out@ == be_bytes(self@),
    {
        let mut zeros: usize = 0;
        while zeros < 32 && self.0[zeros] == 0
            invariant
                zeros <= 32,
                forall|k: int| 0 <= k < zeros ==> self.0@[k] == 0,
            decreases 32 - zeros,
        {
            zeros += 1;
        }
        let tail = slice_subrange(self.0.as_slice(), zeros, 32);
        proof {
            lemma_be_value_skips_zeros(self.0@, zeros as nat);
            lemma_be_bytes_of_value(tail@);
        }
        slice_to_vec(tail)
    }
}

} // verus!
