//! The three digest functions the codec relies on.
//!
//! The digests themselves are computed by `tiny_keccak` and
//! `sp_crypto_hashing`; nothing about their bits is proved here. What the
//! contracts fix is which function is applied to which bytes.

use vstd::prelude::*;

verus! {

/// `tiny_keccak::Keccak`, the sponge state of one hasher, carried through as
/// an opaque value.
#[verifier::external_type_specification]
#[verifier::external_body]
pub struct ExKeccak(tiny_keccak::Keccak);

/// All bytes a hasher has absorbed since it was made, in order.
pub uninterp spec fn absorbed(hasher: tiny_keccak::Keccak) -> Seq<u8>;

/// The security level, in bits, that a hasher was made with.
pub uninterp spec fn security_bits(hasher: tiny_keccak::Keccak) -> nat;

/// The first `len` bytes that Keccak as submitted to the SHA-3 competition
/// (padding byte `0x01`) squeezes at security level `bits` after absorbing
/// `input`.
pub uninterp spec fn keccak_output(bits: nat, input: Seq<u8>, len: nat) -> Seq<u8>;

/// The SHA-256 digest of `data`.
pub uninterp spec fn sha2_256_digest(data: Seq<u8>) -> Seq<u8>;

/// The Keccak-256 digest of `data`.
pub open spec fn keccak256_digest(data: Seq<u8>) -> Seq<u8> {
    keccak_output(256, data, 32)
}

/// The Keccak-512 digest of `data`.
pub open spec fn keccak512_digest(data: Seq<u8>) -> Seq<u8> {
    keccak_output(512, data, 64)
}

/// `tiny_keccak::Keccak::v256` returns a fresh hasher of security level 256
/// that has absorbed nothing.
pub assume_specification[ tiny_keccak::Keccak::v256 ]() -> (hasher: tiny_keccak::Keccak)
    ensures
        absorbed(hasher) == Seq::<u8>::empty(),
        security_bits(hasher) == 256,
;

/// `tiny_keccak::Keccak::v512` returns a fresh hasher of security level 512
/// that has absorbed nothing.
pub assume_specification[ tiny_keccak::Keccak::v512 ]() -> (hasher: tiny_keccak::Keccak)
    ensures
        absorbed(hasher) == Seq::<u8>::empty(),
        security_bits(hasher) == 512,
;

/// `tiny_keccak::Hasher::update` on a `Keccak`: the input is appended to what
/// the hasher has absorbed, and its security level stays.
#[verifier::external_body]
fn keccak_update(hasher: &mut tiny_keccak::Keccak, input: &[u8])
    ensures
        absorbed(*final(hasher)) == absorbed(*old(hasher)) + input@,
        security_bits(*final(hasher)) == security_bits(*old(hasher)),
{
    tiny_keccak::Hasher::update(hasher, input)
}

/// `tiny_keccak::Hasher::finalize` on a `Keccak`: the whole of `output` is
/// overwritten with the bytes squeezed from what the hasher absorbed.
#[verifier::external_body]
fn keccak_finalize<const N: usize>(hasher: tiny_keccak::Keccak, output: &mut [u8; N])
    ensures
        final(output)@ == keccak_output(security_bits(hasher), absorbed(hasher), N as nat),
{
    tiny_keccak::Hasher::finalize(hasher, output)
}

/// `sp_crypto_hashing::sha2_256` returns the SHA-256 digest of its input.
pub assume_specification[ sp_crypto_hashing::sha2_256 ](data: &[u8]) -> (digest: [u8; 32])
    ensures
        digest@ == sha2_256_digest(data@),
;

/// SHA-256 of `data`.
pub fn sha256(data: &[u8]) -> (digest: [u8; 32])
    ensures
        digest@ == sha2_256_digest(data@),
{
    sp_crypto_hashing::sha2_256(data)
}

/// Keccak-256 of `data`, with the padding of the Keccak submission and not
/// the one that SHA-3 was standardised with.
pub fn keccak256(data: &[u8]) -> (digest: [u8; 32])
    ensures
        digest@ == keccak256_digest(data@),
{
    let mut keccak = tiny_keccak::Keccak::v256();
    keccak_update(&mut keccak, data);
    let mut output = [0u8; 32];
    keccak_finalize(keccak, &mut output);
    output
}

/// Keccak-512 of `data`, same family and padding as [`keccak256`].
pub fn keccak512(data: &[u8]) -> (digest: [u8; 64])
    ensures
        digest@ == keccak512_digest(data@),
{
    let mut keccak = tiny_keccak::Keccak::v512();
    keccak_update(&mut keccak, data);
    let mut output = [0u8; 64];
    keccak_finalize(keccak, &mut output);
    output
}

} // verus!
