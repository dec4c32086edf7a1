//! Canonical serialization of tracked field values and reduction of the
//! concatenated byte stream to the 16-bit fingerprint.

use vstd::prelude::*;

verus! {

/// The decimal digits of `n`, most significant first, as ASCII bytes
/// (0x30 is the digit zero).
pub open spec fn dec_bytes(n: nat) -> Seq<u8>
    decreases n,
{
    if n < 10 {
        seq![(48 + n) as u8]
    } else {
        dec_bytes(n / 10).push((48 + n % 10) as u8)
    }
}

proof fn lemma_dec_bytes_len(n: nat)
    ensures
        dec_bytes(n).len() >= 1,
        n >= 10 ==> dec_bytes(n).len() >= 2,
    decreases n,
{
    if n >= 10 {
        lemma_dec_bytes_len(n / 10);
    }
}

/// The canonical serialization is injective: distinct values have
/// distinct byte sequences.
pub proof fn lemma_dec_bytes_injective(a: nat, b: nat)
    requires
        dec_bytes(a) == dec_bytes(b),
    ensures
        a == b,
    decreases a,
{
    if a < 10 && b < 10 {
        assert(dec_bytes(a)[0] == (48 + a) as u8);
        assert(dec_bytes(b)[0] == (48 + b) as u8);
    } else if a < 10 {
        lemma_dec_bytes_len(b);
        assert(dec_bytes(a).len() == 1);
    } else if b < 10 {
        lemma_dec_bytes_len(a);
        assert(dec_bytes(b).len() == 1);
    } else {
        assert(dec_bytes(a).last() == (48 + a % 10) as u8);
        assert(dec_bytes(b).last() == (48 + b % 10) as u8);
        assert(a % 10 == b % 10);
        assert(dec_bytes(a).drop_last() =~= dec_bytes(a / 10));
        assert(dec_bytes(b).drop_last() =~= dec_bytes(b / 10));
        lemma_dec_bytes_injective(a / 10, b / 10);
    }
}

/// The CRC-16/IBM-SDLC checksum of a byte stream. The reduction itself is
/// delegated to the checksum crate, so the value is named here rather than
/// written out.
pub uninterp spec fn crc16_ibm_sdlc(bytes: Seq<u8>) -> u16;

/// Canonical serialization of one tracked field value.
///
/// Relies on serde_json::to_string: a u64 value serializes to exactly its
/// decimal digits (serde_json's integer formatting), and serializing a
/// plain integer cannot fail, so the unwrap never panics.
#[verifier::external_body]
pub(crate) fn serialize_value(value: u64) -> (r: Vec<u8>)
    ensures
        r@ == dec_bytes(value as nat),
{
    serde_json::to_string(&value).unwrap().into_bytes()
}

/// Reduces a canonical byte stream to the fingerprint.
///
/// Relies on crc::Crc::<u16>::checksum, run with the CRC_16_IBM_SDLC
/// parameters from the checksum crate's catalog: the result is a pure
/// function of the input bytes (the constructor only tabulates the fixed
/// polynomial).
#[verifier::external_body]
pub(crate) fn crc16_checksum(bytes: &Vec<u8>) -> (r: u16)
    ensures
        r == crc16_ibm_sdlc(bytes@),
{
    crc::Crc::<u16>::new(&crc::CRC_16_IBM_SDLC).checksum(bytes.as_slice())
}

} // verus!
