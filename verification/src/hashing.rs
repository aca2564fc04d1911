//! The random value a kitty is drawn from: a 128-bit Blake2 digest of the
//! SCALE encoding of the random seed, the account, the extrinsic index and the
//! block number.
use vstd::prelude::*;

verus! {

/// The little-endian bytes of `x`.
pub open spec fn le_bytes_u64(x: u64) -> Seq<u8> {
    Seq::new(8, |i: int| ((x >> ((8 * i) as u64)) & 0xff) as u8)
}

/// The little-endian bytes of `x`.
pub open spec fn le_bytes_u32(x: u32) -> Seq<u8> {
    Seq::new(4, |i: int| ((x >> ((8 * i) as u32)) & 0xff) as u8)
}

/// The SCALE encoding of an optional `u32`: a tag byte, then the value.
pub open spec fn option_u32_encoding(v: Option<u32>) -> Seq<u8> {
    match v {
        None => seq![0u8],
        Some(x) => seq![1u8] + le_bytes_u32(x),
    }
}

/// The SCALE encoding of the tuple `(seed, account, extrinsic_index,
/// block_number)`: the fields' encodings one after the other, a fixed-size
/// byte array as its bytes.
pub open spec fn payload_encoding(seed: Seq<u8>, account: u64, extrinsic_index: Option<u32>, block_number: u64) -> Seq<u8> {
    seed + le_bytes_u64(account) + option_u32_encoding(extrinsic_index) + le_bytes_u64(block_number)
}

/// The 128-bit Blake2 digest of `data`.
pub uninterp spec fn blake2_128_digest(data: Seq<u8>) -> Seq<u8>;

/// The random value drawn for `account` under the given chain context.
pub open spec fn spec_random_value(seed: Seq<u8>, account: u64, extrinsic_index: Option<u32>, block_number: u64) -> Seq<u8> {
    blake2_128_digest(payload_encoding(seed, account, extrinsic_index, block_number))
}

/// Calls `parity_scale_codec::Encode::encode` on the tuple
/// `(seed, account, extrinsic_index, block_number)`. Trusted to produce the
/// SCALE encoding that `payload_encoding` writes out: the 32 seed bytes, the
/// account as 8 little-endian bytes, the index as a tag byte 0 (none) or 1
/// followed by 4 little-endian bytes, and the block number as 8 little-endian
/// bytes.
#[verifier::external_body]
fn scale_encode_payload(seed: [u8; 32], account: u64, extrinsic_index: Option<u32>, block_number: u64) -> (bytes: Vec<u8>)
    ensures
        bytes@ == payload_encoding(seed@, account, extrinsic_index, block_number),
{
    parity_scale_codec::Encode::encode(&(seed, account, extrinsic_index, block_number))
}

/// Calls `sp_io::hashing::blake2_128`. Trusted to be a function of its input
/// alone, named `blake2_128_digest`; nothing else of the digest is claimed.
#[verifier::external_body]
fn blake2_128(data: &[u8]) -> (digest: [u8; 16])
    ensures
        digest@ == blake2_128_digest(data@),
{
    sp_io::hashing::blake2_128(data)
}

/// Draws the random value for `account`: the Blake2-128 digest of the SCALE
/// encoding of `(seed, account, extrinsic_index, block_number)`.
pub fn random_value(seed: [u8; 32], account: u64, extrinsic_index: Option<u32>, block_number: u64) -> (r: [u8; 16])
    ensures
        r@ == spec_random_value(seed@, account, extrinsic_index, block_number),
{
    let payload = scale_encode_payload(seed, account, extrinsic_index, block_number);
    blake2_128(payload.as_slice())
}

/// The number that the last four bytes of `r` spell, most significant first:
/// the low 32 bits of `r` read as a big-endian 128-bit number.
pub open spec fn low_u32_of_be(r: Seq<u8>) -> u32 {
    (r[12] * 0x100_0000 + r[13] * 0x1_0000 + r[14] * 0x100 + r[15]) as u32
}

/// The low 32 bits of `r` read as a big-endian 128-bit number.
pub fn low_u32_of_be_bytes(r: &[u8; 16]) -> (x: u32)
    ensures
        x == low_u32_of_be(r@),
{
    let b12 = r[12] as u32;
    let b13 = r[13] as u32;
    let b14 = r[14] as u32;
    let b15 = r[15] as u32;
    b12 * 0x100_0000 + b13 * 0x1_0000 + b14 * 0x100 + b15
}

} // verus!
