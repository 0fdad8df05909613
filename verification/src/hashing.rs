//! Streaming content hashing. The digest itself comes from the sha2 crate
//! behind a small trusted surface: the hasher is modelled by the exact byte
//! sequence it has absorbed, and the finished digest is named as a function
//! of that sequence alone.

use vstd::prelude::*;
use sha2::Digest;

verus! {

/// A streaming SHA-256 state. Opaque; modelled by [`hasher_input`], the
/// sequence of bytes absorbed so far.
#[verifier::external_body]
pub struct Sha256Hasher {
    inner: sha2::Sha256,
}

/// The bytes a hasher has absorbed, in order.
pub uninterp spec fn hasher_input(h: Sha256Hasher) -> Seq<u8>;

/// The 32-byte SHA-256 digest of `input`; a function of the bytes alone.
pub uninterp spec fn sha256_of(input: Seq<u8>) -> Seq<u8>;

/// Relies on sha2::Sha256::new: a fresh hasher has absorbed nothing.
#[verifier::external_body]
pub fn hasher_new() -> (h: Sha256Hasher)
    ensures
        hasher_input(h) == Seq::<u8>::empty(),
{
    Sha256Hasher { inner: sha2::Sha256::new() }
}

/// Relies on sha2::Sha256::update: absorbs exactly the given bytes, in order.
#[verifier::external_body]
pub fn hasher_update(h: &mut Sha256Hasher, data: &[u8])
    ensures
        hasher_input(*final(h)) == hasher_input(*old(h)) + data@,
{
    h.inner.update(data);
}

/// Relies on sha2::Sha256::finalize: the 32-byte digest is a function of the
/// absorbed bytes alone.
#[verifier::external_body]
pub fn hasher_finalize(h: Sha256Hasher) -> (r: Vec<u8>)
    ensures
        r@ == sha256_of(hasher_input(h)),
        r@.len() == 32,
{
    h.inner.finalize().to_vec()
}

/// `x` as four big-endian bytes.
pub open spec fn be32(x: u32) -> Seq<u8> {
    seq![
        ((x >> 24) & 0xff) as u8,
        ((x >> 16) & 0xff) as u8,
        ((x >> 8) & 0xff) as u8,
        (x & 0xff) as u8,
    ]
}

/// `x` as eight big-endian bytes.
pub open spec fn be64(x: u64) -> Seq<u8> {
    seq![
        ((x >> 56) & 0xff) as u8,
        ((x >> 48) & 0xff) as u8,
        ((x >> 40) & 0xff) as u8,
        ((x >> 32) & 0xff) as u8,
        ((x >> 24) & 0xff) as u8,
        ((x >> 16) & 0xff) as u8,
        ((x >> 8) & 0xff) as u8,
        (x & 0xff) as u8,
    ]
}

/// The big-endian u64 read from the first eight bytes of `s`.
pub open spec fn be_u64_of(s: Seq<u8>) -> u64 {
    (
        ((s[0] as u64) << 56) | ((s[1] as u64) << 48) | ((s[2] as u64) << 40)
        | ((s[3] as u64) << 32) | ((s[4] as u64) << 24) | ((s[5] as u64) << 16)
        | ((s[6] as u64) << 8) | (s[7] as u64)
    ) as u64
}

/// The content identity derived from `input`: the leading eight bytes of its
/// SHA-256 digest, read big-endian.
pub open spec fn digest64(input: Seq<u8>) -> u64 {
    be_u64_of(sha256_of(input).subrange(0, 8))
}

/// Absorbs `x` as four big-endian bytes.
pub fn hasher_update_u32_be(h: &mut Sha256Hasher, x: u32)
    ensures
        hasher_input(*final(h)) == hasher_input(*old(h)) + be32(x),
{
    let mut bytes: Vec<u8> = Vec::new();
    bytes.push(((x >> 24) & 0xff) as u8);
    bytes.push(((x >> 16) & 0xff) as u8);
    bytes.push(((x >> 8) & 0xff) as u8);
    bytes.push((x & 0xff) as u8);
    proof {
        assert(bytes@ =~= be32(x));
    }
    hasher_update(h, bytes.as_slice());
}

/// Absorbs `x` as eight big-endian bytes.
pub fn hasher_update_u64_be(h: &mut Sha256Hasher, x: u64)
    ensures
        hasher_input(*final(h)) == hasher_input(*old(h)) + be64(x),
{
    let mut bytes: Vec<u8> = Vec::new();
    bytes.push(((x >> 56) & 0xff) as u8);
    bytes.push(((x >> 48) & 0xff) as u8);
    bytes.push(((x >> 40) & 0xff) as u8);
    bytes.push(((x >> 32) & 0xff) as u8);
    bytes.push(((x >> 24) & 0xff) as u8);
    bytes.push(((x >> 16) & 0xff) as u8);
    bytes.push(((x >> 8) & 0xff) as u8);
    bytes.push((x & 0xff) as u8);
    proof {
        assert(bytes@ =~= be64(x));
    }
    hasher_update(h, bytes.as_slice());
}

/// Finishes the digest and reads its leading eight bytes as a big-endian u64.
pub fn hasher_finish64(h: Sha256Hasher) -> (r: u64)
    ensures
        r == digest64(hasher_input(h)),
{
    let d = hasher_finalize(h);
    let r = ((d[0] as u64) << 56) | ((d[1] as u64) << 48) | ((d[2] as u64) << 40)
        | ((d[3] as u64) << 32) | ((d[4] as u64) << 24) | ((d[5] as u64) << 16)
        | ((d[6] as u64) << 8) | (d[7] as u64);
    proof {
        let p = d@.subrange(0, 8);
        assert(p[0] == d@[0] && p[1] == d@[1] && p[2] == d@[2] && p[3] == d@[3]
            && p[4] == d@[4] && p[5] == d@[5] && p[6] == d@[6] && p[7] == d@[7]);
    }
    r
}

} // verus!
