//! The digests, message authentication codes and the block cipher that the
//! protocol is built on. Each is computed by the crate of its name, and each
//! result is a fixed function of the bytes that went in.

use des::cipher::{BlockEncrypt, KeyInit};
use hmac::Mac;
use md4::Digest;
use vstd::prelude::*;

verus! {

/// The MD4 digest of bytes.
pub uninterp spec fn md4_of(data: Seq<u8>) -> Seq<u8>;

/// The SHA-1 digest of bytes.
pub uninterp spec fn sha1_of(data: Seq<u8>) -> Seq<u8>;

/// The SHA-256 digest of bytes.
pub uninterp spec fn sha256_of(data: Seq<u8>) -> Seq<u8>;

/// The HMAC-SHA-1 tag of bytes under a key.
pub uninterp spec fn hmac_sha1_of(key: Seq<u8>, data: Seq<u8>) -> Seq<u8>;

/// The HMAC-SHA-256 tag of bytes under a key.
pub uninterp spec fn hmac_sha256_of(key: Seq<u8>, data: Seq<u8>) -> Seq<u8>;

/// One block under the DES cipher.
pub uninterp spec fn des_of(key: Seq<u8>, block: Seq<u8>) -> Seq<u8>;

/// `md4::Md4::digest`: sixteen bytes that depend on `data` alone.
#[verifier::external_body]
pub(crate) fn md4_digest(data: &[u8]) -> (r: [u8; 16])
    ensures
        r@ == md4_of(data@),
{
    md4::Md4::digest(data).into()
}

/// `sha1::Sha1::digest`: twenty bytes that depend on `data` alone.
#[verifier::external_body]
pub(crate) fn sha1_digest(data: &[u8]) -> (r: [u8; 20])
    ensures
        r@ == sha1_of(data@),
{
    sha1::Sha1::digest(data).into()
}

/// `sha2::Sha256::digest`: thirty-two bytes that depend on `data` alone.
#[verifier::external_body]
pub(crate) fn sha256_digest(data: &[u8]) -> (r: [u8; 32])
    ensures
        r@ == sha256_of(data@),
{
    sha2::Sha256::digest(data).into()
}

/// `hmac::Hmac<sha1::Sha1>`, which takes a key of any length: twenty bytes
/// that depend on `key` and `data` alone.
#[verifier::external_body]
pub(crate) fn hmac_sha1(key: &[u8], data: &[u8]) -> (r: [u8; 20])
    ensures
        r@ == hmac_sha1_of(key@, data@),
{
    let mut mac = <hmac::Hmac<sha1::Sha1> as Mac>::new_from_slice(key).unwrap();
    mac.update(data);
    mac.finalize().into_bytes().into()
}

/// `hmac::Hmac<sha2::Sha256>`, which takes a key of any length: thirty-two
/// bytes that depend on `key` and `data` alone.
#[verifier::external_body]
pub(crate) fn hmac_sha256(key: &[u8], data: &[u8]) -> (r: [u8; 32])
    ensures
        r@ == hmac_sha256_of(key@, data@),
{
    let mut mac = <hmac::Hmac<sha2::Sha256> as Mac>::new_from_slice(key).unwrap();
    mac.update(data);
    mac.finalize().into_bytes().into()
}

/// `des::Des::encrypt_block` under an eight-byte key: eight bytes that depend
/// on `key` and `block` alone.
#[verifier::external_body]
pub(crate) fn des_encrypt(key: &[u8; 8], block: &[u8; 8]) -> (r: [u8; 8])
    ensures
        r@ == des_of(key@, block@),
{
    let cipher = des::Des::new(key.into());
    let mut out = (*block).into();
    cipher.encrypt_block(&mut out);
    out.into()
}

/// The first eight bytes of a SHA-1 digest.
pub fn first8(digest: &[u8; 20]) -> (r: [u8; 8])
    ensures
        r@ == digest@.take(8),
{
    let r: [u8; 8] = [
        digest[0],
        digest[1],
        digest[2],
        digest[3],
        digest[4],
        digest[5],
        digest[6],
        digest[7],
    ];
    proof {
        assert(r@ =~= digest@.take(8));
    }
    r
}

/// The first sixteen bytes of a SHA-1 digest.
pub fn first16(digest: &[u8; 20]) -> (r: [u8; 16])
    ensures
        r@ == digest@.take(16),
{
    let mut r: [u8; 16] = [0u8; 16];
    let mut i: usize = 0;
    while i < 16
        invariant
            i <= 16,
            forall|j: int| 0 <= j < i ==> r@[j] == digest@[j],
        decreases 16 - i,
    {
        r[i] = digest[i];
        i += 1;
    }
    proof {
        assert(r@ =~= digest@.take(16));
    }
    r
}

/// `n` zero bytes.
pub open spec fn zeros(n: nat) -> Seq<u8> {
    Seq::new(n, |i: int| 0u8)
}

/// A SHA-1 digest followed by zeros, in thirty-two bytes.
pub fn pad32(digest: &[u8; 20]) -> (r: [u8; 32])
    ensures
        r@ == digest@ + zeros(12),
{
    let mut r: [u8; 32] = [0u8; 32];
    let mut i: usize = 0;
    while i < 20
        invariant
            i <= 20,
            forall|j: int| 0 <= j < i ==> r@[j] == digest@[j],
            forall|j: int| i <= j < 32 ==> r@[j] == 0,
        decreases 20 - i,
    {
        r[i] = digest[i];
        i += 1;
    }
    proof {
        assert(r@ =~= digest@ + zeros(12));
    }
    r
}

} // verus!
