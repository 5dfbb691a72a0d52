use vstd::prelude::*;
use crypto::digest::Digest;
use crypto::mac::Mac;
use crypto::symmetriccipher::BlockEncryptor;

verus! {

/// The AES-128 encryption of one 16-byte block under a 16-byte key.
pub uninterp spec fn aes128_encrypt(key: Seq<u8>, block: Seq<u8>) -> Seq<u8>;

/// The MD5 digest of a byte sequence.
pub uninterp spec fn md5(data: Seq<u8>) -> Seq<u8>;

/// HMAC-MD5 of a message under a key.
pub uninterp spec fn hmac_md5(key: Seq<u8>, data: Seq<u8>) -> Seq<u8>;

/// Calls `crypto::aessafe::AesSafe128Encryptor::new(key)` and its
/// `BlockEncryptor::encrypt_block` on one block. Claimed: the output is the
/// named AES-128 block encryption of exactly this key and block (the
/// encryptor is a pure bitsliced implementation with no other input).
#[verifier::external_body]
pub(crate) fn aes128_encrypt_block(key: &[u8; 16], block: &[u8; 16]) -> (out: [u8; 16])
    ensures
        out@ == aes128_encrypt(key@, block@),
{
    let mut out = [0u8; 16];
    crypto::aessafe::AesSafe128Encryptor::new(key).encrypt_block(block, &mut out);
    out
}

/// Calls `crypto::md5::Md5::new()`, `Digest::input` once with `data`, and
/// `Digest::result`. Claimed: the sixteen output bytes are the named MD5 of
/// exactly `data`.
#[verifier::external_body]
pub(crate) fn md5_digest(data: &[u8]) -> (out: [u8; 16])
    ensures
        out@ == md5(data@),
{
    let mut digest = crypto::md5::Md5::new();
    let mut out = [0u8; 16];
    digest.input(data);
    digest.result(&mut out);
    out
}

/// Calls `crypto::hmac::Hmac::new(crypto::md5::Md5::new(), key)`,
/// `Mac::input` once with `data`, and `Mac::raw_result`. Claimed: the sixteen
/// output bytes are the named HMAC-MD5 of exactly this key and message.
#[verifier::external_body]
pub(crate) fn hmac_md5_digest(key: &[u8], data: &[u8]) -> (out: [u8; 16])
    ensures
        out@ == hmac_md5(key@, data@),
{
    let mut mac = crypto::hmac::Hmac::new(crypto::md5::Md5::new(), key);
    let mut out = [0u8; 16];
    mac.input(data);
    mac.raw_result(&mut out);
    out
}

} // verus!
