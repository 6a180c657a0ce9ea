//! Ciphers and digests.
//!
//! Every function here hands its arguments to a cryptography crate. What a
//! cipher or a digest computes is left to a name; the facts stated of it are
//! the length of the result and that deciphering undoes enciphering.

use aes::cipher::{Block, BlockDecrypt, BlockEncrypt, KeyInit};
use aes::{Aes128, Aes256};
use des::Des;
use hmac::{Hmac, Mac};
use sha1::Sha1;
use sha2::{Digest, Sha256, Sha512};
use vstd::prelude::*;

verus! {

/// AES-128 of one block.
pub uninterp spec fn aes128_enciphered(key: Seq<u8>, block: Seq<u8>) -> Seq<u8>;

/// The inverse of AES-128 on one block.
pub uninterp spec fn aes128_deciphered(key: Seq<u8>, block: Seq<u8>) -> Seq<u8>;

/// AES-256 of one block.
pub uninterp spec fn aes256_enciphered(key: Seq<u8>, block: Seq<u8>) -> Seq<u8>;

/// DES of one block.
pub uninterp spec fn des_enciphered(key: Seq<u8>, block: Seq<u8>) -> Seq<u8>;

/// SHA-1 of `data`.
pub uninterp spec fn sha1_of(data: Seq<u8>) -> Seq<u8>;

/// SHA-256 of `data`.
pub uninterp spec fn sha256_of(data: Seq<u8>) -> Seq<u8>;

/// SHA-512 of `data`.
pub uninterp spec fn sha512_of(data: Seq<u8>) -> Seq<u8>;

/// MD5 of `data`.
pub uninterp spec fn md5_of(data: Seq<u8>) -> Seq<u8>;

/// HMAC-SHA1 of `data` under `key`.
pub uninterp spec fn hmac_sha1_of(key: Seq<u8>, data: Seq<u8>) -> Seq<u8>;

/// `len` bytes of PBKDF2 with HMAC-SHA512.
pub uninterp spec fn pbkdf2_sha512_of(
    password: Seq<u8>,
    salt: Seq<u8>,
    rounds: u32,
    len: nat,
) -> Seq<u8>;

/// aes's `Aes128::encrypt_block`: a block of sixteen bytes that depends on key
/// and input alone, and that deciphers to the input.
#[verifier::external_body]
pub(crate) fn aes128_encrypt_block(key: &[u8], block: &[u8]) -> (r: Vec<u8>)
    requires
        key@.len() == 16,
        block@.len() == 16,
    ensures
        r@ == aes128_enciphered(key@, block@),
        r@.len() == 16,
        aes128_deciphered(key@, r@) == block@,
{
    let cipher = Aes128::new_from_slice(key).expect("16-byte key");
    let mut b = Block::<Aes128>::clone_from_slice(block);
    cipher.encrypt_block(&mut b);
    b.to_vec()
}

/// aes's `Aes128::decrypt_block`: a block of sixteen bytes that depends on key
/// and input alone, and that enciphers to the input.
#[verifier::external_body]
pub(crate) fn aes128_decrypt_block(key: &[u8], block: &[u8]) -> (r: Vec<u8>)
    requires
        key@.len() == 16,
        block@.len() == 16,
    ensures
        r@ == aes128_deciphered(key@, block@),
        r@.len() == 16,
        aes128_enciphered(key@, r@) == block@,
{
    let cipher = Aes128::new_from_slice(key).expect("16-byte key");
    let mut b = Block::<Aes128>::clone_from_slice(block);
    cipher.decrypt_block(&mut b);
    b.to_vec()
}

/// aes's `Aes256::encrypt_block`: a block of sixteen bytes that depends on key
/// and input alone.
#[verifier::external_body]
pub(crate) fn aes256_encrypt_block(key: &[u8], block: &[u8]) -> (r: Vec<u8>)
    requires
        key@.len() == 32,
        block@.len() == 16,
    ensures
        r@ == aes256_enciphered(key@, block@),
        r@.len() == 16,
{
    let cipher = Aes256::new_from_slice(key).expect("32-byte key");
    let mut b = Block::<Aes256>::clone_from_slice(block);
    cipher.encrypt_block(&mut b);
    b.to_vec()
}

/// des's `Des::encrypt_block`: a block of eight bytes that depends on key and
/// input alone.
#[verifier::external_body]
pub(crate) fn des_encrypt_block(key: &[u8], block: &[u8]) -> (r: Vec<u8>)
    requires
        key@.len() == 8,
        block@.len() == 8,
    ensures
        r@ == des_enciphered(key@, block@),
        r@.len() == 8,
{
    let cipher = Des::new_from_slice(key).expect("8-byte key");
    let mut b = Block::<Des>::clone_from_slice(block);
    cipher.encrypt_block(&mut b);
    b.to_vec()
}

/// sha1's `Sha1::digest`: twenty bytes that depend on the input alone.
#[verifier::external_body]
pub(crate) fn sha1_digest(data: &[u8]) -> (r: Vec<u8>)
    ensures
        r@ == sha1_of(data@),
        r@.len() == 20,
{
    Sha1::digest(data).to_vec()
}

/// sha2's `Sha256::digest`: thirty-two bytes that depend on the input alone.
#[verifier::external_body]
pub(crate) fn sha256_digest(data: &[u8]) -> (r: Vec<u8>)
    ensures
        r@ == sha256_of(data@),
        r@.len() == 32,
{
    Sha256::digest(data).to_vec()
}

/// sha2's `Sha512::digest`: sixty-four bytes that depend on the input alone.
#[verifier::external_body]
pub(crate) fn sha512_digest(data: &[u8]) -> (r: Vec<u8>)
    ensures
        r@ == sha512_of(data@),
        r@.len() == 64,
{
    Sha512::digest(data).to_vec()
}

/// md5's `compute`: sixteen bytes that depend on the input alone.
#[verifier::external_body]
pub(crate) fn md5_digest(data: &[u8]) -> (r: Vec<u8>)
    ensures
        r@ == md5_of(data@),
        r@.len() == 16,
{
    md5::compute(data).0.to_vec()
}

/// hmac's `Hmac` over SHA-1: twenty bytes that depend on key and input alone.
#[verifier::external_body]
pub(crate) fn hmac_sha1(key: &[u8], data: &[u8]) -> (r: Vec<u8>)
    ensures
        r@ == hmac_sha1_of(key@, data@),
        r@.len() == 20,
{
    let mut mac = <Hmac<Sha1> as Mac>::new_from_slice(key).expect("any key length");
    mac.update(data);
    mac.finalize().into_bytes().to_vec()
}

/// pbkdf2's `pbkdf2_hmac` with SHA-512: `len` bytes that depend on password,
/// salt and round count alone.
#[verifier::external_body]
pub(crate) fn pbkdf2_sha512(password: &[u8], salt: &[u8], rounds: u32, len: usize) -> (r: Vec<u8>)
    ensures
        r@ == pbkdf2_sha512_of(password@, salt@, rounds, len as nat),
        r@.len() == len,
{
    let mut out = vec![0u8; len];
    pbkdf2::pbkdf2_hmac::<Sha512>(password, salt, rounds, &mut out);
    out
}

} // verus!
