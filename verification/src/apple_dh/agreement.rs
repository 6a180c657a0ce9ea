//! What the client's message holds.

use vstd::prelude::*;

use super::{
    credential_blob, credential_half, dh_key, dh_message, ecb_enciphered, power_mod, DhParams,
};
use crate::crypto::{aes128_enciphered, md5_of};
use crate::wire::{be_bytes, be_nat, lemma_be_bytes};

verus! {

/// The message starts with the credentials, block by block enciphered under the
/// digest of the shared secret, and ends with the client's public number. Both
/// numbers take as many bytes as the modulus.
pub proof fn lemma_message_layout(
    username: Seq<char>,
    password: Seq<char>,
    params: DhParams,
    private: nat,
    noise: Seq<u8>,
    k: int,
    i: int,
)
    requires
        noise.len() == 128,
        0 <= k < 8,
        0 <= i < 16,
        be_nat(params.prime@) > 0,
    ensures
        ({
            let m = dh_message(username, password, params, private, noise);
            let n = params.prime@.len();
            let prime = be_nat(params.prime@);
            let secret = power_mod(be_nat(params.server_public@), private, prime);
            let public = power_mod(params.generator as nat, private, prime);
            let blob = credential_blob(username, password, noise);
            &&& blob.len() == 128
            &&& m.len() == 128 + n
            &&& m[16 * k + i] == aes128_enciphered(
                md5_of(be_bytes(secret, n)),
                blob.subrange(16 * k, 16 * k + 16),
            )[i]
            &&& m.skip(128) == be_bytes(public, n)
        }),
{
    let m = dh_message(username, password, params, private, noise);
    let n = params.prime@.len();
    let public = power_mod(params.generator as nat, private, be_nat(params.prime@));
    lemma_be_bytes(public, n);
    let key = dh_key(params.prime@, params.server_public@, private);
    let hidden = ecb_enciphered(key, credential_blob(username, password, noise));
    assert((16 * k + i) / 16 == k && (16 * k + i) % 16 == i);
    assert(m[16 * k + i] == hidden[16 * k + i]);
    assert(m.skip(128) =~= be_bytes(public, n));
}

/// A credential is found again in its half of the message: at most 63 bytes of
/// it, and a zero behind them; noise fills the rest.
pub proof fn lemma_credential_is_found(text: Seq<u8>, noise: Seq<u8>, kept: int)
    requires
        noise.len() == 64,
        text.len() <= 63 ==> kept == text.len(),
        text.len() > 63 ==> kept == 63,
    ensures
        credential_half(text, noise).len() == 64,
        credential_half(text, noise).take(kept) == text.take(kept),
        credential_half(text, noise)[kept] == 0,
        credential_half(text, noise).skip(kept + 1) == noise.skip(kept + 1),
{
    let half = credential_half(text, noise);
    assert(half.take(kept) =~= text.take(kept));
    assert(half.skip(kept + 1) =~= noise.skip(kept + 1));
}

} // verus!
