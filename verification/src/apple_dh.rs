//! Apple Remote Desktop Diffie-Hellman authentication (RFB security type 30).
//!
//! The server sends a generator, a modulus and its public number. The client
//! answers with its credentials, enciphered with AES-128-ECB under the MD5
//! digest of the shared secret, and with its own public number.

pub mod agreement;

use vstd::arithmetic::power::pow;
use vstd::prelude::*;
use vstd::utf8::encode_utf8;

use crate::bignum::{drawn_below, mod_pow, pad_bigint, random_number};
use crate::crypto::{aes128_deciphered, aes128_encrypt_block, aes128_enciphered, md5_digest, md5_of};
use crate::entropy::{drawn, random_bytes};
use crate::error::{Failure, VncError};
use crate::text::{concat_text, decimal, decimal_text};
use crate::wire::{be16, be_bytes, be_nat, push_all, push_u16, slice, u16_at, u16_of};

verus! {

/// Longest modulus that is accepted, in bytes.
pub const MAX_KEY_LENGTH: usize = 4096;

/// Bytes of the credential message.
pub const CREDENTIAL_LEN: usize = 128;

/// Credentials for the Diffie-Hellman exchange.
pub struct AppleDhAuth {
    pub username: String,
    pub password: String,
}

/// The server's half of the exchange.
pub struct DhParams {
    pub generator: u16,
    /// The modulus, most significant byte first.
    pub prime: Vec<u8>,
    /// The server's public number, as long as the modulus.
    pub server_public: Vec<u8>,
}

/// The client's half of the exchange.
pub struct DhReply {
    /// What is sent: the enciphered credentials and the public number.
    pub message: Vec<u8>,
    /// The AES key that both sides derive from the shared secret.
    pub key: Vec<u8>,
}

/// The number of the `x`-th power of `base` modulo `modulus`.
pub open spec fn power_mod(base: nat, x: nat, modulus: nat) -> nat {
    (pow(base as int, x) % (modulus as int)) as nat
}

/// The 64 bytes that carry `text`: at most 63 bytes of it, a zero byte, and
/// noise up to the end.
pub open spec fn credential_half(text: Seq<u8>, noise: Seq<u8>) -> Seq<u8> {
    let kept: int = if text.len() < 63 {
        text.len() as int
    } else {
        63
    };
    Seq::new(
        64,
        |i: int|
            if i < kept {
                text[i]
            } else if i == kept {
                0u8
            } else {
                noise[i]
            },
    )
}

/// The credential message before it is enciphered.
pub open spec fn credential_blob(
    username: Seq<char>,
    password: Seq<char>,
    noise: Seq<u8>,
) -> Seq<u8> {
    credential_half(encode_utf8(username), noise.take(64)) + credential_half(
        encode_utf8(password),
        noise.skip(64),
    )
}

/// The `k`-th block of 16 bytes.
pub open spec fn block_of(data: Seq<u8>, k: int) -> Seq<u8> {
    data.subrange(16 * k, 16 * k + 16)
}

/// `data` with every block of 16 bytes enciphered on its own.
pub open spec fn ecb_enciphered(key: Seq<u8>, data: Seq<u8>) -> Seq<u8> {
    Seq::new(
        data.len(),
        |i: int| aes128_enciphered(key, block_of(data, i / 16))[i % 16],
    )
}

/// The key that both sides take from the shared secret.
pub open spec fn dh_key(prime: Seq<u8>, server_public: Seq<u8>, private: nat) -> Seq<u8> {
    md5_of(be_bytes(power_mod(be_nat(server_public), private, be_nat(prime)), prime.len()))
}

/// What the client sends for the private number `private`.
pub open spec fn dh_message(
    username: Seq<char>,
    password: Seq<char>,
    params: DhParams,
    private: nat,
    noise: Seq<u8>,
) -> Seq<u8> {
    ecb_enciphered(
        dh_key(params.prime@, params.server_public@, private),
        credential_blob(username, password, noise),
    ) + be_bytes(
        power_mod(params.generator as nat, private, be_nat(params.prime@)),
        params.prime@.len(),
    )
}

/// Both sides of the exchange arrive at the same secret: the client raises the
/// server's public number to its private one, the server the client's.
pub proof fn lemma_shared_secret_agrees(generator: nat, client: nat, server: nat, prime: nat)
    requires
        prime > 0,
    ensures
        power_mod(power_mod(generator, server, prime), client, prime) == power_mod(
            power_mod(generator, client, prime),
            server,
            prime,
        ),
{
    let g = generator as int;
    let p = prime as int;
    vstd::arithmetic::power::lemma_pow_mod_noop(pow(g, server), client, p);
    vstd::arithmetic::power::lemma_pow_mod_noop(pow(g, client), server, p);
    vstd::arithmetic::power::lemma_pow_multiplies(g, server, client);
    vstd::arithmetic::power::lemma_pow_multiplies(g, client, server);
    assert(server * client == client * server) by (nonlinear_arith);
    vstd::arithmetic::div_mod::lemma_mod_division_less_than_divisor(pow(g, server), p);
    vstd::arithmetic::div_mod::lemma_mod_division_less_than_divisor(pow(g, client), p);
}

/// The generator and the length of the modulus, out of the four bytes that
/// start the exchange.
pub fn parse_dh_header(header: &[u8]) -> (r: Result<(u16, usize), VncError>)
    requires
        header@.len() == 4,
    ensures
        r matches Ok((generator, len)) ==> generator == u16_of(header@, 0) && len == u16_of(
            header@,
            2,
        ) && 0 < len <= MAX_KEY_LENGTH,
        r matches Err(e) ==> !(0 < u16_of(header@, 2) <= MAX_KEY_LENGTH) && e@
            == Failure::AuthFailed(
            "Invalid Apple DH key length: "@ + decimal_text(u16_of(header@, 2) as nat),
        ),
{
    let len: u16 = u16_at(header, 2);
    if len == 0 || len as usize > MAX_KEY_LENGTH {
        return Err(
            VncError::AuthFailed(
                concat_text("Invalid Apple DH key length: ", decimal(len as u64).as_str()),
            ),
        );
    }
    Ok((u16_at(header, 0), len as usize))
}

/// Reads the four-byte security result that ends the exchange.
pub fn read_dh_result(status: u32) -> (r: Result<(), VncError>)
    ensures
        r is Ok <==> status == 0,
        r matches Err(e) ==> e@ == Failure::AuthFailed(
            "Apple DH authentication failed: status "@ + decimal_text(status as nat),
        ),
{
    if status != 0 {
        return Err(
            VncError::AuthFailed(
                concat_text(
                    "Apple DH authentication failed: status ",
                    decimal(status as u64).as_str(),
                ),
            ),
        );
    }
    Ok(())
}

fn push_credential_half(out: &mut Vec<u8>, text: &[u8], noise: &[u8])
    requires
        noise@.len() == 64,
    ensures
        final(out)@ == old(out)@ + credential_half(text@, noise@),
{
    let kept: usize = if text.len() < 63 {
        text.len()
    } else {
        63
    };
    push_all(out, slice(text, 0, kept));
    out.push(0);
    push_all(out, slice(noise, kept + 1, 64));
    assert(out@ =~= old(out)@ + credential_half(text@, noise@));
}

/// The 128-byte credential message: the username and the password, each cut to
/// 63 bytes, ended by a zero byte and filled up with noise.
pub fn build_credential_blob(username: &str, password: &str, noise: &[u8]) -> (r: Vec<u8>)
    requires
        noise@.len() == CREDENTIAL_LEN,
    ensures
        r@ == credential_blob(username@, password@, noise@),
        r@.len() == CREDENTIAL_LEN,
{
    let mut out: Vec<u8> = Vec::new();
    let first = slice(noise, 0, 64);
    let second = slice(noise, 64, 128);
    assert(first@ =~= noise@.take(64));
    assert(second@ =~= noise@.skip(64));
    push_credential_half(&mut out, username.as_bytes(), first);
    push_credential_half(&mut out, password.as_bytes(), second);
    assert(out@ =~= credential_blob(username@, password@, noise@));
    out
}

/// Enciphers whole blocks with AES-128-ECB. Deciphering any block of the result
/// gives the block of `data` at the same place.
pub fn encrypt_aes128_ecb(data: &[u8], key: &[u8]) -> (r: Vec<u8>)
    requires
        data@.len() % 16 == 0,
        key@.len() == 16,
    ensures
        r@ == ecb_enciphered(key@, data@),
        r@.len() == data@.len(),
        forall|k: int|
            0 <= k < data@.len() / 16 ==> #[trigger] aes128_deciphered(key@, block_of(r@, k))
                == block_of(data@, k),
{
    let mut out: Vec<u8> = Vec::new();
    let n: usize = data.len();
    let mut at: usize = 0;
    while at < n
        invariant
            n == data@.len(),
            n % 16 == 0,
            at % 16 == 0,
            at <= n,
            key@.len() == 16,
            out@.len() == at,
            forall|i: int|
                0 <= i < at ==> out@[i] == aes128_enciphered(key@, block_of(data@, i / 16))[i % 16],
            forall|k: int|
                0 <= k < at / 16 ==> #[trigger] aes128_deciphered(key@, block_of(out@, k))
                    == block_of(data@, k),
        decreases n - at,
    {
        let block = aes128_encrypt_block(key, slice(data, at, at + 16));
        let ghost before = out@;
        push_all(&mut out, &block);
        proof {
            let k = (at / 16) as int;
            assert(block_of(data@, k) =~= data@.subrange(at as int, at + 16));
            assert(block_of(out@, k) =~= block@);
            assert forall|j: int| 0 <= j < (at + 16) / 16 implies #[trigger] aes128_deciphered(
                key@,
                block_of(out@, j),
            ) == block_of(data@, j) by {
                if j < k {
                    assert(block_of(out@, j) =~= block_of(before, j));
                }
            }
        }
        at = at + 16;
    }
    assert(out@ =~= ecb_enciphered(key@, data@));
    out
}

impl AppleDhAuth {
    /// Credentials for the exchange.
    pub fn new(username: String, password: String) -> (r: Self)
        ensures
            r.username@ == username@,
            r.password@ == password@,
    {
        AppleDhAuth { username, password }
    }

    /// Answers the server with the private number and the noise given.
    pub fn respond(&self, params: &DhParams, private: &[u8], noise: &[u8]) -> (r: DhReply)
        requires
            be_nat(params.prime@) > 1,
            noise@.len() == CREDENTIAL_LEN,
        ensures
            r.key@ == dh_key(params.prime@, params.server_public@, be_nat(private@)),
            r.key@.len() == 16,
            r.message@ == dh_message(
                self.username@,
                self.password@,
                *params,
                be_nat(private@),
                noise@,
            ),
            r.message@.len() == CREDENTIAL_LEN + params.prime@.len(),
    {
        let n: usize = params.prime.len();
        let mut generator: Vec<u8> = Vec::new();
        push_u16(&mut generator, params.generator);
        proof {
            lemma_be_nat_of_u16(params.generator);
            assert(generator@ =~= be16(params.generator));
        }
        let client_public = mod_pow(&generator, private, &params.prime);
        let shared = mod_pow(&params.server_public, private, &params.prime);
        let key = md5_digest(&pad_bigint(&shared, n));
        let blob = build_credential_blob(self.username.as_str(), self.password.as_str(), noise);
        let mut message = encrypt_aes128_ecb(&blob, &key);
        push_all(&mut message, &pad_bigint(&client_public, n));
        DhReply { message, key }
    }

    /// Answers the server with a fresh private number and fresh noise.
    pub fn authenticate(&self, params: &DhParams) -> (r: DhReply)
        requires
            be_nat(params.prime@) > 1,
        ensures
            exists|private: Seq<u8>, noise: Seq<u8>|
                1 <= be_nat(private) < be_nat(params.prime@) && drawn_below(params.prime@, private)
                    && noise.len() == CREDENTIAL_LEN && drawn(noise) && r.key@ == dh_key(params.prime@, params.server_public@, be_nat(private))
                    && r.message@ == #[trigger] dh_message(
                    self.username@,
                    self.password@,
                    *params,
                    be_nat(private),
                    noise,
                ),
    {
        let private = random_number(&params.prime);
        let noise = random_bytes(CREDENTIAL_LEN);
        self.respond(params, &private, &noise)
    }
}

proof fn lemma_be_nat_of_u16(v: u16)
    ensures
        be_nat(be16(v)) == v,
{
    reveal_with_fuel(be_nat, 3);
    assert(be16(v).drop_last().drop_last() =~= Seq::<u8>::empty());
}

} // verus!
