//! Apple Remote Desktop SRP authentication (RFB security type 33).
//!
//! RSA1/RSA-SRP with a 4096-bit modulus, SHA-512 and a PBKDF2 password
//! preprocessing. The outcome is the 16-byte AES wrap key of the encrypted
//! record layer.

pub mod agreement;

use rsa::pkcs8::DecodePublicKey;
use vstd::arithmetic::power::pow;
use vstd::prelude::*;
use vstd::utf8::encode_utf8;

use crate::bignum::{difference, exceeds_one, mod_pow, pad_bigint, product, rem, sum};
use crate::crypto::{pbkdf2_sha512, pbkdf2_sha512_of, sha256_digest, sha256_of, sha512_digest, sha512_of};
use crate::entropy::{drawn, random_bytes};
use crate::error::{Failure, VncError};
use crate::text::{concat_text, decimal, decimal_text, prefixed_hex, prefixed_hex_text};
use crate::wire::{
    be16, be32, be_bytes, be_nat, push_all, push_u16, push_u32, push_zeros, slice, to_vec, u16_at,
    u16_of, u32_at, u32_of, u64_at, u64_of, zeros,
};

verus! {

/// Why rsa refuses a DER-encoded public key; `None` where it accepts it.
pub uninterp spec fn rsa_key_refusal(der: Seq<u8>) -> Option<Seq<char>>;

/// The size in bytes of the modulus of a DER-encoded public key that rsa accepts.
pub uninterp spec fn rsa_key_size(der: Seq<u8>) -> nat;

/// Whether `block` is a PKCS#1 v1.5 encryption of `payload` under the public
/// key `der`.
pub uninterp spec fn is_rsa_encryption(der: Seq<u8>, payload: Seq<u8>, block: Seq<u8>) -> bool;

/// Why a payload could not be encrypted for a server.
pub enum RsaFailure {
    /// The key was refused.
    Key(String),
    /// The encryption failed.
    Encryption(String),
}

/// rsa's `RsaPublicKey::encrypt` with PKCS#1 v1.5 padding, under the key that
/// `RsaPublicKey::from_public_key_der` reads out of `der`. Whether the key is
/// refused, and with what text, depends on its bytes alone, and so does the size
/// of its modulus. A payload fails exactly if it leaves less than eleven bytes of
/// that size for the padding. The padding is random: a ciphertext is only claimed
/// to be one of the payload's encryptions, as long as the modulus.
#[verifier::external_body]
fn rsa_encrypt(der: &[u8], payload: &[u8]) -> (r: Result<Vec<u8>, RsaFailure>)
    ensures
        match rsa_key_refusal(der@) {
            Some(text) => r matches Err(RsaFailure::Key(e)) && e@ == text,
            None => if payload@.len() + 11 <= rsa_key_size(der@) {
                r matches Ok(block) && is_rsa_encryption(der@, payload@, block@) && block@.len()
                    == rsa_key_size(der@)
            } else {
                r matches Err(RsaFailure::Encryption(e)) && e@ == "message too long"@
            },
        },
{
    let key = rsa::RsaPublicKey::from_public_key_der(der)
        .map_err(|e| RsaFailure::Key(e.to_string()))?;
    key.encrypt(&mut rsa::rand_core::OsRng, rsa::Pkcs1v15Encrypt, payload)
        .map_err(|e| RsaFailure::Encryption(e.to_string()))
}

/// Length of the group modulus in bytes.
pub const SRP_MODULUS_LEN: usize = 512;

/// Length of a hash in bytes.
pub const SRP_HASH_LEN: usize = 64;

/// Length of a padded proof packet in bytes.
pub const SRP_PROOF_LEN: usize = 1076;

/// The largest packet accepted from a server during authentication.
pub const MAX_SRP_PACKET_LEN: u32 = 16384;

/// Credentials for SRP authentication.
pub struct AppleSrpAuth {
    username: String,
    password: String,
}

/// A server's challenge. Numbers are big-endian bytes.
pub struct SrpChallenge {
    /// The group modulus as a number.
    pub n: Vec<u8>,
    /// The group modulus as sent.
    pub nb: Vec<u8>,
    /// The group generator.
    pub g: Vec<u8>,
    pub salt: Vec<u8>,
    /// The server's public value as a number.
    pub b: Vec<u8>,
    /// The server's public value as sent.
    pub bb: Vec<u8>,
    pub iterations: u64,
    /// Capability string of the server.
    pub cap: Vec<u8>,
}

/// The client's answer to a challenge.
pub struct SrpProof {
    /// The client's public value.
    pub ab: Vec<u8>,
    /// The proof that the client knows the password.
    pub m1: Vec<u8>,
    /// The session key.
    pub k: Vec<u8>,
}

/// What a challenge says.
pub struct ChallengeFields {
    pub nb: Seq<u8>,
    pub g: Seq<u8>,
    pub salt: Seq<u8>,
    pub bb: Seq<u8>,
    pub iterations: u64,
    pub cap: Seq<u8>,
}

fn auth_failed(text: &str) -> (r: VncError)
    ensures
        r@ == Failure::AuthFailed(text@),
{
    VncError::AuthFailed(text.to_owned())
}

// ---------------------------------------------------------------------------
// RSA1 exchange
// ---------------------------------------------------------------------------

/// The request that opens the exchange: the security type and an RSA1 envelope.
pub open spec fn rsa1_request() -> Seq<u8> {
    seq![
        0x21u8, 0u8, 0u8, 0u8, 0x0au8, 1u8, 0u8, 0x52u8, 0x53u8, 0x41u8, 0x31u8, 0u8, 0u8, 0u8, 0u8,
    ]
}

/// Builds the request that opens the exchange.
pub fn build_rsa1_request() -> (r: Vec<u8>)
    ensures
        r@ == rsa1_request(),
{
    let r: Vec<u8> = vec![
        0x21, 0, 0, 0, 0x0a, 1, 0, 0x52, 0x53, 0x41, 0x31, 0, 0, 0, 0,
    ];
    assert(r@ =~= rsa1_request());
    r
}

/// Checks the length of the RSA1 response before it is read.
pub fn check_rsa1_len(len: u32) -> (r: Result<usize, VncError>)
    ensures
        if len > MAX_SRP_PACKET_LEN {
            r matches Err(e) && e@ == Failure::AuthFailed(
                "RSA1 init response length "@ + decimal_text(len as nat) + " exceeds limit"@,
            )
        } else {
            r == Ok::<usize, VncError>(len as usize)
        },
{
    if len > MAX_SRP_PACKET_LEN {
        let text = concat_text("RSA1 init response length ", &decimal(len as u64));
        return Err(VncError::AuthFailed(concat_text(&text, " exceeds limit")));
    }
    Ok(len as usize)
}

/// The DER-encoded key in an RSA1 response.
pub open spec fn rsa1_key(pkt: Seq<u8>) -> Result<Seq<u8>, Failure> {
    if pkt.len() < 8 {
        Err(Failure::AuthFailed("RSA1 init response too short"@))
    } else if 6 + u32_of(pkt, 2) > pkt.len() {
        Err(Failure::AuthFailed("RSA1 init response key length exceeds packet"@))
    } else {
        Ok(pkt.subrange(6, 6 + u32_of(pkt, 2)))
    }
}

/// Finds the DER-encoded key in an RSA1 response.
pub fn find_rsa1_key(pkt: &[u8]) -> (r: Result<&[u8], VncError>)
    ensures
        match rsa1_key(pkt@) {
            Ok(key) => r matches Ok(k) && k@ == key,
            Err(f) => r matches Err(e) && e@ == f,
        },
{
    if pkt.len() < 8 {
        return Err(auth_failed("RSA1 init response too short"));
    }
    let key_len: u32 = u32_at(pkt, 2);
    if key_len as u64 > (pkt.len() - 6) as u64 {
        return Err(auth_failed("RSA1 init response key length exceeds packet"));
    }
    Ok(slice(pkt, 6, 6 + key_len as usize))
}

/// What is encrypted for the server: the user name inside two length prefixes.
pub open spec fn modulus_request(user: Seq<u8>) -> Seq<u8> {
    be32(((user.len() + 7) % 0x1_0000_0000) as u32) + be32((user.len() % 0x1_0000_0000) as u32)
        + user + zeros(3)
}

/// Builds what is encrypted for the server.
pub fn build_modulus_request(username: &str) -> (r: Vec<u8>)
    ensures
        r@ == modulus_request(encode_utf8(username@)),
{
    let user = username.as_bytes();
    let n: u64 = user.len() as u64;
    let mut r: Vec<u8> = Vec::new();
    push_u32(&mut r, ((n as u128 + 7) % 0x1_0000_0000) as u32);
    assert(r@ =~= be32(((user@.len() + 7) % 0x1_0000_0000) as u32));
    push_u32(&mut r, (n % 0x1_0000_0000) as u32);
    push_all(&mut r, user);
    push_zeros(&mut r, 3);
    r
}

/// The packet that carries the encrypted user name.
pub open spec fn modulus_packet(encrypted: Seq<u8>) -> Seq<u8> {
    be32(650) + seq![1u8, 0u8, 0x52u8, 0x53u8, 0x41u8, 0x31u8] + be16(2) + be16(256) + encrypted
        + zeros(384)
}

/// Frames the encrypted user name. Only a block of 256 bytes is accepted.
pub fn frame_modulus_packet(encrypted: &[u8]) -> (r: Result<Vec<u8>, VncError>)
    ensures
        if encrypted@.len() != 256 {
            r matches Err(e) && e@ == Failure::AuthFailed(
                "expected 256B RSA block, got "@ + decimal_text(encrypted@.len()),
            )
        } else {
            r matches Ok(v) && v@ == modulus_packet(encrypted@)
        },
{
    if encrypted.len() != 256 {
        let text = concat_text("expected 256B RSA block, got ", &decimal(encrypted.len() as u64));
        return Err(VncError::AuthFailed(text));
    }
    let mut r: Vec<u8> = Vec::new();
    push_u32(&mut r, 650);
    assert(r@ =~= be32(650));
    let marker: [u8; 6] = [1, 0, 0x52, 0x53, 0x41, 0x31];
    assert(marker@ =~= seq![1u8, 0u8, 0x52u8, 0x53u8, 0x41u8, 0x31u8]);
    push_all(&mut r, &marker);
    push_u16(&mut r, 2);
    push_u16(&mut r, 256);
    push_all(&mut r, encrypted);
    push_zeros(&mut r, 384);
    Ok(r)
}

// ---------------------------------------------------------------------------
// The challenge
// ---------------------------------------------------------------------------

/// Checks the length of the challenge before it is read.
pub fn check_challenge_len(len: u32) -> (r: Result<usize, VncError>)
    ensures
        if len < 1000 {
            r matches Err(e) && e@ == Failure::AuthFailed(
                "SRP challenge too short ("@ + decimal_text(len as nat)
                    + "B); server fell back to non-SRP path"@,
            )
        } else if len > MAX_SRP_PACKET_LEN {
            r matches Err(e) && e@ == Failure::AuthFailed(
                "SRP challenge length "@ + decimal_text(len as nat) + " exceeds limit"@,
            )
        } else {
            r == Ok::<usize, VncError>(len as usize)
        },
{
    if len < 1000 {
        let text = concat_text("SRP challenge too short (", &decimal(len as u64));
        return Err(
            VncError::AuthFailed(concat_text(&text, "B); server fell back to non-SRP path")),
        );
    }
    if len > MAX_SRP_PACKET_LEN {
        let text = concat_text("SRP challenge length ", &decimal(len as u64));
        return Err(VncError::AuthFailed(concat_text(&text, " exceeds limit")));
    }
    Ok(len as usize)
}

/// The `n` bytes of `s` at `p`.
pub open spec fn challenge_field(s: Seq<u8>, p: int, n: int) -> Result<Seq<u8>, Failure> {
    if p + n > s.len() {
        Err(
            Failure::AuthFailed(
                "SRP challenge truncated: need "@ + decimal_text(n as nat) + " bytes at offset "@
                    + decimal_text(p as nat) + ", have "@ + decimal_text((s.len() - p) as nat),
            ),
        )
    } else {
        Ok(s.subrange(p, p + n))
    }
}

/// What stands behind the generator, from `p` on.
pub open spec fn challenge_tail(s: Seq<u8>, nb: Seq<u8>, g: Seq<u8>, p: int) -> Result<
    ChallengeFields,
    Failure,
> {
    match challenge_field(s, p, 1) {
        Err(f) => Err(f),
        Ok(salt_len) => match challenge_field(s, p + 1, salt_len[0] as int) {
            Err(f) => Err(f),
            Ok(salt) => {
                let p1 = p + 1 + salt_len[0];
                match challenge_field(s, p1, 2) {
                    Err(f) => Err(f),
                    Ok(b_len) => match challenge_field(s, p1 + 2, u16_of(b_len, 0) as int) {
                        Err(f) => Err(f),
                        Ok(bb) => {
                            let p2 = p1 + 2 + u16_of(b_len, 0);
                            match challenge_field(s, p2, 8) {
                                Err(f) => Err(f),
                                Ok(it) => match challenge_field(s, p2 + 8, 2) {
                                    Err(f) => Err(f),
                                    Ok(cap_len) => match challenge_field(
                                        s,
                                        p2 + 10,
                                        u16_of(cap_len, 0) as int,
                                    ) {
                                        Err(f) => Err(f),
                                        Ok(cap) => if u64_of(it, 0) > 1_000_000 {
                                            Err(
                                                Failure::AuthFailed(
                                                    "SRP iteration count "@ + decimal_text(
                                                        u64_of(it, 0) as nat,
                                                    ) + " exceeds 1M cap"@,
                                                ),
                                            )
                                        } else {
                                            Ok(
                                                ChallengeFields {
                                                    nb,
                                                    g,
                                                    salt,
                                                    bb,
                                                    iterations: u64_of(it, 0),
                                                    cap,
                                                },
                                            )
                                        },
                                    },
                                },
                            }
                        },
                    },
                }
            },
        },
    }
}

/// The challenge in `s`: a twelve-byte header, a zero marker, the modulus, and
/// length-prefixed generator, salt, public value and capability string around
/// the iteration count.
pub open spec fn challenge_of(s: Seq<u8>) -> Result<ChallengeFields, Failure> {
    if s.len() <= 12 {
        Err(Failure::AuthFailed("SRP challenge too short for header"@))
    } else if s[12] != 0 {
        Err(
            Failure::AuthFailed(
                "SRP parse: missing DER zero marker at offset 12, got "@ + prefixed_hex_text(s[12] as u32),
            ),
        )
    } else if 525 > s.len() {
        Err(Failure::AuthFailed("SRP challenge too short for modulus"@))
    } else {
        match challenge_field(s, 525, 2) {
            Err(f) => Err(f),
            Ok(g_len) => match challenge_field(s, 527, u16_of(g_len, 0) as int) {
                Err(f) => Err(f),
                Ok(g) => challenge_tail(s, s.subrange(13, 525), g, 527 + u16_of(g_len, 0)),
            },
        }
    }
}

fn take_field(s: &[u8], p: usize, n: usize) -> (r: Result<&[u8], VncError>)
    requires
        p <= s@.len(),
    ensures
        match challenge_field(s@, p as int, n as int) {
            Ok(f) => r matches Ok(v) && v@ == f && f.len() == n && p + n <= s@.len(),
            Err(f) => r matches Err(e) && e@ == f,
        },
{
    let have: usize = s.len() - p;
    if n > have {
        let t1 = concat_text("SRP challenge truncated: need ", &decimal(n as u64));
        let t2 = concat_text(&t1, " bytes at offset ");
        let t3 = concat_text(&t2, &decimal(p as u64));
        let t4 = concat_text(&t3, ", have ");
        return Err(VncError::AuthFailed(concat_text(&t4, &decimal(have as u64))));
    }
    Ok(slice(s, p, p + n))
}

impl SrpChallenge {
    /// The challenge holds the fields `f`.
    pub open spec fn is(&self, f: ChallengeFields) -> bool {
        &&& self.n@ == f.nb
        &&& self.nb@ == f.nb
        &&& self.g@ == f.g
        &&& self.salt@ == f.salt
        &&& self.b@ == f.bb
        &&& self.bb@ == f.bb
        &&& self.iterations == f.iterations
        &&& self.cap@ == f.cap
    }
}

fn parse_tail(s: &[u8], g: &[u8], p: usize) -> (r: Result<SrpChallenge, VncError>)
    requires
        525 <= p <= s@.len(),
    ensures
        match challenge_tail(s@, s@.subrange(13, 525), g@, p as int) {
            Ok(f) => r matches Ok(c) && c.is(f),
            Err(f) => r matches Err(e) && e@ == f,
        },
{
    assert(s@.len() == s.len());
    let salt_len: usize = match take_field(s, p, 1) {
        Err(e) => {
            return Err(e);
        },
        Ok(f) => f[0] as usize,
    };
    let salt = match take_field(s, p + 1, salt_len) {
        Err(e) => {
            return Err(e);
        },
        Ok(f) => f,
    };
    let p1: usize = p + 1 + salt_len;
    let b_len: usize = match take_field(s, p1, 2) {
        Err(e) => {
            return Err(e);
        },
        Ok(f) => u16_at(f, 0) as usize,
    };
    let bb = match take_field(s, p1 + 2, b_len) {
        Err(e) => {
            return Err(e);
        },
        Ok(f) => f,
    };
    let p2: usize = p1 + 2 + b_len;
    let iterations: u64 = match take_field(s, p2, 8) {
        Err(e) => {
            return Err(e);
        },
        Ok(f) => u64_at(f, 0),
    };
    let cap_len: usize = match take_field(s, p2 + 8, 2) {
        Err(e) => {
            return Err(e);
        },
        Ok(f) => u16_at(f, 0) as usize,
    };
    let cap = match take_field(s, p2 + 10, cap_len) {
        Err(e) => {
            return Err(e);
        },
        Ok(f) => f,
    };
    if iterations > 1_000_000 {
        let text = concat_text("SRP iteration count ", &decimal(iterations));
        return Err(VncError::AuthFailed(concat_text(&text, " exceeds 1M cap")));
    }
    let nb = slice(s, 13, 525);
    Ok(
        SrpChallenge {
            n: to_vec(nb),
            nb: to_vec(nb),
            g: to_vec(g),
            salt: to_vec(salt),
            b: to_vec(bb),
            bb: to_vec(bb),
            iterations,
            cap: to_vec(cap),
        },
    )
}

// ---------------------------------------------------------------------------
// The proof
// ---------------------------------------------------------------------------

/// The private exponent derived from the password.
pub open spec fn password_exponent(salt: Seq<u8>, iterations: u64, password: Seq<u8>) -> nat {
    let dk = pbkdf2_sha512_of(password, salt, (iterations % 0x1_0000_0000) as u32, 128);
    be_nat(sha512_of(salt + sha512_of(seq![58u8] + dk)))
}

/// The generator in as many bytes as the modulus.
pub open spec fn padded_generator(c: &SrpChallenge) -> Seq<u8> {
    be_bytes(be_nat(c.g@), 512)
}

/// The client's secret exponent for the random bytes `noise`.
pub open spec fn secret_exponent(c: &SrpChallenge, noise: Seq<u8>) -> nat {
    be_nat(noise) % ((be_nat(c.n@) - 1) as nat) + 1
}

/// The client's public value.
pub open spec fn public_value(c: &SrpChallenge, noise: Seq<u8>) -> Seq<u8> {
    be_bytes(
        (pow(be_nat(c.g@) as int, secret_exponent(c, noise)) % (be_nat(c.n@) as int)) as nat,
        512,
    )
}

/// The shared secret.
pub open spec fn shared_secret(c: &SrpChallenge, noise: Seq<u8>, password: Seq<u8>) -> nat {
    let n = be_nat(c.n@) as int;
    let g = be_nat(c.g@) as int;
    let k = be_nat(sha512_of(c.nb@ + padded_generator(c)));
    let u = be_nat(sha512_of(public_value(c, noise) + c.bb@));
    let x = password_exponent(c.salt@, c.iterations, password) % (n as nat);
    let base = (be_nat(c.b@) - k * (pow(g, x) % n)) % n;
    (pow(base, secret_exponent(c, noise) + u * x) % n) as nat
}

/// The session key.
pub open spec fn session_key(c: &SrpChallenge, noise: Seq<u8>, password: Seq<u8>) -> Seq<u8> {
    sha512_of(be_bytes(shared_secret(c, noise, password), 512))
}

/// Two hashes combined byte by byte.
pub open spec fn xor_hashes(a: Seq<u8>, b: Seq<u8>) -> Seq<u8> {
    Seq::new(64, |i: int| a[i] ^ b[i])
}

/// The proof that the client knows the password.
pub open spec fn client_proof(c: &SrpChallenge, noise: Seq<u8>, password: Seq<u8>) -> Seq<u8> {
    sha512_of(
        xor_hashes(sha512_of(c.nb@), sha512_of(padded_generator(c))) + sha512_of(Seq::empty())
            + c.salt@ + public_value(c, noise) + c.bb@ + session_key(c, noise, password),
    )
}

fn xor_64(a: &[u8], b: &[u8]) -> (r: Vec<u8>)
    requires
        a@.len() == 64,
        b@.len() == 64,
    ensures
        r@ == xor_hashes(a@, b@),
{
    let mut r: Vec<u8> = Vec::new();
    let mut i: usize = 0;
    while i < 64
        invariant
            i <= 64,
            a@.len() == 64,
            b@.len() == 64,
            r@.len() == i,
            forall|j: int| 0 <= j < i ==> r@[j] == a@[j] ^ b@[j],
        decreases 64 - i,
    {
        r.push(a[i] ^ b[i]);
        i = i + 1;
    }
    assert(r@ =~= xor_hashes(a@, b@));
    r
}

proof fn lemma_difference_mod(b: int, kg: int, n: int)
    requires
        n > 0,
        0 <= b,
        0 <= kg,
    ensures
        (b % n + n - kg % n) % n == (b - kg) % n,
        0 <= (b - kg) % n < n,
{
    vstd::arithmetic::div_mod::lemma_fundamental_div_mod(b, n);
    vstd::arithmetic::div_mod::lemma_fundamental_div_mod(kg, n);
    let q = b / n - kg / n - 1;
    assert(b - kg == q * n + (b % n + n - kg % n)) by (nonlinear_arith)
        requires
            b == n * (b / n) + b % n,
            kg == n * (kg / n) + kg % n,
            q == b / n - kg / n - 1,
    ;
    vstd::arithmetic::div_mod::lemma_mod_multiples_vanish(q, b % n + n - kg % n, n);
    assert(n * q == q * n) by (nonlinear_arith);
}

impl AppleSrpAuth {
    /// The stored credentials.
    pub closed spec fn credentials(&self) -> (Seq<char>, Seq<char>) {
        (self.username@, self.password@)
    }

    /// An authenticator with the given credentials.
    pub fn new(username: String, password: String) -> (r: AppleSrpAuth)
        ensures
            r.credentials() == (username@, password@),
    {
        AppleSrpAuth { username, password }
    }

    /// Parses a server's challenge.
    pub fn parse_apple_srp_challenge(&self, s2c1: &[u8]) -> (r: Result<SrpChallenge, VncError>)
        ensures
            match challenge_of(s2c1@) {
                Ok(f) => r matches Ok(c) && c.is(f),
                Err(f) => r matches Err(e) && e@ == f,
            },
    {
        if s2c1.len() <= 12 {
            return Err(auth_failed("SRP challenge too short for header"));
        }
        if s2c1[12] != 0 {
            let text = concat_text(
                "SRP parse: missing DER zero marker at offset 12, got ",
                &prefixed_hex(s2c1[12] as u32),
            );
            return Err(VncError::AuthFailed(text));
        }
        if 525 > s2c1.len() {
            return Err(auth_failed("SRP challenge too short for modulus"));
        }
        let g_len: usize = match take_field(s2c1, 525, 2) {
            Err(e) => {
                return Err(e);
            },
            Ok(f) => u16_at(f, 0) as usize,
        };
        match take_field(s2c1, 527, g_len) {
            Err(e) => Err(e),
            Ok(g) => parse_tail(s2c1, g, 527 + g_len),
        }
    }

    /// Derives the private exponent from the password.
    pub fn derive_x(&self, salt: &[u8], iterations: u64, password: &str) -> (r: Vec<u8>)
        ensures
            be_nat(r@) == password_exponent(salt@, iterations, encode_utf8(password@)),
    {
        let rounds: u32 = (iterations % 0x1_0000_0000) as u32;
        let dk = pbkdf2_sha512(password.as_bytes(), salt, rounds, 128);
        let mut first: Vec<u8> = vec![58];
        assert(first@ =~= seq![58u8]);
        push_all(&mut first, &dk);
        let inner = sha512_digest(&first);
        let mut second = to_vec(salt);
        push_all(&mut second, &inner);
        sha512_digest(&second)
    }

    /// Answers a challenge, with `noise` as the source of the secret exponent.
    /// A modulus of 0 or 1 is refused.
    pub fn solve_srp_with(&self, challenge: &SrpChallenge, noise: &[u8]) -> (r: Result<
        SrpProof,
        VncError,
    >)
        ensures
            if be_nat(challenge.n@) <= 1 {
                r matches Err(e) && e@ == Failure::AuthFailed(
                    "SRP modulus N must be greater than 1, got "@ + decimal_text(
                        be_nat(challenge.n@),
                    ),
                )
            } else {
                &&& r matches Ok(p)
                &&& p.ab@ == public_value(challenge, noise@)
                &&& p.m1@ == client_proof(challenge, noise@, encode_utf8(self.credentials().1))
                &&& p.k@ == session_key(challenge, noise@, encode_utf8(self.credentials().1))
                &&& p.ab@.len() == 512
                &&& p.m1@.len() == 64
                &&& p.k@.len() == 64
            },
    {
        if !exceeds_one(&challenge.n) {
            let n: Vec<u8> = pad_bigint(&challenge.n, 1);
            proof {
                crate::wire::lemma_be_bytes(be_nat(challenge.n@), 1);
                reveal_with_fuel(be_bytes, 2);
            }
            let text = concat_text(
                "SRP modulus N must be greater than 1, got ",
                &decimal(n[0] as u64),
            );
            return Err(VncError::AuthFailed(text));
        }
        let one: [u8; 1] = [1];
        proof {
            reveal_with_fuel(be_nat, 2);
            assert(one@.drop_last() =~= Seq::<u8>::empty());
            assert(be_nat(one@) == 1);
        }
        let g_padded = pad_bigint(&challenge.g, SRP_MODULUS_LEN);
        let mut k_input = to_vec(&challenge.nb);
        push_all(&mut k_input, &g_padded);
        let k = sha512_digest(&k_input);
        let n_less = difference(&challenge.n, &one);
        let a = sum(&rem(noise, &n_less), &one);
        let a_pub = mod_pow(&challenge.g, &a, &challenge.n);
        let ab = pad_bigint(&a_pub, SRP_MODULUS_LEN);
        let mut u_input = to_vec(&ab);
        push_all(&mut u_input, &challenge.bb);
        let u = sha512_digest(&u_input);
        let x_raw = self.derive_x(&challenge.salt, challenge.iterations, &self.password);
        let x = rem(&x_raw, &challenge.n);
        let g_x = mod_pow(&challenge.g, &x, &challenge.n);
        let kg = product(&k, &g_x);
        proof {
            lemma_difference_mod(
                be_nat(challenge.b@) as int,
                be_nat(kg@) as int,
                be_nat(challenge.n@) as int,
            );
        }
        let raised = sum(&rem(&challenge.b, &challenge.n), &challenge.n);
        let base = rem(&difference(&raised, &rem(&kg, &challenge.n)), &challenge.n);
        let exp = sum(&a, &product(&u, &x));
        let s = mod_pow(&base, &exp, &challenge.n);
        let key = sha512_digest(&pad_bigint(&s, SRP_MODULUS_LEN));
        let none: [u8; 0] = [];
        assert(none@ =~= Seq::<u8>::empty());
        let mut m = xor_64(&sha512_digest(&challenge.nb), &sha512_digest(&g_padded));
        push_all(&mut m, &sha512_digest(&none));
        push_all(&mut m, &challenge.salt);
        push_all(&mut m, &ab);
        push_all(&mut m, &challenge.bb);
        push_all(&mut m, &key);
        let m1 = sha512_digest(&m);
        Ok(SrpProof { ab, m1, k: key })
    }

    /// Answers a challenge with a fresh secret exponent.
    pub fn solve_srp(&self, challenge: &SrpChallenge) -> (r: Result<SrpProof, VncError>)
        ensures
            if be_nat(challenge.n@) <= 1 {
                r matches Err(e) && e@ == Failure::AuthFailed(
                    "SRP modulus N must be greater than 1, got "@ + decimal_text(
                        be_nat(challenge.n@),
                    ),
                )
            } else {
                exists|noise: Seq<u8>|
                    {
                        &&& noise.len() == 64
                        &&& drawn(noise)
                        &&& r matches Ok(p)
                        &&& p.ab@ == #[trigger] public_value(challenge, noise)
                        &&& p.m1@ == client_proof(
                            challenge,
                            noise,
                            encode_utf8(self.credentials().1),
                        )
                        &&& p.k@ == session_key(
                            challenge,
                            noise,
                            encode_utf8(self.credentials().1),
                        )
                        &&& p.ab@.len() == 512
                        &&& p.m1@.len() == 64
                        &&& p.k@.len() == 64
                    }
            },
    {
        let noise = random_bytes(64);
        self.solve_srp_with(challenge, &noise)
    }

    /// Encrypts the user name for the server whose RSA1 response is `pkt`.
    pub fn srp_modulus_message(&self, pkt: &[u8]) -> (r: Result<Vec<u8>, VncError>)
        ensures
            match rsa1_key(pkt@) {
                Err(f) => r matches Err(e) && e@ == f,
                Ok(der) => match rsa_key_refusal(der) {
                    Some(text) => r matches Err(e) && e@ == Failure::Protocol(
                        "Invalid RSA public key: "@ + text,
                    ),
                    None => {
                        let request = modulus_request(encode_utf8(self.credentials().0));
                        if request.len() + 11 > rsa_key_size(der) {
                            r matches Err(e) && e@ == Failure::AuthFailed(
                                "RSA encryption failed: message too long"@,
                            )
                        } else if rsa_key_size(der) != 256 {
                            r matches Err(e) && e@ == Failure::AuthFailed(
                                "expected 256B RSA block, got "@ + decimal_text(rsa_key_size(der)),
                            )
                        } else {
                            r matches Ok(v) && exists|block: Seq<u8>|
                                {
                                    &&& block.len() == 256
                                    &&& is_rsa_encryption(der, request, block)
                                    &&& v@ == #[trigger] modulus_packet(block)
                                }
                        }
                    },
                },
            },
    {
        let der = match find_rsa1_key(pkt) {
            Err(e) => {
                return Err(e);
            },
            Ok(d) => d,
        };
        let request = build_modulus_request(&self.username);
        match rsa_encrypt(der, &request) {
            Err(RsaFailure::Key(text)) => Err(
                VncError::Protocol(concat_text("Invalid RSA public key: ", &text)),
            ),
            Err(RsaFailure::Encryption(text)) => {
                let message = concat_text("RSA encryption failed: ", &text);
                proof {
                    reveal_strlit("RSA encryption failed: ");
                    reveal_strlit("message too long");
                    reveal_strlit("RSA encryption failed: message too long");
                }
                assert(message@ =~= "RSA encryption failed: message too long"@);
                Err(VncError::AuthFailed(message))
            },
            Ok(encrypted) => frame_modulus_packet(&encrypted),
        }
    }
}

/// The inner part of a proof packet.
pub open spec fn proof_fields(cap: Seq<u8>, ab: Seq<u8>, m1: Seq<u8>, civ: Seq<u8>) -> Seq<u8> {
    be16(512) + ab + seq![64u8] + m1 + be16((cap.len() % 0x1_0000) as u16) + cap + seq![16u8] + civ
}

/// A proof packet, padded with zeros.
pub open spec fn proof_packet(cap: Seq<u8>, ab: Seq<u8>, m1: Seq<u8>, civ: Seq<u8>) -> Seq<u8> {
    let inner = proof_fields(cap, ab, m1, civ);
    be32(1076) + seq![1u8, 0u8, 0x52u8, 0x53u8, 0x41u8, 0x31u8] + be16(2) + be16(
        (inner.len() + 4) as u16,
    ) + be32(inner.len() as u32) + inner + zeros((1076 - 14 - inner.len()) as nat)
}

/// Builds the packet that carries the proof. `civ` is sixteen random bytes. A
/// capability string of more than 464 bytes does not fit.
pub fn build_srp_proof(challenge: &SrpChallenge, proof: &SrpProof, civ: &[u8]) -> (r: Result<
    Vec<u8>,
    VncError,
>)
    requires
        proof.ab@.len() == 512,
        proof.m1@.len() == 64,
        civ@.len() == 16,
        challenge.cap@.len() + 612 <= usize::MAX,
    ensures
        if challenge.cap@.len() > 464 {
            r matches Err(e) && e@ == Failure::AuthFailed(
                "SRP proof payload ("@ + decimal_text(612 + challenge.cap@.len())
                    + " bytes, cap_len="@ + decimal_text(challenge.cap@.len())
                    + ") exceeds 1076-byte packet"@,
            )
        } else {
            r matches Ok(v) && v@ == proof_packet(challenge.cap@, proof.ab@, proof.m1@, civ@)
        },
{
    let cap_len: usize = challenge.cap.len();
    if cap_len > 464 {
        let t1 = concat_text("SRP proof payload (", &decimal(612 + cap_len as u64));
        let t2 = concat_text(&t1, " bytes, cap_len=");
        let t3 = concat_text(&t2, &decimal(cap_len as u64));
        return Err(VncError::AuthFailed(concat_text(&t3, ") exceeds 1076-byte packet")));
    }
    let mut inner: Vec<u8> = Vec::new();
    push_u16(&mut inner, 512);
    assert(inner@ =~= be16(512));
    push_all(&mut inner, &proof.ab);
    inner.push(64);
    push_all(&mut inner, &proof.m1);
    push_u16(&mut inner, cap_len as u16);
    push_all(&mut inner, &challenge.cap);
    inner.push(16);
    push_all(&mut inner, civ);
    assert(inner@ =~= proof_fields(challenge.cap@, proof.ab@, proof.m1@, civ@));
    let mut r: Vec<u8> = Vec::new();
    push_u32(&mut r, 1076);
    assert(r@ =~= be32(1076));
    let marker: [u8; 6] = [1, 0, 0x52, 0x53, 0x41, 0x31];
    assert(marker@ =~= seq![1u8, 0u8, 0x52u8, 0x53u8, 0x41u8, 0x31u8]);
    push_all(&mut r, &marker);
    push_u16(&mut r, 2);
    push_u16(&mut r, (inner.len() + 4) as u16);
    push_u32(&mut r, inner.len() as u32);
    push_all(&mut r, &inner);
    push_zeros(&mut r, 1076 - 14 - inner.len());
    Ok(r)
}

/// Builds the packet that carries the proof, with sixteen bytes drawn at random.
pub fn srp_proof_message(challenge: &SrpChallenge, proof: &SrpProof) -> (r: Result<
    Vec<u8>,
    VncError,
>)
    requires
        proof.ab@.len() == 512,
        proof.m1@.len() == 64,
        challenge.cap@.len() + 612 <= usize::MAX,
    ensures
        if challenge.cap@.len() > 464 {
            r matches Err(e) && e@ == Failure::AuthFailed(
                "SRP proof payload ("@ + decimal_text(612 + challenge.cap@.len())
                    + " bytes, cap_len="@ + decimal_text(challenge.cap@.len())
                    + ") exceeds 1076-byte packet"@,
            )
        } else {
            r matches Ok(v) && exists|civ: Seq<u8>|
                civ.len() == 16 && drawn(civ) && v@ == #[trigger] proof_packet(
                    challenge.cap@,
                    proof.ab@,
                    proof.m1@,
                    civ,
                )
        },
{
    let civ = random_bytes(16);
    build_srp_proof(challenge, proof, &civ)
}

/// Checks the length of the server's own proof before it is read.
pub fn check_result_len(len: u32) -> (r: Result<usize, VncError>)
    ensures
        if len > MAX_SRP_PACKET_LEN {
            r matches Err(e) && e@ == Failure::AuthFailed(
                "SRP result length "@ + decimal_text(len as nat) + " exceeds limit"@,
            )
        } else {
            r == Ok::<usize, VncError>(len as usize)
        },
{
    if len > MAX_SRP_PACKET_LEN {
        let text = concat_text("SRP result length ", &decimal(len as u64));
        return Err(VncError::AuthFailed(concat_text(&text, " exceeds limit")));
    }
    Ok(len as usize)
}

/// Judges the server's result code: only zero is success.
pub fn read_srp_result(result: u32) -> (r: Result<(), VncError>)
    ensures
        if result != 0 {
            r matches Err(e) && e@ == Failure::AuthFailed(
                "Apple SRP auth rejected: result="@ + decimal_text(result as nat),
            )
        } else {
            r is Ok
        },
{
    if result != 0 {
        return Err(
            VncError::AuthFailed(
                concat_text("Apple SRP auth rejected: result=", &decimal(result as u64)),
            ),
        );
    }
    Ok(())
}

/// The wrap key of the record layer: the first half of the session key's
/// SHA-256.
pub fn wrap_key(proof: &SrpProof) -> (r: Vec<u8>)
    ensures
        r@ == sha256_of(proof.k@).subrange(0, 16),
        r@.len() == 16,
{
    let h = sha256_digest(&proof.k);
    to_vec(slice(&h, 0, 16))
}

} // verus!
