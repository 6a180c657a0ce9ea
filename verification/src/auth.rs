//! Which security type a client selects, and the credentials it holds.

use vstd::prelude::*;
use vstd::utf8::encode_utf8;

use crate::crypto::{des_encrypt_block, des_enciphered};
use crate::error::{Failure, VncError};
use crate::text::{byte_list, byte_numbers, concat_text, decimal, decimal_text, list_text};
use crate::wire::{push_all, slice};

verus! {

/// Authentication handler trait.
pub trait AuthHandler {
    /// Select a security type from the list offered by the server.
    fn select_security_type(&mut self, types: &[u8]) -> Result<u8, VncError>;

    /// Whether the handler answers a challenge of VNC authentication; the error
    /// says why not.
    fn check_vnc(&self) -> Result<(), VncError>;

    /// Whether the handler speaks the security type; the error says why not. A
    /// handler that does not say otherwise speaks none of its own.
    fn check_type(&self, kind: u8) -> (r: Result<(), VncError>)
        default_ensures
            r matches Err(e) && e@ == type_unsupported(kind),
    {
        Err(unsupported(kind))
    }

    /// Optional post-authentication key material (e.g., Apple HP wrap key).
    fn session_key(&mut self) -> (r: Option<Vec<u8>>)
        default_ensures
            r is None,
    {
        None
    }
}

/// Result of authentication.
pub enum AuthResult {
    Success,
    Failure(String),
}

/// No authentication handler (accepts None auth only).
pub struct NoAuthHandler;

/// Apple Remote Desktop authentication handler (RFB security type 30).
pub struct AppleDhAuthHandler {
    pub username: String,
    pub password: String,
    pub session_key: Option<Vec<u8>>,
}

/// Apple Screen Sharing authentication handler (RFB security type 33 RSA-SRP).
pub struct AppleSrpAuthHandler {
    pub username: String,
    pub password: String,
    pub session_key: Option<Vec<u8>>,
}

/// Password-based VNC authentication handler.
pub struct PasswordAuthHandler {
    pub password: String,
}

/// Why none of the types that the server offers will do.
pub open spec fn none_supported(types: Seq<u8>) -> Failure {
    Failure::AuthFailed(
        "No supported auth types (server offered "@ + list_text(byte_numbers(types)) + ")"@,
    )
}

/// Why a type is not spoken.
pub open spec fn type_unsupported(kind: u8) -> Failure {
    Failure::AuthFailed("Auth type "@ + decimal_text(kind as nat) + " not supported"@)
}

/// The first of two types that is offered.
pub open spec fn first_offered(types: Seq<u8>, first: u8, second: u8) -> Option<u8> {
    if types.contains(first) {
        Some(first)
    } else if types.contains(second) {
        Some(second)
    } else {
        None
    }
}

/// Whether a type is offered.
pub fn offers(types: &[u8], kind: u8) -> (r: bool)
    ensures
        r == types@.contains(kind),
{
    let n: usize = types.len();
    let mut i: usize = 0;
    while i < n
        invariant
            n == types@.len(),
            i <= n,
            forall|j: int| 0 <= j < i ==> types@[j] != kind,
        decreases n - i,
    {
        if types[i] == kind {
            return true;
        }
        i = i + 1;
    }
    false
}

fn select_first(types: &[u8], first: u8, second: u8) -> (r: Result<u8, VncError>)
    ensures
        match first_offered(types@, first, second) {
            Some(kind) => r == Ok::<u8, VncError>(kind),
            None => r matches Err(e) && e@ == none_supported(types@),
        },
{
    if offers(types, first) {
        Ok(first)
    } else if offers(types, second) {
        Ok(second)
    } else {
        let t = concat_text(
            "No supported auth types (server offered ",
            byte_list(types).as_str(),
        );
        Err(VncError::AuthFailed(concat_text(t.as_str(), ")")))
    }
}

fn unsupported(kind: u8) -> (r: VncError)
    ensures
        r@ == type_unsupported(kind),
{
    let t = concat_text("Auth type ", decimal(kind as u64).as_str());
    VncError::AuthFailed(concat_text(t.as_str(), " not supported"))
}

fn refused(text: &str) -> (r: VncError)
    ensures
        r@ == Failure::AuthFailed(text@),
{
    VncError::AuthFailed(text.to_owned())
}

impl AuthHandler for NoAuthHandler {
    fn select_security_type(&mut self, types: &[u8]) -> (r: Result<u8, VncError>)
        ensures
            match first_offered(types@, 1, 1) {
                Some(kind) => r == Ok::<u8, VncError>(kind),
                None => r matches Err(e) && e@ == none_supported(types@),
            },
    {
        select_first(types, 1, 1)
    }

    fn check_vnc(&self) -> (r: Result<(), VncError>)
        ensures
            r matches Err(e) && e@ == Failure::AuthFailed("VNC auth not supported"@),
    {
        Err(refused("VNC auth not supported"))
    }

    fn check_type(&self, kind: u8) -> (r: Result<(), VncError>)
        ensures
            r matches Err(e) && e@ == type_unsupported(kind),
    {
        Err(unsupported(kind))
    }

    fn session_key(&mut self) -> (r: Option<Vec<u8>>)
        ensures
            r is None,
    {
        None
    }
}

impl AppleDhAuthHandler {
    /// A handler with these credentials.
    pub fn new(username: String, password: String) -> (r: Self)
        ensures
            r.username == username,
            r.password == password,
            r.session_key is None,
    {
        AppleDhAuthHandler { username, password, session_key: None }
    }
}

impl AuthHandler for AppleDhAuthHandler {
    fn select_security_type(&mut self, types: &[u8]) -> (r: Result<u8, VncError>)
        ensures
            match first_offered(types@, 30, 30) {
                Some(kind) => r == Ok::<u8, VncError>(kind),
                None => r matches Err(e) && e@ == none_supported(types@),
            },
            *final(self) == *old(self),
    {
        select_first(types, 30, 30)
    }

    fn check_vnc(&self) -> (r: Result<(), VncError>)
        ensures
            r matches Err(e) && e@ == Failure::AuthFailed(
                "Apple DH auth does not use VNC challenge-response"@,
            ),
    {
        Err(refused("Apple DH auth does not use VNC challenge-response"))
    }

    fn check_type(&self, kind: u8) -> (r: Result<(), VncError>)
        ensures
            r is Ok,
    {
        Ok(())
    }

    fn session_key(&mut self) -> (r: Option<Vec<u8>>)
        ensures
            r == old(self).session_key,
            final(self).session_key is None,
            final(self).username == old(self).username,
            final(self).password == old(self).password,
    {
        self.session_key.take()
    }
}

impl AppleSrpAuthHandler {
    /// A handler with these credentials.
    pub fn new(username: String, password: String) -> (r: Self)
        ensures
            r.username == username,
            r.password == password,
            r.session_key is None,
    {
        AppleSrpAuthHandler { username, password, session_key: None }
    }
}

impl AuthHandler for AppleSrpAuthHandler {
    /// Prefers type 33 (RSA-SRP) over type 30 (DH) when both are offered.
    fn select_security_type(&mut self, types: &[u8]) -> (r: Result<u8, VncError>)
        ensures
            match first_offered(types@, 33, 30) {
                Some(kind) => r == Ok::<u8, VncError>(kind),
                None => r matches Err(e) && e@ == none_supported(types@),
            },
            *final(self) == *old(self),
    {
        select_first(types, 33, 30)
    }

    fn check_vnc(&self) -> (r: Result<(), VncError>)
        ensures
            r matches Err(e) && e@ == Failure::AuthFailed(
                "Apple SRP auth does not use VNC challenge-response"@,
            ),
    {
        Err(refused("Apple SRP auth does not use VNC challenge-response"))
    }

    fn check_type(&self, kind: u8) -> (r: Result<(), VncError>)
        ensures
            r is Ok,
    {
        Ok(())
    }

    fn session_key(&mut self) -> (r: Option<Vec<u8>>)
        ensures
            r == old(self).session_key,
            final(self).session_key is None,
            final(self).username == old(self).username,
            final(self).password == old(self).password,
    {
        self.session_key.take()
    }
}

impl PasswordAuthHandler {
    /// A handler with this password.
    pub fn new(password: String) -> (r: Self)
        ensures
            r.password == password,
    {
        PasswordAuthHandler { password }
    }
}

impl AuthHandler for PasswordAuthHandler {
    fn select_security_type(&mut self, types: &[u8]) -> (r: Result<u8, VncError>)
        ensures
            match first_offered(types@, 2, 1) {
                Some(kind) => r == Ok::<u8, VncError>(kind),
                None => r matches Err(e) && e@ == none_supported(types@),
            },
            *final(self) == *old(self),
    {
        select_first(types, 2, 1)
    }

    fn check_vnc(&self) -> (r: Result<(), VncError>)
        ensures
            r is Ok,
    {
        Ok(())
    }

    fn check_type(&self, kind: u8) -> (r: Result<(), VncError>)
        ensures
            r matches Err(e) && e@ == type_unsupported(kind),
    {
        Err(unsupported(kind))
    }

    fn session_key(&mut self) -> (r: Option<Vec<u8>>)
        ensures
            r is None,
            *final(self) == *old(self),
    {
        None
    }
}

/// A byte with its bits in the opposite order.
pub open spec fn reversed(b: u8) -> u8 {
    ((b & 1) << 7) | ((b & 2) << 5) | ((b & 4) << 3) | ((b & 8) << 1) | ((b & 16) >> 1) | ((b & 32)
        >> 3) | ((b & 64) >> 5) | ((b & 128) >> 7)
}

/// Reversing the bits twice gives the byte back.
pub proof fn lemma_reversed_is_an_involution(b: u8)
    ensures
        reversed(reversed(b)) == b,
{
    assert(reversed(reversed(b)) == b) by (bit_vector);
}

fn reverse(b: u8) -> (r: u8)
    ensures
        r == reversed(b),
{
    ((b & 1) << 7) | ((b & 2) << 5) | ((b & 4) << 3) | ((b & 8) << 1) | ((b & 16) >> 1) | ((b & 32)
        >> 3) | ((b & 64) >> 5) | ((b & 128) >> 7)
}

/// The DES key of a password: its first eight bytes, filled up with zeros, with
/// the bits of each in the opposite order.
pub open spec fn challenge_key(password: Seq<u8>) -> Seq<u8> {
    Seq::new(
        8,
        |i: int|
            if i < password.len() {
                reversed(password[i])
            } else {
                0
            },
    )
}

/// The answer to a challenge: each half of it, enciphered.
pub open spec fn challenge_answer(challenge: Seq<u8>, password: Seq<u8>) -> Seq<u8> {
    let key = challenge_key(password);
    des_enciphered(key, challenge.take(8)) + des_enciphered(key, challenge.skip(8))
}

/// Enciphers a challenge with DES in ECB mode, under the password.
pub fn encrypt_challenge(challenge: &[u8], password: &[u8]) -> (r: Vec<u8>)
    requires
        challenge@.len() == 16,
    ensures
        r@ == challenge_answer(challenge@, password@),
        r@.len() == 16,
        forall|j: int|
            0 <= j < 2 ==> #[trigger] r@.subrange(8 * j, 8 * j + 8) == des_enciphered(
                challenge_key(password@),
                challenge@.subrange(8 * j, 8 * j + 8),
            ),
{
    let mut key: Vec<u8> = Vec::new();
    let mut i: usize = 0;
    while i < 8
        invariant
            i <= 8,
            key@ == challenge_key(password@).take(i as int),
        decreases 8 - i,
    {
        let b: u8 = if i < password.len() {
            reverse(password[i])
        } else {
            0
        };
        key.push(b);
        i = i + 1;
        assert(key@ =~= challenge_key(password@).take(i as int));
    }
    assert(key@ =~= challenge_key(password@));
    let left = slice(challenge, 0, 8);
    let right = slice(challenge, 8, 16);
    assert(left@ =~= challenge@.take(8));
    assert(right@ =~= challenge@.skip(8));
    let mut out = des_encrypt_block(&key, left);
    push_all(&mut out, &des_encrypt_block(&key, right));
    proof {
        assert(out@.len() == 16);
        assert forall|j: int| 0 <= j < 2 implies #[trigger] out@.subrange(8 * j, 8 * j + 8)
            == des_enciphered(challenge_key(password@), challenge@.subrange(8 * j, 8 * j + 8)) by {
            lemma_answer_block(challenge@, password@, j);
        }
    }
    out
}

/// Each block of eight bytes of the answer is the encipherment of the block of
/// the challenge at the same place, under the key of the password.
pub proof fn lemma_answer_block(challenge: Seq<u8>, password: Seq<u8>, j: int)
    requires
        challenge.len() == 16,
        0 <= j < 2,
        des_enciphered(challenge_key(password), challenge.subrange(0, 8)).len() == 8,
        des_enciphered(challenge_key(password), challenge.subrange(8, 16)).len() == 8,
    ensures
        challenge_answer(challenge, password).len() == 16,
        challenge_answer(challenge, password).subrange(8 * j, 8 * j + 8) == des_enciphered(
            challenge_key(password),
            challenge.subrange(8 * j, 8 * j + 8),
        ),
{
    let key = challenge_key(password);
    assert(challenge.take(8) =~= challenge.subrange(0, 8));
    assert(challenge.skip(8) =~= challenge.subrange(8, 16));
    let left = des_enciphered(key, challenge.take(8));
    let right = des_enciphered(key, challenge.skip(8));
    assert((left + right).subrange(0, 8) =~= left);
    assert((left + right).subrange(8, 16) =~= right);
}

/// Whether the cipher under a key takes blocks to blocks, and no two blocks to
/// the same one.
pub open spec fn permutes_blocks(key: Seq<u8>) -> bool {
    &&& forall|p: Seq<u8>| p.len() == 8 ==> (#[trigger] des_enciphered(key, p)).len() == 8
    &&& forall|p: Seq<u8>, q: Seq<u8>|
        p.len() == 8 && q.len() == 8 && #[trigger] des_enciphered(key, p)
            == #[trigger] des_enciphered(key, q) ==> p == q
}

/// Two challenges with the same answer under one password are the same
/// challenge, given that the cipher under the password's key takes blocks to
/// blocks and no two blocks to the same one.
#[verifier::spinoff_prover]
pub proof fn lemma_answer_tells_challenges_apart(a: Seq<u8>, b: Seq<u8>, password: Seq<u8>)
    requires
        a.len() == 16,
        b.len() == 16,
    ensures
        permutes_blocks(challenge_key(password)) && challenge_answer(a, password)
            == challenge_answer(b, password) ==> a == b,
{
    if permutes_blocks(challenge_key(password)) && challenge_answer(a, password)
        == challenge_answer(b, password) {
        lemma_answer_block(a, password, 0);
        lemma_answer_block(a, password, 1);
        lemma_answer_block(b, password, 0);
        lemma_answer_block(b, password, 1);
        assert(a.subrange(0, 8) == b.subrange(0, 8));
        assert(a.subrange(8, 16) == b.subrange(8, 16));
        assert(a =~= a.subrange(0, 8) + a.subrange(8, 16));
        assert(b =~= b.subrange(0, 8) + b.subrange(8, 16));
    }
}

/// The key of a password has eight bytes. The lowest bit of each byte of the
/// password is the highest of the key's byte at the same place, and so on; past
/// the end of the password the key is zero.
#[verifier::spinoff_prover]
pub proof fn lemma_key_mirrors_the_password(password: Seq<u8>, i: int)
    requires
        0 <= i < 8,
    ensures
        challenge_key(password).len() == 8,
        i >= password.len() ==> challenge_key(password)[i] == 0,
        i < password.len() ==> forall|k: u8, m: u8|
            k + m == 7 ==> (#[trigger] (challenge_key(password)[i] >> k)) & 1 == (#[trigger] (
            password[i] >> m)) & 1,
{
    if i < password.len() {
        let b = password[i];
        let c = challenge_key(password)[i];
        assert forall|k: u8, m: u8| k + m == 7 implies (#[trigger] (c >> k)) & 1 == (#[trigger] (b
            >> m)) & 1 by {
            assert((c >> k) & 1 == (b >> m) & 1) by (bit_vector)
                requires
                    k + m == 7,
                    c == ((b & 1) << 7) | ((b & 2) << 5) | ((b & 4) << 3) | ((b & 8) << 1) | ((b
                        & 16) >> 1) | ((b & 32) >> 3) | ((b & 64) >> 5) | ((b & 128) >> 7),
            ;
        }
    }
}

/// Only the first eight bytes of a password count.
pub proof fn lemma_long_passwords_are_cut(challenge: Seq<u8>, password: Seq<u8>, other: Seq<u8>)
    requires
        password.len() >= 8,
        other.len() >= 8,
        password.take(8) == other.take(8),
    ensures
        challenge_answer(challenge, password) == challenge_answer(challenge, other),
{
    assert forall|i: int| 0 <= i < 8 implies #[trigger] password[i] == other[i] by {
        assert(password.take(8)[i] == password[i]);
        assert(other.take(8)[i] == other[i]);
    }
    assert(challenge_key(password) =~= challenge_key(other));
}

impl PasswordAuthHandler {
    /// Answers the challenge of VNC authentication.
    pub fn authenticate_vnc(&self, challenge: &[u8]) -> (r: Vec<u8>)
        requires
            challenge@.len() == 16,
        ensures
            r@ == challenge_answer(challenge@, encode_utf8(self.password@)),
            r@.len() == 16,
            forall|j: int|
                0 <= j < 2 ==> #[trigger] r@.subrange(8 * j, 8 * j + 8) == des_enciphered(
                    challenge_key(encode_utf8(self.password@)),
                    challenge@.subrange(8 * j, 8 * j + 8),
                ),
    {
        encrypt_challenge(challenge, self.password.as_str().as_bytes())
    }
}

/// Reads the security result behind the answer to a challenge.
pub fn read_vnc_result(status: u32) -> (r: Result<(), VncError>)
    ensures
        r is Ok <==> status == 0,
        r matches Err(e) ==> e@ == Failure::AuthFailed("Invalid password"@),
{
    if status != 0 {
        return Err(refused("Invalid password"));
    }
    Ok(())
}

} // verus!
