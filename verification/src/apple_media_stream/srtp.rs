//! SRTP and SRTCP protection: AES-256 in counter mode with HMAC-SHA1-80, and
//! the derivation of their keys.

use std::collections::HashMap;
use vstd::prelude::*;

use crate::apple_media::offer::SRTP_KEY_BLOB_LEN;
use crate::crypto::{aes256_enciphered, aes256_encrypt_block, hmac_sha1, hmac_sha1_of};
use crate::wire::{
    be32, be_bytes, be_nat, lemma_be_bytes, lemma_be_nat_bound, push_all, push_u16, push_u32, same,
    slice, to_vec, u16_at, u16_of, u32_at, u32_of,
};

verus! {

/// Two to the power 128.
pub open spec fn two_128() -> nat {
    0x1_0000_0000_0000_0000_0000_0000_0000_0000nat
}

/// The counter block `k` steps after `iv`.
pub open spec fn counter_block(iv: Seq<u8>, k: nat) -> Seq<u8> {
    be_bytes((be_nat(iv) + k) % two_128(), 16)
}

/// The first `n` bytes of the AES-256 key stream that starts at `iv`.
pub open spec fn keystream(key: Seq<u8>, iv: Seq<u8>, n: nat) -> Seq<u8> {
    Seq::new(n, |i: int| aes256_enciphered(key, counter_block(iv, (i / 16) as nat))[i % 16])
}

/// `data` combined byte by byte with `stream`.
pub open spec fn xored(data: Seq<u8>, stream: Seq<u8>) -> Seq<u8> {
    Seq::new(data.len(), |i: int| data[i] ^ stream[i])
}

/// AES-256 in counter mode.
pub open spec fn aes_ctr(key: Seq<u8>, iv: Seq<u8>, data: Seq<u8>) -> Seq<u8> {
    xored(data, keystream(key, iv, data.len()))
}

/// The initial counter of the key derivation with label `label`.
pub open spec fn kdf_iv(salt: Seq<u8>, label: u8) -> Seq<u8> {
    Seq::new(
        16,
        |i: int|
            if i == 7 {
                salt[7] ^ label
            } else if i < 14 {
                salt[i]
            } else {
                0u8
            },
    )
}

/// `n` bytes of key material derived from a master key and salt.
pub open spec fn derived(key: Seq<u8>, salt: Seq<u8>, label: u8, n: nat) -> Seq<u8> {
    keystream(key, kdf_iv(salt, label), n)
}

/// The master key in a key blob.
pub open spec fn blob_key(blob: Seq<u8>) -> Seq<u8> {
    blob.subrange(0, 32)
}

/// The master salt in a key blob.
pub open spec fn blob_salt(blob: Seq<u8>) -> Seq<u8> {
    blob.subrange(32, 46)
}

/// The first `n` bytes of HMAC-SHA1, or all twenty.
pub open spec fn tag(key: Seq<u8>, data: Seq<u8>, n: nat) -> Seq<u8> {
    Seq::new(
        if n < 20 {
            n
        } else {
            20
        },
        |i: int| hmac_sha1_of(key, data)[i],
    )
}

pub(crate) proof fn lemma_pow256_16()
    ensures
        vstd::arithmetic::power::pow(256, 16) == two_128(),
{
    vstd::arithmetic::power::lemma_pow_adds(256, 8, 8);
    assert(vstd::arithmetic::power::pow(256, 8) == 0x1_0000_0000_0000_0000) by {
        reveal_with_fuel(vstd::arithmetic::power::pow, 9);
    }
    assert(0x1_0000_0000_0000_0000int * 0x1_0000_0000_0000_0000int == two_128() as int)
        by (nonlinear_arith);
}

proof fn lemma_pow256_le(n: nat)
    requires
        n < 16,
    ensures
        vstd::arithmetic::power::pow(256, n) * 256 <= two_128(),
{
    lemma_pow256_16();
    broadcast use vstd::arithmetic::power::lemma_pow1;

    vstd::arithmetic::power::lemma_pow_adds(256, n, 1);
    vstd::arithmetic::power::lemma_pow_increases(256, n + 1, 16);
}

/// The number that sixteen bytes encode.
fn block_number(block: &[u8]) -> (r: u128)
    requires
        block@.len() == 16,
    ensures
        r == be_nat(block@),
{
    let mut v: u128 = 0;
    let mut i: usize = 0;
    while i < 16
        invariant
            i <= 16,
            block@.len() == 16,
            v == be_nat(block@.take(i as int)),
        decreases 16 - i,
    {
        proof {
            let s = block@.take(i as int);
            lemma_be_nat_bound(s);
            lemma_pow256_le(i as nat);
            assert(block@.take(i + 1).drop_last() =~= s);
        }
        v = v * 256 + block[i] as u128;
        i = i + 1;
    }
    assert(block@.take(16) =~= block@);
    v
}

/// The sixteen bytes that encode `v`.
fn number_block(v: u128) -> (r: Vec<u8>)
    ensures
        r@ == be_bytes(v as nat, 16),
        r@.len() == 16,
{
    let mut r: Vec<u8> = Vec::new();
    push_number(&mut r, v, 16);
    proof {
        lemma_be_bytes(v as nat, 16);
    }
    assert(r@ =~= be_bytes(v as nat, 16));
    r
}

fn push_number(out: &mut Vec<u8>, v: u128, n: usize)
    requires
        n <= 16,
    ensures
        final(out)@ == old(out)@ + be_bytes(v as nat, n as nat),
    decreases n,
{
    if n > 0 {
        push_number(out, v / 256, n - 1);
        out.push((v % 256) as u8);
    }
    assert(out@ =~= old(out)@ + be_bytes(v as nat, n as nat));
}

/// Produces the first `n` bytes of the key stream that starts at `iv`.
fn generate_keystream(key: &[u8], iv: &[u8], n: usize) -> (out: Vec<u8>)
    requires
        key@.len() == 32,
        iv@.len() == 16,
    ensures
        out@ == keystream(key@, iv@, n as nat),
{
    let start: u128 = block_number(iv);
    let mut counter: u128 = start;
    let mut out: Vec<u8> = Vec::new();
    let ghost mut blocks: nat = 0;
    while out.len() < n
        invariant
            key@.len() == 32,
            start == be_nat(iv@),
            counter == (start + blocks) % (two_128() as int),
            out@.len() <= n,
            out@.len() == n || out@.len() == 16 * blocks,
            forall|i: int|
                0 <= i < out@.len() ==> out@[i] == aes256_enciphered(
                    key@,
                    counter_block(iv@, (i / 16) as nat),
                )[i % 16],
        decreases n - out@.len(),
    {
        let block = number_block(counter);
        let e = aes256_encrypt_block(key, &block);
        assert(block@ == counter_block(iv@, blocks));
        let base: usize = out.len();
        let room: usize = n - base;
        let take: usize = if room < 16 {
            room
        } else {
            16
        };
        let mut j: usize = 0;
        while j < take
            invariant
                j <= take <= 16,
                e@.len() == 16,
                base == 16 * blocks,
                out@.len() == base + j,
                e@ == aes256_enciphered(key@, counter_block(iv@, blocks)),
                forall|i: int|
                    0 <= i < out@.len() ==> out@[i] == aes256_enciphered(
                        key@,
                        counter_block(iv@, (i / 16) as nat),
                    )[i % 16],
            decreases take - j,
        {
            proof {
                let i = base + j;
                assert(i / 16 == blocks && i % 16 == j);
            }
            out.push(e[j]);
            j = j + 1;
        }
        counter = counter.wrapping_add(1);
        proof {
            lemma_step(start as int, blocks);
            blocks = blocks + 1;
        }
    }
    assert(out@ =~= keystream(key@, iv@, n as nat));
    out
}

proof fn lemma_step(start: int, k: nat)
    requires
        0 <= start < two_128(),
    ensures
        (start + (k + 1)) % (two_128() as int) == if (start + k) % (two_128() as int) + 1
            == two_128() {
            0
        } else {
            (start + k) % (two_128() as int) + 1
        },
{
    let m = two_128() as int;
    let r = (start + k) % m;
    let q = (start + k) / m;
    vstd::arithmetic::div_mod::lemma_fundamental_div_mod(start + k, m);
    if r + 1 == m {
        assert(start + k + 1 == m * (q + 1)) by (nonlinear_arith)
            requires
                start + k == m * q + r,
                r + 1 == m,
        ;
        vstd::arithmetic::div_mod::lemma_fundamental_div_mod_converse(start + k + 1, m, q + 1, 0);
    } else {
        vstd::arithmetic::div_mod::lemma_fundamental_div_mod_converse(start + k + 1, m, q, r + 1);
    }
}

/// Applies AES-256 in counter mode to `data`.
pub fn aes_ctr_apply(key: &[u8; 32], iv: &[u8; 16], data: &[u8]) -> (out: Vec<u8>)
    ensures
        out@ == aes_ctr(key@, iv@, data@),
{
    let stream = generate_keystream(key, iv, data.len());
    let mut out: Vec<u8> = Vec::new();
    let mut i: usize = 0;
    while i < data.len()
        invariant
            i <= data@.len(),
            stream@ == keystream(key@, iv@, data@.len()),
            out@.len() == i,
            forall|j: int| 0 <= j < i ==> out@[j] == data@[j] ^ stream@[j],
        decreases data@.len() - i,
    {
        out.push(data[i] ^ stream[i]);
        i = i + 1;
    }
    assert(out@ =~= aes_ctr(key@, iv@, data@));
    out
}

/// Applying counter mode twice under the same key and counter gives the data
/// back.
pub proof fn lemma_ctr_round_trip(key: Seq<u8>, iv: Seq<u8>, data: Seq<u8>)
    ensures
        aes_ctr(key, iv, aes_ctr(key, iv, data)) == data,
{
    let stream = keystream(key, iv, data.len());
    assert forall|i: int| 0 <= i < data.len() implies (data[i] ^ stream[i]) ^ stream[i]
        == data[i] by {
        let a = data[i];
        let b = stream[i];
        assert((a ^ b) ^ b == a) by (bit_vector);
    }
    assert(aes_ctr(key, iv, aes_ctr(key, iv, data)) =~= data);
}

/// Derives `out_len` bytes of key material.
pub fn srtp_kdf(master_key: &[u8; 32], master_salt: &[u8; 14], label: u8, out_len: usize) -> (out:
    Vec<u8>)
    ensures
        out@ == derived(master_key@, master_salt@, label, out_len as nat),
        out@.len() == out_len,
{
    let mut iv: Vec<u8> = Vec::new();
    let mut i: usize = 0;
    while i < 16
        invariant
            i <= 16,
            iv@.len() == i,
            forall|j: int| 0 <= j < i ==> iv@[j] == kdf_iv(master_salt@, label)[j],
        decreases 16 - i,
    {
        if i == 7 {
            iv.push(master_salt[7] ^ label);
        } else if i < 14 {
            iv.push(master_salt[i]);
        } else {
            iv.push(0);
        }
        i = i + 1;
    }
    assert(iv@ =~= kdf_iv(master_salt@, label));
    generate_keystream(master_key, &iv, out_len)
}

/// The first `len` bytes of HMAC-SHA1, or all twenty if `len` is larger.
pub fn hmac_sha1_trunc(key: &[u8], data: &[u8], len: usize) -> (r: Vec<u8>)
    ensures
        r@ == tag(key@, data@, len as nat),
        r@.len() == if len < 20 {
            len
        } else {
            20
        },
{
    let full = hmac_sha1(key, data);
    let n: usize = if len < 20 {
        len
    } else {
        20
    };
    let r = to_vec(slice(&full, 0, n));
    assert(r@ =~= tag(key@, data@, len as nat));
    r
}

fn array_32(s: &[u8]) -> (r: [u8; 32])
    requires
        s@.len() == 32,
    ensures
        r@ == s@,
{
    let mut r: [u8; 32] = [0u8; 32];
    let mut i: usize = 0;
    while i < 32
        invariant
            i <= 32,
            s@.len() == 32,
            forall|j: int| 0 <= j < i ==> r@[j] == s@[j],
        decreases 32 - i,
    {
        r[i] = s[i];
        i = i + 1;
    }
    assert(r@ =~= s@);
    r
}

fn array_20(s: &[u8]) -> (r: [u8; 20])
    requires
        s@.len() == 20,
    ensures
        r@ == s@,
{
    let mut r: [u8; 20] = [0u8; 20];
    let mut i: usize = 0;
    while i < 20
        invariant
            i <= 20,
            s@.len() == 20,
            forall|j: int| 0 <= j < i ==> r@[j] == s@[j],
        decreases 20 - i,
    {
        r[i] = s[i];
        i = i + 1;
    }
    assert(r@ =~= s@);
    r
}

fn array_14(s: &[u8]) -> (r: [u8; 14])
    requires
        s@.len() == 14,
    ensures
        r@ == s@,
{
    let mut r: [u8; 14] = [0u8; 14];
    let mut i: usize = 0;
    while i < 14
        invariant
            i <= 14,
            s@.len() == 14,
            forall|j: int| 0 <= j < i ==> r@[j] == s@[j],
        decreases 14 - i,
    {
        r[i] = s[i];
        i = i + 1;
    }
    assert(r@ =~= s@);
    r
}

fn array_16(s: &[u8]) -> (r: [u8; 16])
    requires
        s@.len() == 16,
    ensures
        r@ == s@,
{
    let mut r: [u8; 16] = [0u8; 16];
    let mut i: usize = 0;
    while i < 16
        invariant
            i <= 16,
            s@.len() == 16,
            forall|j: int| 0 <= j < i ==> r@[j] == s@[j],
        decreases 16 - i,
    {
        r[i] = s[i];
        i = i + 1;
    }
    assert(r@ =~= s@);
    r
}

/// Splits a key blob into the master key and the master salt.
pub fn split_blob(blob: &[u8; 46]) -> (r: ([u8; 32], [u8; 14]))
    ensures
        r.0@ == blob_key(blob@),
        r.1@ == blob_salt(blob@),
{
    (array_32(slice(blob, 0, 32)), array_14(slice(blob, 32, SRTP_KEY_BLOB_LEN)))
}

/// The salt as a 128-bit number, two zero bytes behind it.
pub open spec fn salt_number(salt: Seq<u8>) -> u128 {
    be_nat(salt + seq![0u8, 0u8]) as u128
}

/// The salt as a 128-bit number.
pub fn salt_int(salt: &[u8; 14]) -> (r: u128)
    ensures
        r == salt_number(salt@),
{
    let mut bytes = to_vec(salt);
    bytes.push(0);
    bytes.push(0);
    assert(bytes@ =~= salt@ + seq![0u8, 0u8]);
    block_number(&bytes)
}

// ---------------------------------------------------------------------------
// SRTP
// ---------------------------------------------------------------------------

/// Where the sequence numbers of one source have got to.
#[derive(Clone, Copy, PartialEq, Eq, Structural)]
pub struct SsrcState {
    /// How often the sequence number has wrapped.
    pub roc: u32,
    /// The highest sequence number seen since.
    pub max_seq: u16,
}

/// The initial counter of one RTP packet.
pub open spec fn srtp_iv(salt_int: u128, ssrc: u32, roc: u32, seq: u16) -> Seq<u8> {
    let index = ((roc as u128) << 16) | (seq as u128);
    be_bytes((salt_int ^ ((ssrc as u128) << 64) ^ (index << 16)) as nat, 16)
}

fn packet_iv(salt_int: u128, ssrc: u32, roc: u32, seq: u16) -> (r: [u8; 16])
    ensures
        r@ == srtp_iv(salt_int, ssrc, roc, seq),
{
    let index: u128 = ((roc as u128) << 16) | (seq as u128);
    let iv: u128 = salt_int ^ ((ssrc as u128) << 64) ^ (index << 16);
    array_16(&number_block(iv))
}

/// The length of the RTP header at the start of `pkt`, whose body is `body_len`
/// bytes long: twelve bytes, the contributing sources, and the extension.
pub open spec fn header_len(pkt: Seq<u8>, body_len: int) -> Option<int> {
    let fixed = 12 + (pkt[0] % 16) * 4;
    if body_len < 12 {
        None
    } else if pkt[0] / 16 % 2 == 0 {
        if fixed > body_len {
            None
        } else {
            Some(fixed)
        }
    } else if fixed + 4 > body_len {
        None
    } else {
        let len = fixed + 4 + u16_of(pkt, fixed + 2) * 4;
        if len > body_len {
            None
        } else {
            Some(len)
        }
    }
}

/// The rollover counter to try first for a packet with sequence number `seq`.
pub open spec fn guessed_roc(state: Option<SsrcState>, seq: u16) -> u32 {
    match state {
        None => 0,
        Some(s) => if seq - s.max_seq > 0x7fff {
            lower(s.roc)
        } else if seq - s.max_seq < -0x7fff {
            higher(s.roc)
        } else {
            s.roc
        },
    }
}

/// One less, but not below zero.
pub open spec fn lower(v: u32) -> u32 {
    if v == 0 {
        0
    } else {
        (v - 1) as u32
    }
}

/// One more, but not above the maximum.
pub open spec fn higher(v: u32) -> u32 {
    if v == u32::MAX {
        v
    } else {
        (v + 1) as u32
    }
}

/// The rollover counters tried for a packet, in order.
pub open spec fn roc_candidates(state: Option<SsrcState>, seq: u16) -> Seq<u32> {
    let guess = guessed_roc(state, seq);
    let current = match state {
        None => 0,
        Some(s) => s.roc,
    };
    seq![guess, current, higher(guess), lower(guess)]
}

/// Whether the tag of `pkt` authenticates its body under rollover counter
/// `roc`.
pub open spec fn authentic(auth_key: Seq<u8>, pkt: Seq<u8>, roc: u32) -> bool {
    let body_len = pkt.len() - 10;
    pkt.subrange(body_len, pkt.len() as int) == tag(
        auth_key,
        pkt.subrange(0, body_len) + be32(roc),
        10,
    )
}

/// The first of `rocs` from number `i` on under which `pkt` is authentic.
pub open spec fn matching_roc(
    auth_key: Seq<u8>,
    pkt: Seq<u8>,
    rocs: Seq<u32>,
    i: int,
) -> Option<u32>
    decreases rocs.len() - i,
{
    if !(0 <= i < rocs.len()) {
        None
    } else if authentic(auth_key, pkt, rocs[i]) {
        Some(rocs[i])
    } else {
        matching_roc(auth_key, pkt, rocs, i + 1)
    }
}

/// The states after a packet was accepted: a source only ever moves forward.
pub open spec fn advanced(
    states: Map<u64, SsrcState>,
    ssrc: u32,
    roc: u32,
    seq: u16,
) -> Map<u64, SsrcState> {
    let key = ssrc as u64;
    let next = SsrcState { roc, max_seq: seq };
    if !states.contains_key(key) {
        states.insert(key, next)
    } else if roc * 0x1_0000 + seq > states[key].roc * 0x1_0000 + states[key].max_seq {
        states.insert(key, next)
    } else {
        states
    }
}

/// The state of source `ssrc`.
pub open spec fn state_of(states: Map<u64, SsrcState>, ssrc: u32) -> Option<SsrcState> {
    if states.contains_key(ssrc as u64) {
        Some(states[ssrc as u64])
    } else {
        None
    }
}

/// The receiving side of an SRTP session.
pub struct SrtpSession {
    pub cipher_key: Seq<u8>,
    pub auth_key: Seq<u8>,
    pub salt_int: u128,
    /// What is known of each source.
    pub states: Map<u64, SsrcState>,
}

impl SrtpSession {
    /// The session of a master key blob, before any packet.
    pub open spec fn of_blob(blob: Seq<u8>) -> SrtpSession {
        SrtpSession {
            cipher_key: derived(blob_key(blob), blob_salt(blob), 0, 32),
            auth_key: derived(blob_key(blob), blob_salt(blob), 1, 20),
            salt_int: salt_number(derived(blob_key(blob), blob_salt(blob), 2, 14)),
            states: Map::empty(),
        }
    }

    /// The rollover counter under which `pkt` is accepted.
    pub open spec fn accepted_roc(self, pkt: Seq<u8>) -> Option<u32> {
        if pkt.len() < 22 {
            None
        } else {
            matching_roc(
                self.auth_key,
                pkt,
                roc_candidates(state_of(self.states, u32_of(pkt, 8)), u16_of(pkt, 2)),
                0,
            )
        }
    }

    /// The header and payload of `pkt`, with the rollover counter it was
    /// accepted under.
    pub open spec fn opened(self, pkt: Seq<u8>) -> Option<(u32, Seq<u8>, Seq<u8>)> {
        match self.accepted_roc(pkt) {
            None => None,
            Some(roc) => match header_len(pkt, pkt.len() - 10) {
                None => None,
                Some(h) => Some(
                    (
                        roc,
                        pkt.subrange(0, h),
                        aes_ctr(
                            self.cipher_key,
                            srtp_iv(self.salt_int, u32_of(pkt, 8), roc, u16_of(pkt, 2)),
                            pkt.subrange(h, pkt.len() - 10),
                        ),
                    ),
                ),
            },
        }
    }

    /// The session after `pkt` has been received.
    pub open spec fn after(self, pkt: Seq<u8>) -> SrtpSession {
        match self.opened(pkt) {
            None => self,
            Some((roc, header, payload)) => SrtpSession {
                states: advanced(self.states, u32_of(pkt, 8), roc, u16_of(pkt, 2)),
                ..self
            },
        }
    }
}

/// Removes SRTP protection from incoming RTP packets.
pub struct SrtpDecryptor {
    cipher_key: [u8; 32],
    auth_key: [u8; 20],
    salt_int: u128,
    states: HashMap<u64, SsrcState>,
}

impl View for SrtpDecryptor {
    type V = SrtpSession;

    closed spec fn view(&self) -> SrtpSession {
        SrtpSession {
            cipher_key: self.cipher_key@,
            auth_key: self.auth_key@,
            salt_int: self.salt_int,
            states: self.states@,
        }
    }
}

impl SrtpDecryptor {
    /// A decryptor with the given session keys that has seen nothing yet.
    pub fn from_keys(cipher_key: [u8; 32], auth_key: [u8; 20], salt: &[u8; 14]) -> (r:
        SrtpDecryptor)
        ensures
            r@ == (SrtpSession {
                cipher_key: cipher_key@,
                auth_key: auth_key@,
                salt_int: salt_number(salt@),
                states: Map::empty(),
            }),
    {
        SrtpDecryptor { cipher_key, auth_key, salt_int: salt_int(salt), states: HashMap::new() }
    }

    /// A decryptor for the master key blob `blob`.
    pub fn from_blob(blob: &[u8; 46]) -> (r: SrtpDecryptor)
        ensures
            r@ == SrtpSession::of_blob(blob@),
    {
        let (key, salt) = split_blob(blob);
        let cipher_key = array_32(&srtp_kdf(&key, &salt, 0, 32));
        let auth_key = array_20(&srtp_kdf(&key, &salt, 1, 20));
        let session_salt = array_14(&srtp_kdf(&key, &salt, 2, 14));
        SrtpDecryptor::from_keys(cipher_key, auth_key, &session_salt)
    }

    fn verify_auth(&self, pkt: &[u8], roc: u32) -> (r: bool)
        requires
            pkt@.len() >= 10,
        ensures
            r == authentic(self.auth_key@, pkt@, roc),
    {
        let body_len: usize = pkt.len() - 10;
        let mut auth_data = to_vec(slice(pkt, 0, body_len));
        push_u32(&mut auth_data, roc);
        let t = hmac_sha1_trunc(&self.auth_key, &auth_data, 10);
        same(slice(pkt, body_len, pkt.len()), &t)
    }

    fn update_state(&mut self, ssrc: u32, roc: u32, seq: u16)
        ensures
            final(self)@ == (SrtpSession {
                states: advanced(old(self)@.states, ssrc, roc, seq),
                ..old(self)@
            }),
    {
        let next = SsrcState { roc, max_seq: seq };
        let forward: bool = match self.states.get(&(ssrc as u64)) {
            None => true,
            Some(s) => {
                let new_full: u64 = (roc as u64) * 0x1_0000 + seq as u64;
                let cur_full: u64 = (s.roc as u64) * 0x1_0000 + s.max_seq as u64;
                new_full > cur_full
            },
        };
        if forward {
            self.states.insert(ssrc as u64, next);
        }
    }

    /// Checks and decrypts an SRTP packet. Returns the RTP header and the
    /// payload, or `None` if the packet is too short, not authentic or its
    /// header does not fit.
    pub fn decrypt(&mut self, pkt: &[u8]) -> (r: Option<(Vec<u8>, Vec<u8>)>)
        ensures
            final(self)@ == old(self)@.after(pkt@),
            match old(self)@.opened(pkt@) {
                Some((roc, header, payload)) => r matches Some((h, p)) && h@ == header && p@
                    == payload,
                None => r is None,
            },
    {
        if pkt.len() < 22 {
            return None;
        }
        let body_len: usize = pkt.len() - 10;
        let seq: u16 = u16_at(pkt, 2);
        let ssrc: u32 = u32_at(pkt, 8);
        let state: Option<SsrcState> = match self.states.get(&(ssrc as u64)) {
            Some(s) => Some(*s),
            None => None,
        };
        let guess: u32 = match state {
            None => 0,
            Some(s) => {
                let diff: i32 = seq as i32 - s.max_seq as i32;
                if diff > 0x7fff {
                    s.roc.saturating_sub(1)
                } else if diff < -0x7fff {
                    s.roc.saturating_add(1)
                } else {
                    s.roc
                }
            },
        };
        let current: u32 = match state {
            None => 0,
            Some(s) => s.roc,
        };
        let rocs: [u32; 4] = [guess, current, guess.saturating_add(1), guess.saturating_sub(1)];
        assert(rocs@ =~= roc_candidates(state_of(self@.states, ssrc), seq));
        let mut i: usize = 0;
        while i < 4
            invariant
                i <= 4,
                pkt@.len() >= 22,
                *self == *old(self),
                body_len == pkt@.len() - 10,
                seq == u16_of(pkt@, 2),
                ssrc == u32_of(pkt@, 8),
                rocs@ == roc_candidates(state_of(self@.states, ssrc), seq),
                old(self)@.accepted_roc(pkt@) == matching_roc(
                    self.auth_key@,
                    pkt@,
                    rocs@,
                    i as int,
                ),
            decreases 4 - i,
        {
            let roc: u32 = rocs[i];
            if self.verify_auth(pkt, roc) {
                let h: usize = match rtp_header_len(pkt, body_len) {
                    None => {
                        return None;
                    },
                    Some(h) => h,
                };
                let header = to_vec(slice(pkt, 0, h));
                let iv = packet_iv(self.salt_int, ssrc, roc, seq);
                let payload = aes_ctr_apply(&self.cipher_key, &iv, slice(pkt, h, body_len));
                self.update_state(ssrc, roc, seq);
                return Some((header, payload));
            }
            i = i + 1;
        }
        None
    }

    /// The rollover counter and highest sequence number of each of `ssrcs` that
    /// has been heard from, in their order.
    pub fn ssrc_stats(&self, ssrcs: &[u32]) -> (r: Vec<(u32, u32, u16)>)
        ensures
            r@ == stats_of(self@.states, ssrcs@),
    {
        let mut r: Vec<(u32, u32, u16)> = Vec::new();
        let mut i: usize = 0;
        while i < ssrcs.len()
            invariant
                i <= ssrcs@.len(),
                r@ == stats_of(self@.states, ssrcs@.take(i as int)),
            decreases ssrcs@.len() - i,
        {
            assert(ssrcs@.take(i + 1).drop_last() =~= ssrcs@.take(i as int));
            if let Some(s) = self.states.get(&(ssrcs[i] as u64)) {
                r.push((ssrcs[i], s.roc, s.max_seq));
            }
            i = i + 1;
        }
        assert(ssrcs@.take(i as int) =~= ssrcs@);
        r
    }
}

/// The statistics reported for `ssrcs`.
pub open spec fn stats_of(states: Map<u64, SsrcState>, ssrcs: Seq<u32>) -> Seq<(u32, u32, u16)>
    decreases ssrcs.len(),
{
    if ssrcs.len() == 0 {
        Seq::empty()
    } else {
        let front = stats_of(states, ssrcs.drop_last());
        match state_of(states, ssrcs.last()) {
            Some(s) => front.push((ssrcs.last(), s.roc, s.max_seq)),
            None => front,
        }
    }
}

fn rtp_header_len(pkt: &[u8], body_len: usize) -> (r: Option<usize>)
    requires
        body_len <= pkt@.len(),
        pkt@.len() >= 1,
    ensures
        match header_len(pkt@, body_len as int) {
            Some(h) => r == Some(h as usize) && 12 <= h <= body_len,
            None => r is None,
        },
{
    if body_len < 12 {
        return None;
    }
    let fixed: usize = 12 + ((pkt[0] % 16) as usize) * 4;
    if pkt[0] / 16 % 2 == 0 {
        if fixed > body_len {
            return None;
        }
        return Some(fixed);
    }
    if fixed + 4 > body_len {
        return None;
    }
    let len: usize = fixed + 4 + (u16_at(pkt, fixed + 2) as usize) * 4;
    if len > body_len {
        return None;
    }
    Some(len)
}

/// An RTP packet with payload type `pt` under SRTP protection.
pub open spec fn srtp_sealed(
    cipher_key: Seq<u8>,
    auth_key: Seq<u8>,
    salt_int: u128,
    ssrc: u32,
    roc: u32,
    seq: u16,
    pt: u8,
    payload: Seq<u8>,
) -> Seq<u8> {
    let body = rtp_header(pt, seq, ssrc) + aes_ctr(
        cipher_key,
        srtp_iv(salt_int, ssrc, roc, seq),
        payload,
    );
    body + tag(auth_key, body + be32(roc), 10)
}

/// A twelve-byte RTP header with a zero timestamp.
pub open spec fn rtp_header(pt: u8, seq: u16, ssrc: u32) -> Seq<u8> {
    seq![0x80u8, pt] + crate::wire::be16(seq) + be32(0) + be32(ssrc)
}

/// Protects outgoing RTP packets.
pub struct SrtpEncryptor {
    pub cipher_key: [u8; 32],
    pub auth_key: [u8; 20],
    pub salt_int: u128,
    pub ssrc: u32,
    /// The sequence number of the next packet.
    pub seq: u16,
    /// How often the sequence number has wrapped.
    pub roc: u32,
}

impl SrtpEncryptor {
    /// The encryptor after one more packet: the rollover counter steps on the
    /// packet that uses the last sequence number.
    pub open spec fn stepped(self) -> SrtpEncryptor {
        if self.seq == 0xffff {
            SrtpEncryptor {
                seq: 0,
                roc: if self.roc == u32::MAX {
                    0u32
                } else {
                    (self.roc + 1) as u32
                },
                ..self
            }
        } else {
            SrtpEncryptor { seq: (self.seq + 1) as u16, ..self }
        }
    }

    /// The packet the encryptor makes of `payload`.
    pub open spec fn packet(self, payload: Seq<u8>, pt: u8) -> Seq<u8> {
        srtp_sealed(
            self.cipher_key@,
            self.auth_key@,
            self.salt_int,
            self.ssrc,
            self.stepped().roc,
            self.seq,
            pt,
            payload,
        )
    }

    /// Whether the keys are those of the master key blob `blob`.
    pub open spec fn of_blob(self, blob: Seq<u8>) -> bool {
        &&& self.cipher_key@ == derived(blob_key(blob), blob_salt(blob), 0, 32)
        &&& self.auth_key@ == derived(blob_key(blob), blob_salt(blob), 1, 20)
        &&& self.salt_int == salt_number(derived(blob_key(blob), blob_salt(blob), 2, 14))
    }

    /// An encryptor for the master key blob `blob`.
    pub fn from_blob(blob: &[u8; 46], ssrc: u32) -> (r: SrtpEncryptor)
        ensures
            r.of_blob(blob@),
            r.ssrc == ssrc,
            r.seq == 0,
            r.roc == 0,
    {
        let (key, salt) = split_blob(blob);
        let session_salt = array_14(&srtp_kdf(&key, &salt, 2, 14));
        SrtpEncryptor {
            cipher_key: array_32(&srtp_kdf(&key, &salt, 0, 32)),
            auth_key: array_20(&srtp_kdf(&key, &salt, 1, 20)),
            salt_int: salt_int(&session_salt),
            ssrc,
            seq: 0,
            roc: 0,
        }
    }

    /// Builds and protects an RTP packet with payload type `pt`.
    pub fn encrypt(&mut self, payload: &[u8], pt: u8) -> (pkt: Vec<u8>)
        ensures
            *final(self) == old(self).stepped(),
            pkt@ == old(self).packet(payload@, pt),
    {
        let seq: u16 = self.seq;
        self.seq = self.seq.wrapping_add(1);
        if self.seq == 0 {
            self.roc = self.roc.wrapping_add(1);
        }
        let mut pkt: Vec<u8> = vec![0x80, pt];
        assert(pkt@ =~= seq![0x80u8, pt]);
        push_u16(&mut pkt, seq);
        push_u32(&mut pkt, 0);
        push_u32(&mut pkt, self.ssrc);
        let iv = packet_iv(self.salt_int, self.ssrc, self.roc, seq);
        push_all(&mut pkt, &aes_ctr_apply(&self.cipher_key, &iv, payload));
        let mut auth_data = to_vec(&pkt);
        push_u32(&mut auth_data, self.roc);
        push_all(&mut pkt, &hmac_sha1_trunc(&self.auth_key, &auth_data, 10));
        pkt
    }
}

/// Opening a packet under the keys and rollover counter it was sealed with
/// authenticates it and gives back its header and payload.
#[verifier::rlimit(30)]
pub proof fn lemma_srtp_round_trip(
    cipher_key: Seq<u8>,
    auth_key: Seq<u8>,
    salt_int: u128,
    ssrc: u32,
    roc: u32,
    seq: u16,
    pt: u8,
    payload: Seq<u8>,
)
    ensures
        ({
            let pkt = srtp_sealed(cipher_key, auth_key, salt_int, ssrc, roc, seq, pt, payload);
            &&& authentic(auth_key, pkt, roc)
            &&& header_len(pkt, pkt.len() - 10) == Some(12int)
            &&& u16_of(pkt, 2) == seq
            &&& u32_of(pkt, 8) == ssrc
            &&& pkt.subrange(0, 12) == rtp_header(pt, seq, ssrc)
            &&& aes_ctr(
                cipher_key,
                srtp_iv(salt_int, ssrc, roc, seq),
                pkt.subrange(12, pkt.len() - 10),
            ) == payload
        }),
{
    let iv = srtp_iv(salt_int, ssrc, roc, seq);
    let header = rtp_header(pt, seq, ssrc);
    let sealed = aes_ctr(cipher_key, iv, payload);
    let body = header + sealed;
    let t = tag(auth_key, body + be32(roc), 10);
    let pkt = body + t;
    assert(header.len() == 12);
    assert(pkt.subrange(0, pkt.len() - 10) =~= body);
    assert(pkt.subrange(pkt.len() - 10, pkt.len() as int) =~= t);
    assert(pkt.subrange(0, 12) =~= header);
    assert(pkt.subrange(12, pkt.len() - 10) =~= sealed);
    lemma_ctr_round_trip(cipher_key, iv, payload);
    assert(pkt[0] == 0x80);
    assert(pkt[2] == crate::wire::be16(seq)[0] && pkt[3] == crate::wire::be16(seq)[1]);
    assert(pkt[8] == be32(ssrc)[0] && pkt[9] == be32(ssrc)[1] && pkt[10] == be32(ssrc)[2]
        && pkt[11] == be32(ssrc)[3]);
}

/// Whether `header` is a whole RTP header with nothing behind it.
pub open spec fn is_header(header: Seq<u8>) -> bool {
    header.len() >= 12 && header_len(header, header.len() as int) == Some(header.len() as int)
}

impl SrtpSession {
    /// The packet with the given header and payload, protected with the keys of
    /// the session under rollover counter `roc`.
    pub open spec fn sealed(self, roc: u32, header: Seq<u8>, payload: Seq<u8>) -> Seq<u8> {
        let body = header + aes_ctr(
            self.cipher_key,
            srtp_iv(self.salt_int, u32_of(header, 8), roc, u16_of(header, 2)),
            payload,
        );
        body + tag(self.auth_key, body + be32(roc), 10)
    }

    /// A session opens what was sealed with its keys under the rollover counter
    /// that it tries first, and gives back the header and the payload.
    pub proof fn lemma_opens_sealed(self, roc: u32, header: Seq<u8>, payload: Seq<u8>)
        requires
            is_header(header),
            guessed_roc(state_of(self.states, u32_of(header, 8)), u16_of(header, 2)) == roc,
        ensures
            self.opened(self.sealed(roc, header, payload)) == Some((roc, header, payload)),
    {
        let (ssrc, seq) = (u32_of(header, 8), u16_of(header, 2));
        let iv = srtp_iv(self.salt_int, ssrc, roc, seq);
        let hidden = aes_ctr(self.cipher_key, iv, payload);
        let body = header + hidden;
        let t = tag(self.auth_key, body + be32(roc), 10);
        let pkt = body + t;
        let h = header.len() as int;
        assert(pkt == self.sealed(roc, header, payload));
        assert(pkt.subrange(0, pkt.len() - 10) =~= body);
        assert(pkt.subrange(pkt.len() - 10, pkt.len() as int) =~= t);
        assert(pkt.subrange(0, h) =~= header);
        assert(pkt.subrange(h, pkt.len() - 10) =~= hidden);
        assert forall|k: int| 0 <= k < h implies #[trigger] pkt[k] == header[k] by {}
        assert(u32_of(pkt, 8) == ssrc && u16_of(pkt, 2) == seq);
        assert(header_len(pkt, pkt.len() - 10) == Some(h));
        assert(authentic(self.auth_key, pkt, roc));
        let rocs = roc_candidates(state_of(self.states, ssrc), seq);
        assert(rocs[0] == roc);
        assert(matching_roc(self.auth_key, pkt, rocs, 0) == Some(roc));
        lemma_ctr_round_trip(self.cipher_key, iv, payload);
    }
}

/// The first packet of a source goes through: sealed under a master key blob with
/// rollover counter 0, it is opened by a new session of the same blob, with its
/// header and its payload.
pub proof fn lemma_first_packet_is_opened(blob: Seq<u8>, header: Seq<u8>, payload: Seq<u8>)
    requires
        is_header(header),
    ensures
        ({
            let session = SrtpSession::of_blob(blob);
            session.opened(session.sealed(0, header, payload)) == Some((0u32, header, payload))
        }),
{
    SrtpSession::of_blob(blob).lemma_opens_sealed(0, header, payload);
}

/// What an encryptor makes of a payload, a session of the same blob opens, as
/// long as it first tries the rollover counter that the packet was sealed under.
#[verifier::rlimit(30)]
pub proof fn lemma_encrypted_packet_is_opened(
    blob: Seq<u8>,
    sender: SrtpEncryptor,
    session: SrtpSession,
    payload: Seq<u8>,
    pt: u8,
)
    requires
        sender.of_blob(blob),
        session == (SrtpSession { states: session.states, ..SrtpSession::of_blob(blob) }),
        guessed_roc(state_of(session.states, sender.ssrc), sender.seq) == sender.stepped().roc,
    ensures
        session.opened(sender.packet(payload, pt)) == Some(
            (sender.stepped().roc, rtp_header(pt, sender.seq, sender.ssrc), payload),
        ),
{
    let header = rtp_header(pt, sender.seq, sender.ssrc);
    let roc = sender.stepped().roc;
    assert(header[0] == 0x80);
    assert(header[2] == crate::wire::be16(sender.seq)[0] && header[3] == crate::wire::be16(
        sender.seq,
    )[1]);
    assert(header[8] == be32(sender.ssrc)[0] && header[9] == be32(sender.ssrc)[1] && header[10]
        == be32(sender.ssrc)[2] && header[11] == be32(sender.ssrc)[3]);
    assert(u16_of(header, 2) == sender.seq && u32_of(header, 8) == sender.ssrc);
    session.lemma_opens_sealed(roc, header, payload);
}

// ---------------------------------------------------------------------------
// SRTCP
// ---------------------------------------------------------------------------

/// The initial counter of one RTCP packet: the salt, with the sender's SSRC
/// added into bytes 4 to 7 and the packet index into bytes 10 to 13.
pub open spec fn srtcp_iv(salt: Seq<u8>, ssrc: u32, index: u32) -> Seq<u8> {
    Seq::new(
        16,
        |i: int|
            if 4 <= i < 8 {
                salt[i] ^ be32(ssrc)[i - 4]
            } else if 10 <= i < 14 {
                salt[i] ^ be32(index)[i - 10]
            } else if i < 14 {
                salt[i]
            } else {
                0u8
            },
    )
}

fn rtcp_iv(salt: &[u8; 14], ssrc: u32, index: u32) -> (r: [u8; 16])
    ensures
        r@ == srtcp_iv(salt@, ssrc, index),
{
    let mut s: Vec<u8> = Vec::new();
    push_u32(&mut s, ssrc);
    let mut x: Vec<u8> = Vec::new();
    push_u32(&mut x, index);
    assert(s@ =~= be32(ssrc));
    assert(x@ =~= be32(index));
    let mut r: [u8; 16] = [0u8; 16];
    let mut i: usize = 0;
    while i < 14
        invariant
            i <= 14,
            s@ == be32(ssrc),
            x@ == be32(index),
            forall|j: int| 0 <= j < i ==> r@[j] == srtcp_iv(salt@, ssrc, index)[j],
            forall|j: int| i <= j < 16 ==> r@[j] == 0u8,
        decreases 14 - i,
    {
        if 4 <= i && i < 8 {
            r[i] = salt[i] ^ s[i - 4];
        } else if 10 <= i {
            r[i] = salt[i] ^ x[i - 10];
        } else {
            r[i] = salt[i];
        }
        i = i + 1;
    }
    assert(r@ =~= srtcp_iv(salt@, ssrc, index));
    r
}

/// The index word of a protected packet: the index with the encryption flag in
/// its top bit.
pub open spec fn flagged(index: u32) -> u32 {
    if index < 0x8000_0000 {
        (index + 0x8000_0000) as u32
    } else {
        index
    }
}

/// Session keys for SRTCP: cipher key, authentication key and salt.
pub struct SrtcpKeys {
    pub cipher_key: [u8; 32],
    pub auth_key: [u8; 20],
    pub salt: [u8; 14],
}

impl SrtcpKeys {
    /// The session keys of the master key blob `blob`.
    pub open spec fn of_blob(&self, blob: Seq<u8>) -> bool {
        &&& self.cipher_key@ == derived(blob_key(blob), blob_salt(blob), 3, 32)
        &&& self.auth_key@ == derived(blob_key(blob), blob_salt(blob), 4, 20)
        &&& self.salt@ == derived(blob_key(blob), blob_salt(blob), 5, 14)
    }

    fn from_blob(blob: &[u8; 46]) -> (r: SrtcpKeys)
        ensures
            r.of_blob(blob@),
    {
        let (key, salt) = split_blob(blob);
        SrtcpKeys {
            cipher_key: array_32(&srtp_kdf(&key, &salt, 3, 32)),
            auth_key: array_20(&srtp_kdf(&key, &salt, 4, 20)),
            salt: array_14(&srtp_kdf(&key, &salt, 5, 14)),
        }
    }

    /// `pkt` protected as packet number `index`. The first eight bytes stay
    /// readable.
    pub open spec fn sealed(&self, index: u32, pkt: Seq<u8>) -> Seq<u8> {
        let body = pkt.subrange(0, 8) + aes_ctr(
            self.cipher_key@,
            srtcp_iv(self.salt@, u32_of(pkt, 4), index),
            pkt.subrange(8, pkt.len() as int),
        ) + be32(flagged(index));
        body + tag(self.auth_key@, body, 10)
    }

    /// The RTCP packet inside `pkt`, if `pkt` is long enough and authentic.
    pub open spec fn unsealed(&self, pkt: Seq<u8>) -> Option<Seq<u8>> {
        let body_len = pkt.len() - 10;
        if pkt.len() < 22 || pkt.subrange(body_len, pkt.len() as int) != tag(
            self.auth_key@,
            pkt.subrange(0, body_len),
            10,
        ) {
            None
        } else {
            let word = u32_of(pkt, body_len - 4);
            let hidden = pkt.subrange(8, body_len - 4);
            Some(
                pkt.subrange(0, 8) + if word < 0x8000_0000 {
                    hidden
                } else {
                    aes_ctr(
                        self.cipher_key@,
                        srtcp_iv(self.salt@, u32_of(pkt, 4), (word - 0x8000_0000) as u32),
                        hidden,
                    )
                },
            )
        }
    }

    /// Unprotecting a protected packet gives it back, as long as the index
    /// leaves the flag bit free.
    pub proof fn lemma_srtcp_round_trip(&self, index: u32, pkt: Seq<u8>)
        requires
            pkt.len() >= 8,
            index < 0x8000_0000,
        ensures
            self.unsealed(self.sealed(index, pkt)) == Some(pkt),
    {
        let iv = srtcp_iv(self.salt@, u32_of(pkt, 4), index);
        let head = pkt.subrange(0, 8);
        let plain = pkt.subrange(8, pkt.len() as int);
        let hidden = aes_ctr(self.cipher_key@, iv, plain);
        let body = head + hidden + be32(flagged(index));
        let t = tag(self.auth_key@, body, 10);
        let sealed = body + t;
        let n = sealed.len() - 10;
        assert(body.len() == pkt.len() + 4);
        assert(sealed.subrange(0, n) =~= body);
        assert(sealed.subrange(n, sealed.len() as int) =~= t);
        assert(sealed.subrange(8, n - 4) =~= hidden);
        assert(sealed.subrange(0, 8) =~= head);
        crate::wire::lemma_u32_inside(head + hidden, flagged(index), t);
        assert(u32_of(sealed, 4) == u32_of(pkt, 4)) by {
            assert(sealed[4] == pkt[4] && sealed[5] == pkt[5] && sealed[6] == pkt[6] && sealed[7]
                == pkt[7]);
        }
        lemma_ctr_round_trip(self.cipher_key@, iv, plain);
        assert(head + plain =~= pkt);
    }
}

/// Removes SRTCP protection from incoming RTCP packets.
pub struct SrtcpDecryptor {
    pub keys: SrtcpKeys,
}

impl SrtcpDecryptor {
    /// A decryptor for the master key blob `blob`.
    pub fn from_blob(blob: &[u8; 46]) -> (r: SrtcpDecryptor)
        ensures
            r.keys.of_blob(blob@),
    {
        SrtcpDecryptor { keys: SrtcpKeys::from_blob(blob) }
    }

    /// Checks and decrypts an SRTCP packet.
    pub fn unprotect(&self, pkt: &[u8]) -> (r: Option<Vec<u8>>)
        ensures
            match self.keys.unsealed(pkt@) {
                Some(plain) => r matches Some(v) && v@ == plain,
                None => r is None,
            },
    {
        if pkt.len() < 22 {
            return None;
        }
        let body_len: usize = pkt.len() - 10;
        let expected = hmac_sha1_trunc(&self.keys.auth_key, slice(pkt, 0, body_len), 10);
        if !same(slice(pkt, body_len, pkt.len()), &expected) {
            return None;
        }
        let word: u32 = u32_at(pkt, body_len - 4);
        let hidden = slice(pkt, 8, body_len - 4);
        let mut out = to_vec(slice(pkt, 0, 8));
        if word < 0x8000_0000 {
            push_all(&mut out, hidden);
            return Some(out);
        }
        let ssrc: u32 = u32_at(pkt, 4);
        let iv = rtcp_iv(&self.keys.salt, ssrc, word - 0x8000_0000);
        push_all(&mut out, &aes_ctr_apply(&self.keys.cipher_key, &iv, hidden));
        Some(out)
    }
}

/// Protects outgoing RTCP packets.
pub struct SrtcpEncryptor {
    pub keys: SrtcpKeys,
    /// The index of the next packet.
    pub index: u32,
}

impl SrtcpEncryptor {
    /// An encryptor for the master key blob `blob`.
    pub fn from_blob(blob: &[u8; 46]) -> (r: SrtcpEncryptor)
        ensures
            r.keys.of_blob(blob@),
            r.index == 0,
    {
        SrtcpEncryptor { keys: SrtcpKeys::from_blob(blob), index: 0 }
    }

    /// Encrypts and authenticates an RTCP packet. A packet too short to hold a
    /// header is returned as it is.
    pub fn protect(&mut self, rtcp_pkt: &[u8]) -> (r: Vec<u8>)
        ensures
            final(self).keys == old(self).keys,
            rtcp_pkt@.len() < 8 ==> r@ == rtcp_pkt@ && final(self).index == old(self).index,
            rtcp_pkt@.len() >= 8 ==> {
                &&& r@ == old(self).keys.sealed(old(self).index, rtcp_pkt@)
                &&& final(self).index == if old(self).index == u32::MAX {
                    0u32
                } else {
                    (old(self).index + 1) as u32
                }
            },
    {
        if rtcp_pkt.len() < 8 {
            return to_vec(rtcp_pkt);
        }
        let index: u32 = self.index;
        self.index = self.index.wrapping_add(1);
        let ssrc: u32 = u32_at(rtcp_pkt, 4);
        let iv = rtcp_iv(&self.keys.salt, ssrc, index);
        let mut body = to_vec(slice(rtcp_pkt, 0, 8));
        push_all(
            &mut body,
            &aes_ctr_apply(&self.keys.cipher_key, &iv, slice(rtcp_pkt, 8, rtcp_pkt.len())),
        );
        let word: u32 = if index < 0x8000_0000 {
            index + 0x8000_0000
        } else {
            index
        };
        push_u32(&mut body, word);
        let t = hmac_sha1_trunc(&self.keys.auth_key, &body, 10);
        push_all(&mut body, &t);
        body
    }
}

} // verus!
