//! Apple high-performance encrypted record layer.
//!
//! After the initial plaintext rekey rectangle the control channel is wrapped
//! in AES-128-CBC records. Each record is:
//!
//! ```text
//! u16 BE ciphertext_len  (multiple of 16)
//! byte[ciphertext_len]   ciphertext
//! ```
//!
//! Inside the ciphertext (after CBC decryption):
//!
//! ```text
//! u16 BE body_len
//! byte[body_len] body
//! byte[filler_len] filler (zero, to make (2 + body_len + 20) a multiple of 16)
//! byte[20] integrity = SHA1(u32_be(seq) || everything before the mac)
//! ```
//!
//! Send and receive sequence counters start at zero and are never reset. Rekey
//! rectangles contain a new AES-128-CBC key/IV wrapped with the current wrap
//! key using AES-128-ECB.

pub mod layouts;

use vstd::prelude::*;
use vstd::utf8::encode_utf8;

use crate::crypto::{
    aes128_decrypt_block, aes128_deciphered, aes128_enciphered, aes128_encrypt_block, sha1_digest,
    sha1_of,
};
use crate::error::{Failure, VncError};
use crate::protocol::apple;
use crate::text::{concat_text, decimal, decimal_text};
use crate::wire::{
    be16, be32, be64, push_all, push_u16, push_u32, push_u64, push_zeros, same, slice, to_vec,
    u16_at, u16_of, zeros,
};

verus! {

// ---------------------------------------------------------------------------
// CBC
// ---------------------------------------------------------------------------

/// A block combined byte by byte with another.
pub open spec fn xor_block(a: Seq<u8>, b: Seq<u8>) -> Seq<u8> {
    Seq::new(16, |i: int| a[i] ^ b[i])
}

/// AES-128-CBC encryption of whole blocks.
pub open spec fn cbc_sealed(key: Seq<u8>, iv: Seq<u8>, plain: Seq<u8>) -> Seq<u8>
    decreases plain.len(),
{
    if plain.len() < 16 {
        Seq::empty()
    } else {
        let c = aes128_enciphered(key, xor_block(plain.take(16), iv));
        c + cbc_sealed(key, c, plain.skip(16))
    }
}

/// AES-128-CBC decryption of whole blocks.
pub open spec fn cbc_opened(key: Seq<u8>, iv: Seq<u8>, cipher: Seq<u8>) -> Seq<u8>
    decreases cipher.len(),
{
    if cipher.len() < 16 {
        Seq::empty()
    } else {
        let c = cipher.take(16);
        xor_block(aes128_deciphered(key, c), iv) + cbc_opened(key, c, cipher.skip(16))
    }
}

/// The chaining value after `cipher`: its last block.
pub open spec fn cbc_next_iv(iv: Seq<u8>, cipher: Seq<u8>) -> Seq<u8> {
    if cipher.len() < 16 {
        iv
    } else {
        cipher.skip(cipher.len() - 16)
    }
}

proof fn lemma_opened_split(key: Seq<u8>, iv: Seq<u8>, a: Seq<u8>, b: Seq<u8>)
    requires
        a.len() % 16 == 0,
    ensures
        cbc_opened(key, iv, a + b) == cbc_opened(key, iv, a) + cbc_opened(
            key,
            cbc_next_iv(iv, a),
            b,
        ),
    decreases a.len(),
{
    if a.len() == 0 {
        assert(a + b =~= b);
        assert(cbc_opened(key, iv, a) =~= Seq::<u8>::empty());
        assert(cbc_opened(key, iv, a) + cbc_opened(key, iv, b) =~= cbc_opened(key, iv, b));
    } else {
        let rest = a.skip(16);
        assert((a + b).take(16) =~= a.take(16));
        assert((a + b).skip(16) =~= rest + b);
        lemma_opened_split(key, a.take(16), rest, b);
        if rest.len() == 0 {
            assert(a.skip(a.len() - 16) =~= a.take(16));
        } else {
            assert(rest.skip(rest.len() - 16) =~= a.skip(a.len() - 16));
        }
        assert(cbc_opened(key, iv, a + b) =~= cbc_opened(key, iv, a) + cbc_opened(
            key,
            cbc_next_iv(iv, a),
            b,
        ));
    }
}

proof fn lemma_xor_twice(a: Seq<u8>, b: Seq<u8>)
    requires
        a.len() == 16,
    ensures
        xor_block(xor_block(a, b), b) == a,
{
    assert forall|i: int| 0 <= i < 16 implies (a[i] ^ b[i]) ^ b[i] == a[i] by {
        let x = a[i];
        let y = b[i];
        assert((x ^ y) ^ y == x) by (bit_vector);
    }
    assert(xor_block(xor_block(a, b), b) =~= a);
}

fn xor_16(a: &[u8], b: &[u8]) -> (r: Vec<u8>)
    requires
        a@.len() == 16,
        b@.len() == 16,
    ensures
        r@ == xor_block(a@, b@),
{
    let mut r: Vec<u8> = Vec::new();
    let mut i: usize = 0;
    while i < 16
        invariant
            i <= 16,
            a@.len() == 16,
            b@.len() == 16,
            r@.len() == i,
            forall|j: int| 0 <= j < i ==> r@[j] == a@[j] ^ b@[j],
        decreases 16 - i,
    {
        r.push(a[i] ^ b[i]);
        i = i + 1;
    }
    assert(r@ =~= xor_block(a@, b@));
    r
}

fn cbc_encrypt(key: &[u8], iv: &[u8], plain: &[u8]) -> (out: Vec<u8>)
    requires
        key@.len() == 16,
        iv@.len() == 16,
        plain@.len() % 16 == 0,
    ensures
        out@ == cbc_sealed(key@, iv@, plain@),
        out@.len() == plain@.len(),
        cbc_opened(key@, iv@, out@) == plain@,
{
    let mut out: Vec<u8> = Vec::new();
    let mut chain = to_vec(iv);
    let mut at: usize = 0;
    assert(plain@.skip(0) =~= plain@);
    assert(out@ + cbc_sealed(key@, iv@, plain@) =~= cbc_sealed(key@, iv@, plain@));
    assert(cbc_opened(key@, iv@, out@) =~= plain@.take(0));
    while at < plain.len()
        invariant
            key@.len() == 16,
            plain@.len() % 16 == 0,
            at % 16 == 0,
            at <= plain@.len(),
            out@.len() == at,
            chain@.len() == 16,
            chain@ == cbc_next_iv(iv@, out@),
            out@ + cbc_sealed(key@, chain@, plain@.skip(at as int)) == cbc_sealed(
                key@,
                iv@,
                plain@,
            ),
            cbc_opened(key@, iv@, out@) == plain@.take(at as int),
        decreases plain@.len() - at,
    {
        let block = slice(plain, at, at + 16);
        let mixed = xor_16(block, &chain);
        let c = aes128_encrypt_block(key, &mixed);
        let ghost before = out@;
        let ghost old_chain = chain@;
        push_all(&mut out, &c);
        proof {
            let rest = plain@.skip(at as int);
            assert(rest.take(16) =~= block@);
            assert(rest.skip(16) =~= plain@.skip(at + 16));
            assert(cbc_sealed(key@, old_chain, rest) == c@ + cbc_sealed(
                key@,
                c@,
                plain@.skip(at + 16),
            ));
            assert(before + (c@ + cbc_sealed(key@, c@, plain@.skip(at + 16))) =~= out@ + cbc_sealed(
                key@,
                c@,
                plain@.skip(at + 16),
            ));
            lemma_opened_split(key@, iv@, before, c@);
            assert(c@.take(16) =~= c@);
            assert(c@.skip(16) =~= Seq::<u8>::empty());
            lemma_xor_twice(block@, old_chain);
            assert(cbc_opened(key@, c@, Seq::<u8>::empty()) =~= Seq::<u8>::empty());
            assert(cbc_opened(key@, old_chain, c@) =~= block@);
            assert(plain@.take(at as int) + block@ =~= plain@.take(at + 16));
            assert(out@.skip(out@.len() - 16) =~= c@);
        }
        chain = c;
        at = at + 16;
    }
    proof {
        assert(plain@.skip(at as int).len() == 0);
        assert(out@ =~= cbc_sealed(key@, iv@, plain@));
        assert(plain@.take(at as int) =~= plain@);
    }
    out
}

fn cbc_decrypt(key: &[u8], iv: &[u8], cipher: &[u8]) -> (out: Vec<u8>)
    requires
        key@.len() == 16,
        iv@.len() == 16,
        cipher@.len() % 16 == 0,
    ensures
        out@ == cbc_opened(key@, iv@, cipher@),
        out@.len() == cipher@.len(),
{
    let mut out: Vec<u8> = Vec::new();
    let mut chain = to_vec(iv);
    let mut at: usize = 0;
    assert(cipher@.skip(0) =~= cipher@);
    assert(out@ + cbc_opened(key@, iv@, cipher@) =~= cbc_opened(key@, iv@, cipher@));
    while at < cipher.len()
        invariant
            key@.len() == 16,
            cipher@.len() % 16 == 0,
            at % 16 == 0,
            at <= cipher@.len(),
            out@.len() == at,
            chain@.len() == 16,
            out@ + cbc_opened(key@, chain@, cipher@.skip(at as int)) == cbc_opened(
                key@,
                iv@,
                cipher@,
            ),
        decreases cipher@.len() - at,
    {
        let block = slice(cipher, at, at + 16);
        let plain = xor_16(&aes128_decrypt_block(key, block), &chain);
        let ghost before = out@;
        push_all(&mut out, &plain);
        proof {
            let rest = cipher@.skip(at as int);
            assert(rest.take(16) =~= block@);
            assert(rest.skip(16) =~= cipher@.skip(at + 16));
            assert(before + (plain@ + cbc_opened(key@, block@, cipher@.skip(at + 16))) =~= out@
                + cbc_opened(key@, block@, cipher@.skip(at + 16)));
        }
        chain = to_vec(block);
        at = at + 16;
    }
    assert(cipher@.skip(at as int).len() == 0);
    assert(out@ =~= cbc_opened(key@, iv@, cipher@));
    out
}

// ---------------------------------------------------------------------------
// Records
// ---------------------------------------------------------------------------

/// The filler that makes a record with a body of `n` bytes a multiple of
/// sixteen.
pub open spec fn filler(n: nat) -> nat {
    ((16 - (2 + n + 20) % 16) % 16) as nat
}

/// A record before encryption: length, body, filler and integrity value.
pub open spec fn record_plain(seq: u32, body: Seq<u8>) -> Seq<u8> {
    let frame = be16((body.len() % 0x1_0000) as u16) + body + zeros(filler(body.len()));
    frame + sha1_of(be32(seq) + frame)
}

/// What is wrong with a record, or its body.
pub open spec fn record_body(seq: u32, plain: Seq<u8>) -> Result<Seq<u8>, Failure> {
    if plain.len() < 20 {
        Err(Failure::Io("Apple record layer plaintext too short for MAC"@))
    } else {
        let frame = plain.take(plain.len() - 20);
        let n = u16_of(frame, 0);
        if plain.skip(plain.len() - 20) != sha1_of(be32(seq) + frame) {
            Err(Failure::Io("Apple record layer integrity check failed"@))
        } else if n + 2 > frame.len() {
            Err(
                Failure::Io(
                    "Apple record layer body length "@ + decimal_text(n as nat)
                        + " exceeds plaintext "@ + decimal_text(frame.len()),
                ),
            )
        } else {
            Ok(frame.subrange(2, 2 + n))
        }
    }
}

/// Whether the integrity value of a record is right.
pub open spec fn record_intact(seq: u32, plain: Seq<u8>) -> bool {
    plain.len() >= 20 && plain.skip(plain.len() - 20) == sha1_of(
        be32(seq) + plain.take(plain.len() - 20),
    )
}

/// One more, starting over at zero behind the maximum.
pub open spec fn next_seq(v: u32) -> u32 {
    if v == u32::MAX {
        0
    } else {
        (v + 1) as u32
    }
}

/// The encrypted record layer of a session: keys, chaining values and sequence
/// counters of both directions.
#[derive(Clone, Copy)]
pub struct AppleRecordLayer {
    pub wrap_key: [u8; 16],
    /// AES-128 key of the records, also used for encrypted input events.
    pub content_key: [u8; 16],
    pub enc_iv: [u8; 16],
    pub dec_iv: [u8; 16],
    pub enc_seq: u32,
    pub dec_seq: u32,
}

/// The key and chaining value that a rekey body carries under `wrap_key`.
pub open spec fn unwrapped(wrap_key: Seq<u8>, body: Seq<u8>) -> (Seq<u8>, Seq<u8>) {
    (
        aes128_deciphered(wrap_key, body.subrange(4, 20)),
        aes128_deciphered(wrap_key, body.subrange(20, 36)),
    )
}

fn array_16(s: &[u8]) -> (r: [u8; 16])
    requires
        s@.len() == 16,
    ensures
        r@ == s@,
{
    let mut r: [u8; 16] = [0u8; 16];
    let mut i: usize = 0;
    while i < 16
        invariant
            i <= 16,
            s@.len() == 16,
            forall|j: int| 0 <= j < i ==> r@[j] == s@[j],
        decreases 16 - i,
    {
        r[i] = s[i];
        i = i + 1;
    }
    assert(r@ =~= s@);
    r
}

fn io_error(text: &str) -> (r: VncError)
    ensures
        r@ == Failure::Io(text@),
{
    VncError::Io(text.to_owned())
}

/// The length of the ciphertext that follows the two-byte record header: not
/// zero and a multiple of sixteen.
pub fn record_len(header: &[u8; 2]) -> (r: Result<usize, VncError>)
    ensures
        ({
            let n = u16_of(header@, 0);
            if n == 0 || n % 16 != 0 {
                r matches Err(e) && e@ == Failure::Io(
                    "Apple record layer invalid ciphertext length: "@ + decimal_text(n as nat),
                )
            } else {
                r == Ok::<usize, VncError>(n as usize)
            }
        }),
{
    let n: u16 = u16_at(header, 0);
    if n == 0 || n % 16 != 0 {
        let text = concat_text(
            "Apple record layer invalid ciphertext length: ",
            &decimal(n as u64),
        );
        return Err(VncError::Io(text));
    }
    Ok(n as usize)
}

impl AppleRecordLayer {
    /// A record layer at the start of a session.
    pub fn new(wrap_key: [u8; 16], key: [u8; 16], iv: [u8; 16]) -> (r: AppleRecordLayer)
        ensures
            r == (AppleRecordLayer {
                wrap_key,
                content_key: key,
                enc_iv: iv,
                dec_iv: iv,
                enc_seq: 0,
                dec_seq: 0,
            }),
    {
        AppleRecordLayer {
            wrap_key,
            content_key: key,
            enc_iv: iv,
            dec_iv: iv,
            enc_seq: 0,
            dec_seq: 0,
        }
    }

    fn unwrap_rekey(wrap_key: &[u8], rekey_body: &[u8]) -> (r: ([u8; 16], [u8; 16]))
        requires
            wrap_key@.len() == 16,
            rekey_body@.len() >= 36,
        ensures
            (r.0@, r.1@) == unwrapped(wrap_key@, rekey_body@),
    {
        let key = array_16(&aes128_decrypt_block(wrap_key, slice(rekey_body, 4, 20)));
        let iv = array_16(&aes128_decrypt_block(wrap_key, slice(rekey_body, 20, 36)));
        (key, iv)
    }

    /// Creates the record layer from the first plaintext rekey body:
    /// `u32 generation || 16-byte enc_key || 16-byte enc_iv`. `wrap_key` is the
    /// 16-byte key derived during authentication.
    pub fn new_from_rekey(wrap_key: &[u8], rekey_body: &[u8]) -> (r: Result<
        AppleRecordLayer,
        VncError,
    >)
        ensures
            if wrap_key@.len() != 16 {
                r matches Err(e) && e@ == Failure::Protocol(
                    "Apple record layer wrap key must be 16 bytes, got "@ + decimal_text(
                        wrap_key@.len(),
                    ),
                )
            } else if rekey_body@.len() != 36 {
                r matches Err(e) && e@ == Failure::Protocol(
                    "Apple rekey body must be 36 bytes, got "@ + decimal_text(rekey_body@.len()),
                )
            } else {
                &&& r matches Ok(layer)
                &&& layer.wrap_key@ == wrap_key@
                &&& layer.content_key@ == unwrapped(wrap_key@, rekey_body@).0
                &&& layer.enc_iv@ == unwrapped(wrap_key@, rekey_body@).1
                &&& layer.dec_iv == layer.enc_iv
                &&& layer.enc_seq == 0
                &&& layer.dec_seq == 0
            },
    {
        if wrap_key.len() != 16 {
            let text = concat_text(
                "Apple record layer wrap key must be 16 bytes, got ",
                &decimal(wrap_key.len() as u64),
            );
            return Err(VncError::Protocol(text));
        }
        if rekey_body.len() != 36 {
            let text = concat_text(
                "Apple rekey body must be 36 bytes, got ",
                &decimal(rekey_body.len() as u64),
            );
            return Err(VncError::Protocol(text));
        }
        let (key, iv) = AppleRecordLayer::unwrap_rekey(wrap_key, rekey_body);
        Ok(AppleRecordLayer::new(array_16(wrap_key), key, iv))
    }

    /// Applies a mid-session rekey rectangle. The new key and chaining value
    /// serve both directions, and the key becomes the wrap key of the next
    /// rekey. The sequence counters go on.
    pub fn rekey(&mut self, rekey_body: &[u8])
        requires
            rekey_body@.len() >= 36,
        ensures
            final(self).content_key@ == unwrapped(old(self).wrap_key@, rekey_body@).0,
            final(self).wrap_key == final(self).content_key,
            final(self).enc_iv@ == unwrapped(old(self).wrap_key@, rekey_body@).1,
            final(self).dec_iv == final(self).enc_iv,
            final(self).enc_seq == old(self).enc_seq,
            final(self).dec_seq == old(self).dec_seq,
    {
        let (key, iv) = AppleRecordLayer::unwrap_rekey(&self.wrap_key, rekey_body);
        self.enc_iv = iv;
        self.dec_iv = iv;
        self.wrap_key = key;
        self.content_key = key;
    }

    /// Encrypts `body` as the next record, ready to be sent. A peer with the
    /// same key, chaining value and counter reads `body` back, as long as the
    /// record fits its length field.
    #[verifier::rlimit(30)]
    pub fn write_record(&mut self, body: &[u8]) -> (out: Vec<u8>)
        requires
            body@.len() + 37 <= usize::MAX,
        ensures
            ({
                let plain = record_plain(old(self).enc_seq, body@);
                let cipher = cbc_sealed(old(self).content_key@, old(self).enc_iv@, plain);
                &&& out@ == be16((plain.len() % 0x1_0000) as u16) + cipher
                &&& plain.len() == 2 + body@.len() + filler(body@.len()) + 20
                &&& cipher.len() == plain.len()
                &&& final(self).enc_iv@ == cbc_next_iv(old(self).enc_iv@, cipher)
                &&& final(self).enc_seq == next_seq(old(self).enc_seq)
                &&& cbc_opened(old(self).content_key@, old(self).enc_iv@, cipher) == plain
                &&& body@.len() < 0x1_0000 ==> record_body(old(self).enc_seq, plain) == Ok::<
                    Seq<u8>,
                    Failure,
                >(body@)
            }),
            final(self).wrap_key == old(self).wrap_key,
            final(self).content_key == old(self).content_key,
            final(self).dec_iv == old(self).dec_iv,
            final(self).dec_seq == old(self).dec_seq,
    {
        let n: usize = body.len();
        let pad: usize = (16 - (2 + n + 20) % 16) % 16;
        let mut frame: Vec<u8> = Vec::new();
        push_u16(&mut frame, (n % 0x1_0000) as u16);
        assert(frame@ =~= be16((n % 0x1_0000) as u16));
        push_all(&mut frame, body);
        push_zeros(&mut frame, pad);
        let ghost unsigned = frame@;
        let mut signed: Vec<u8> = Vec::new();
        push_u32(&mut signed, self.enc_seq);
        push_all(&mut signed, &frame);
        assert(signed@ =~= be32(self.enc_seq) + frame@);
        let mac = sha1_digest(&signed);
        push_all(&mut frame, &mac);
        self.enc_seq = self.enc_seq.wrapping_add(1);
        let cipher = cbc_encrypt(&self.content_key, &self.enc_iv, &frame);
        self.enc_iv = array_16(slice(&cipher, cipher.len() - 16, cipher.len()));
        let mut out: Vec<u8> = Vec::new();
        push_u16(&mut out, (cipher.len() % 0x1_0000) as u16);
        push_all(&mut out, &cipher);
        proof {
            let plain = frame@;
            assert(plain == record_plain(old(self).enc_seq, body@));
            assert(plain.take(plain.len() - 20) =~= unsigned);
            assert(plain.skip(plain.len() - 20) =~= mac@);
            assert(self.enc_iv@ =~= cipher@.skip(cipher@.len() - 16));
            if n < 0x1_0000 {
                assert(unsigned[0] == be16(n as u16)[0]);
                assert(unsigned[1] == be16(n as u16)[1]);
                assert(u16_of(unsigned, 0) == n);
                assert(unsigned.subrange(2, 2 + n) =~= body@);
            }
        }
        out
    }

    /// Decrypts and checks the ciphertext of the next incoming record and
    /// returns its body. The counter only moves past an intact record.
    pub fn read_record(&mut self, ciphertext: &[u8]) -> (r: Result<Vec<u8>, VncError>)
        requires
            ciphertext@.len() % 16 == 0,
            ciphertext@.len() > 0,
        ensures
            ({
                let plain = cbc_opened(old(self).content_key@, old(self).dec_iv@, ciphertext@);
                &&& match record_body(old(self).dec_seq, plain) {
                    Ok(body) => r matches Ok(v) && v@ == body,
                    Err(f) => r matches Err(e) && e@ == f,
                }
                &&& final(self).dec_seq == if record_intact(old(self).dec_seq, plain) {
                    next_seq(old(self).dec_seq)
                } else {
                    old(self).dec_seq
                }
                &&& final(self).dec_iv@ == cbc_next_iv(old(self).dec_iv@, ciphertext@)
            }),
            final(self).wrap_key == old(self).wrap_key,
            final(self).content_key == old(self).content_key,
            final(self).enc_iv == old(self).enc_iv,
            final(self).enc_seq == old(self).enc_seq,
    {
        let plain = cbc_decrypt(&self.content_key, &self.dec_iv, ciphertext);
        assert(ciphertext@.len() == ciphertext.len());
        self.dec_iv = array_16(slice(ciphertext, ciphertext.len() - 16, ciphertext.len()));
        assert(self.dec_iv@ =~= ciphertext@.skip(ciphertext@.len() - 16));
        if plain.len() < 20 {
            return Err(io_error("Apple record layer plaintext too short for MAC"));
        }
        let cut: usize = plain.len() - 20;
        let frame = slice(&plain, 0, cut);
        let mac = slice(&plain, cut, plain.len());
        assert(frame@ =~= plain@.take(cut as int));
        assert(mac@ =~= plain@.skip(cut as int));
        let mut signed: Vec<u8> = Vec::new();
        push_u32(&mut signed, self.dec_seq);
        push_all(&mut signed, frame);
        assert(signed@ =~= be32(self.dec_seq) + frame@);
        if !same(mac, &sha1_digest(&signed)) {
            return Err(io_error("Apple record layer integrity check failed"));
        }
        self.dec_seq = self.dec_seq.wrapping_add(1);
        let n: usize = u16_at(frame, 0) as usize;
        if n + 2 > frame.len() {
            let head = concat_text("Apple record layer body length ", &decimal(n as u64));
            let middle = concat_text(&head, " exceeds plaintext ");
            return Err(VncError::Io(concat_text(&middle, &decimal(frame.len() as u64))));
        }
        Ok(to_vec(slice(frame, 2, 2 + n)))
    }

    /// Builds an encrypted key event. `key_type` and `key_code` are the
    /// keyboard type and local key code; callers that do not have them pass 0.
    pub fn build_encrypted_key_event(&self, down: bool, keysym: u32, key_type: u16, key_code: u16)
        -> (msg: Vec<u8>)
        ensures
            msg@ == seq![apple::ENCRYPTED_INPUT_EVENT, 1u8] + aes128_enciphered(
                self.content_key@,
                key_event_plain(down, keysym, key_type, key_code),
            ),
            msg@.len() == 18,
            aes128_deciphered(self.content_key@, msg@.skip(2)) == key_event_plain(
                down,
                keysym,
                key_type,
                key_code,
            ),
    {
        let mut plain: Vec<u8> = Vec::new();
        plain.push(0);
        plain.push(if down {
            1
        } else {
            0
        });
        push_u32(&mut plain, keysym);
        push_zeros(&mut plain, 6);
        push_u16(&mut plain, key_type);
        push_u16(&mut plain, key_code);
        assert(plain@ =~= key_event_plain(down, keysym, key_type, key_code));
        let block = aes128_encrypt_block(&self.content_key, &plain);
        let mut msg: Vec<u8> = vec![apple::ENCRYPTED_INPUT_EVENT, 1];
        assert(msg@ =~= seq![apple::ENCRYPTED_INPUT_EVENT, 1u8]);
        push_all(&mut msg, &block);
        assert(msg@.skip(2) =~= block@);
        msg
    }

    /// Builds an encrypted pointer event. `button_mask` has the right and
    /// middle bits swapped relative to RFB.
    pub fn build_encrypted_pointer_event(&self, button_mask: u8, x: u16, y: u16) -> (msg: Vec<u8>)
        ensures
            msg@ == seq![apple::ENCRYPTED_INPUT_EVENT, 3u8] + aes128_enciphered(
                self.content_key@,
                pointer_event_plain(button_mask, x, y),
            ),
            msg@.len() == 18,
            aes128_deciphered(self.content_key@, msg@.skip(2)) == pointer_event_plain(
                button_mask,
                x,
                y,
            ),
    {
        let mut plain: Vec<u8> = Vec::new();
        push_zeros(&mut plain, 10);
        plain.push(0xff);
        plain.push(button_mask);
        push_u16(&mut plain, x);
        push_u16(&mut plain, y);
        assert(plain@ =~= pointer_event_plain(button_mask, x, y));
        let block = aes128_encrypt_block(&self.content_key, &plain);
        let mut msg: Vec<u8> = vec![apple::ENCRYPTED_INPUT_EVENT, 3];
        assert(msg@ =~= seq![apple::ENCRYPTED_INPUT_EVENT, 3u8]);
        push_all(&mut msg, &block);
        assert(msg@.skip(2) =~= block@);
        msg
    }
}

/// The plaintext block of a key event.
pub open spec fn key_event_plain(down: bool, keysym: u32, key_type: u16, key_code: u16) -> Seq<u8> {
    seq![
        0u8,
        if down {
            1u8
        } else {
            0u8
        },
    ] + be32(keysym) + zeros(6) + be16(key_type) + be16(key_code)
}

/// The plaintext block of a pointer event.
pub open spec fn pointer_event_plain(button_mask: u8, x: u16, y: u16) -> Seq<u8> {
    zeros(10) + seq![0xffu8, button_mask] + be16(x) + be16(y)
}

// ---------------------------------------------------------------------------
// Control messages
// ---------------------------------------------------------------------------

/// The encodings announced in high-performance sessions, in order.
pub open spec fn hp_encodings() -> Seq<i32> {
    seq![
        1010i32,
        1011i32,
        1002i32,
        6i32,
        16i32,
        1104i32,
        1100i32,
        -223i32,
        1101i32,
        1105i32,
        1107i32,
        1109i32,
        1110i32,
    ]
}

/// The encodings announced in high-performance sessions, in order.
pub fn apple_hp_encodings() -> (r: Vec<i32>)
    ensures
        r@ == hp_encodings(),
{
    let r: Vec<i32> = vec![
        1010, 1011, 1002, 6, 16, 1104, 1100, -223, 1101, 1105, 1107, 1109, 1110,
    ];
    assert(r@ =~= hp_encodings());
    r
}

/// The command mask of a viewer.
pub open spec fn viewer_mask() -> Seq<u8> {
    seq![0xb0u8, 0u8, 0x0cu8, 0x03u8, 0x90u8] + zeros(5) + seq![0x40u8] + zeros(21)
}

/// A viewer info message with `extra` at its end.
pub open spec fn viewer_info(extra: Seq<u8>) -> Seq<u8> {
    seq![apple::VIEWER_INFO, 0u8] + be16(((64 + extra.len()) % 0x1_0000) as u16) + be16(1) + be32(2)
        + be32(6) + be32(1) + be32(0) + be32(15) + be32(3) + be32(0) + viewer_mask() + extra
}

/// Builds a `ViewerInfo` message. `extra` is appended after the 32-byte command
/// mask.
pub fn build_viewer_info(extra: &[u8]) -> (msg: Vec<u8>)
    ensures
        msg@ == viewer_info(extra@),
{
    let size: u16 = ((64 + extra.len() as u128) % 0x1_0000) as u16;
    let mut msg: Vec<u8> = vec![apple::VIEWER_INFO, 0];
    assert(msg@ =~= seq![apple::VIEWER_INFO, 0u8]);
    push_u16(&mut msg, size);
    push_u16(&mut msg, 1);
    push_u32(&mut msg, 2);
    push_u32(&mut msg, 6);
    push_u32(&mut msg, 1);
    push_u32(&mut msg, 0);
    push_u32(&mut msg, 15);
    push_u32(&mut msg, 3);
    push_u32(&mut msg, 0);
    let mut mask: Vec<u8> = vec![0xb0, 0, 0x0c, 0x03, 0x90];
    assert(mask@ =~= seq![0xb0u8, 0u8, 0x0cu8, 0x03u8, 0x90u8]);
    push_zeros(&mut mask, 5);
    mask.push(0x40);
    push_zeros(&mut mask, 21);
    assert(mask@ =~= viewer_mask());
    push_all(&mut msg, &mask);
    push_all(&mut msg, extra);
    msg
}

/// Builds a `SetEncryption` message that starts encryption.
pub fn build_set_encryption_command1() -> (msg: Vec<u8>)
    ensures
        msg@ == seq![apple::SET_ENCRYPTION, 0u8, 0u8, 1u8, 0u8, 1u8, 0u8, 1u8, 0u8, 0u8, 0u8, 1u8],
{
    let msg: Vec<u8> = vec![apple::SET_ENCRYPTION, 0, 0, 1, 0, 1, 0, 1, 0, 0, 0, 1];
    assert(msg@ =~= seq![
        apple::SET_ENCRYPTION, 0u8, 0u8, 1u8, 0u8, 1u8, 0u8, 1u8, 0u8, 0u8, 0u8, 1u8,
    ]);
    msg
}

/// Builds the `SetEncryption` message that follows once encryption is on.
pub fn build_post_encryption_toggle() -> (msg: Vec<u8>)
    ensures
        msg@ == seq![apple::SET_ENCRYPTION, 0u8, 0u8, 2u8, 0u8, 1u8, 0u8, 0u8],
{
    let msg: Vec<u8> = vec![apple::SET_ENCRYPTION, 0, 0, 2, 0, 1, 0, 0];
    assert(msg@ =~= seq![apple::SET_ENCRYPTION, 0u8, 0u8, 2u8, 0u8, 1u8, 0u8, 0u8]);
    msg
}

/// An `AutoFrameBufferUpdate` message.
pub open spec fn auto_framebuffer_update(screen: u32, x: u16, y: u16, w: u16, h: u16) -> Seq<u8> {
    seq![apple::AUTO_FRAMEBUFFER_UPDATE, 0u8] + be16(1) + be32(screen) + be16(x) + be16(y) + be16(w)
        + be16(h)
}

/// Builds an `AutoFrameBufferUpdate` message, which arms the server's
/// framebuffer sender.
pub fn build_auto_framebuffer_update(selected_screen: u32, x: u16, y: u16, w: u16, h: u16) -> (msg:
    Vec<u8>)
    ensures
        msg@ == auto_framebuffer_update(selected_screen, x, y, w, h),
{
    let mut msg: Vec<u8> = vec![apple::AUTO_FRAMEBUFFER_UPDATE, 0];
    assert(msg@ =~= seq![apple::AUTO_FRAMEBUFFER_UPDATE, 0u8]);
    push_u16(&mut msg, 1);
    push_u32(&mut msg, selected_screen);
    push_u16(&mut msg, x);
    push_u16(&mut msg, y);
    push_u16(&mut msg, w);
    push_u16(&mut msg, h);
    msg
}

/// Builds a `SetMode` message: 0 to observe only, 1 for normal control.
pub fn build_set_mode(mode: u16) -> (msg: Vec<u8>)
    ensures
        msg@ == seq![apple::SET_MODE, 0u8] + be16(mode),
{
    let mut msg: Vec<u8> = vec![apple::SET_MODE, 0];
    assert(msg@ =~= seq![apple::SET_MODE, 0u8]);
    push_u16(&mut msg, mode);
    msg
}

/// Builds a `ScaleFactor` message. `scale_bits` is the IEEE 754 double
/// precision representation of the factor.
pub fn build_scale_factor(scale_bits: u64) -> (msg: Vec<u8>)
    ensures
        msg@ == seq![apple::SCALE_FACTOR, 0u8] + be64(scale_bits),
{
    let mut msg: Vec<u8> = vec![apple::SCALE_FACTOR, 0];
    assert(msg@ =~= seq![apple::SCALE_FACTOR, 0u8]);
    push_u64(&mut msg, scale_bits);
    assert(msg@ =~= seq![apple::SCALE_FACTOR, 0u8] + be64(scale_bits));
    msg
}

/// Builds a `SetDisplayMessage`. With `combine_all_displays` the server selects
/// the aggregate of all displays and ignores `display_id`.
pub fn build_set_display_message(combine_all_displays: bool, display_id: u32) -> (msg: Vec<u8>)
    ensures
        msg@ == seq![
            apple::SET_DISPLAY_MESSAGE,
            if combine_all_displays {
                1u8
            } else {
                0u8
            },
        ] + be16(0) + be32(display_id),
{
    let flag: u8 = if combine_all_displays {
        1
    } else {
        0
    };
    let mut msg: Vec<u8> = vec![apple::SET_DISPLAY_MESSAGE, flag];
    assert(msg@ =~= seq![apple::SET_DISPLAY_MESSAGE, flag]);
    push_u16(&mut msg, 0);
    push_u32(&mut msg, display_id);
    msg
}

/// Builds an `AutoPasteboard` message: selector 1 starts pasteboard monitoring,
/// 2 stops it.
pub fn build_auto_pasteboard(selector: u8) -> (msg: Vec<u8>)
    ensures
        msg@ == seq![apple::AUTO_PASTEBOARD, 0u8, 0u8, 0u8, selector, 0u8, 0u8, 0u8],
{
    let msg: Vec<u8> = vec![apple::AUTO_PASTEBOARD, 0, 0, 0, selector, 0, 0, 0];
    assert(msg@ =~= seq![apple::AUTO_PASTEBOARD, 0u8, 0u8, 0u8, selector, 0u8, 0u8, 0u8]);
    msg
}

/// A `SetKeyboardInputSource` message for the identifier bytes `id`, of which
/// at most 65535 are sent.
pub open spec fn keyboard_input_source(id: Seq<u8>) -> Seq<u8> {
    let n = if id.len() <= 0xffff {
        id.len()
    } else {
        0xffff
    };
    seq![apple::SET_KEYBOARD_INPUT_SOURCE] + be16(((4 + n) % 0x1_0000) as u16) + be16(1) + be16(
        n as u16,
    ) + id.take(n as int)
}

/// Builds a `SetKeyboardInputSource` message. The identifier is truncated to
/// 65535 bytes if necessary.
pub fn build_set_keyboard_input_source(source_id: &str) -> (msg: Vec<u8>)
    ensures
        msg@ == keyboard_input_source(encode_utf8(source_id@)),
{
    let id = source_id.as_bytes();
    let n: usize = if id.len() <= 0xffff {
        id.len()
    } else {
        0xffff
    };
    let mut msg: Vec<u8> = vec![apple::SET_KEYBOARD_INPUT_SOURCE];
    assert(msg@ =~= seq![apple::SET_KEYBOARD_INPUT_SOURCE]);
    push_u16(&mut msg, ((4 + n) % 0x1_0000) as u16);
    push_u16(&mut msg, 1);
    push_u16(&mut msg, n as u16);
    push_all(&mut msg, slice(id, 0, n));
    assert(id@.subrange(0, n as int) =~= id@.take(n as int));
    msg
}

/// Builds a `ClipboardFetch` message.
pub fn build_clipboard_fetch() -> (msg: Vec<u8>)
    ensures
        msg@ == seq![apple::CLIPBOARD_FETCH],
{
    let msg: Vec<u8> = vec![apple::CLIPBOARD_FETCH];
    assert(msg@ =~= seq![apple::CLIPBOARD_FETCH]);
    msg
}

// ---------------------------------------------------------------------------
// Display configuration
// ---------------------------------------------------------------------------

/// One entry of the mode table: size in pixels and in points.
#[derive(Clone, Copy)]
pub struct DisplayMode {
    pub pixel_width: u32,
    pub pixel_height: u32,
    pub point_width: u32,
    pub point_height: u32,
}

/// The IEEE 754 representation of 60.0, the refresh rate of every mode.
pub const REFRESH_RATE_BITS: u64 = 0x404e_0000_0000_0000;

/// The IEEE 754 representation of the physical width in millimetres.
pub const PHYSICAL_WIDTH_BITS: u32 = 0x43b8_ba2f;

/// The IEEE 754 representation of the physical height in millimetres.
pub const PHYSICAL_HEIGHT_BITS: u32 = 0x434f_d174;

/// The bytes of a mode table entry.
pub open spec fn mode_entry(m: DisplayMode) -> Seq<u8> {
    be32(m.pixel_width) + be32(m.pixel_height) + be32(m.point_width) + be32(m.point_height) + be64(
        REFRESH_RATE_BITS,
    ) + be32(0)
}

/// The first `n` entries of a mode table.
pub open spec fn mode_table(modes: Seq<DisplayMode>, n: int) -> Seq<u8>
    decreases n,
{
    if n <= 0 {
        Seq::empty()
    } else {
        mode_table(modes, n - 1) + mode_entry(modes[n - 1])
    }
}

/// The part of a display configuration before the mode table.
pub open spec fn display_head(dynamic: bool, count: nat) -> Seq<u8> {
    seq![apple::SET_DISPLAY_CONFIGURATION, 0u8] + be16((8 + 0x9c + count * 28) as u16) + be16(1)
        + be16(1) + be32(0) + be16((0x9c + count * 28) as u16) + zeros(120) + be32(
        if dynamic {
            apple::DISPLAY_FLAG_DYNAMIC
        } else {
            0
        },
    ) + be32(
        if dynamic {
            apple::DISPLAY_TYPE_VIRTUAL
        } else {
            apple::DISPLAY_TYPE_PHYSICAL
        },
    ) + be32(PHYSICAL_WIDTH_BITS) + be32(PHYSICAL_HEIGHT_BITS) + be32(3840) + be32(2160) + be16(0)
        + be16(0) + be32(7) + be16(count as u16)
}

/// Builds a `SetDisplayConfiguration` message for a single display with the
/// given mode table. `dynamic` asks for a virtual display that can be resized
/// in the session.
pub fn build_set_display_configuration(dynamic: bool, modes: &[DisplayMode]) -> (msg: Vec<u8>)
    requires
        8 + 0x9c + modes@.len() * 28 <= u16::MAX,
    ensures
        msg@ == display_head(dynamic, modes@.len()) + mode_table(modes@, modes@.len() as int),
{
    let count: u16 = modes.len() as u16;
    let descriptor: u16 = 0x9c + count * 28;
    let mut msg: Vec<u8> = vec![apple::SET_DISPLAY_CONFIGURATION, 0];
    assert(msg@ =~= seq![apple::SET_DISPLAY_CONFIGURATION, 0u8]);
    push_u16(&mut msg, 8 + descriptor);
    push_u16(&mut msg, 1);
    push_u16(&mut msg, 1);
    push_u32(&mut msg, 0);
    push_u16(&mut msg, descriptor);
    push_zeros(&mut msg, 120);
    push_u32(
        &mut msg,
        if dynamic {
            apple::DISPLAY_FLAG_DYNAMIC
        } else {
            0
        },
    );
    push_u32(
        &mut msg,
        if dynamic {
            apple::DISPLAY_TYPE_VIRTUAL
        } else {
            apple::DISPLAY_TYPE_PHYSICAL
        },
    );
    push_u32(&mut msg, PHYSICAL_WIDTH_BITS);
    push_u32(&mut msg, PHYSICAL_HEIGHT_BITS);
    push_u32(&mut msg, 3840);
    push_u32(&mut msg, 2160);
    push_u16(&mut msg, 0);
    push_u16(&mut msg, 0);
    push_u32(&mut msg, 7);
    push_u16(&mut msg, count);
    let ghost head = msg@;
    assert(head == display_head(dynamic, modes@.len()));
    let mut i: usize = 0;
    assert(msg@ =~= head + mode_table(modes@, 0));
    while i < modes.len()
        invariant
            i <= modes@.len(),
            msg@ == head + mode_table(modes@, i as int),
        decreases modes@.len() - i,
    {
        let m: DisplayMode = modes[i];
        let mut entry: Vec<u8> = Vec::new();
        push_u32(&mut entry, m.pixel_width);
        assert(entry@ =~= be32(m.pixel_width));
        push_u32(&mut entry, m.pixel_height);
        push_u32(&mut entry, m.point_width);
        push_u32(&mut entry, m.point_height);
        push_u64(&mut entry, REFRESH_RATE_BITS);
        push_u32(&mut entry, 0);
        push_all(&mut msg, &entry);
        assert(msg@ =~= head + mode_table(modes@, i + 1));
        i = i + 1;
    }
    msg
}

proof fn lemma_mode_table_len(modes: Seq<DisplayMode>, n: int)
    requires
        0 <= n,
    ensures
        mode_table(modes, n).len() == 28 * n,
    decreases n,
{
    if n > 0 {
        lemma_mode_table_len(modes, n - 1);
    }
}

/// The size field of a display configuration counts the bytes behind it.
pub proof fn lemma_display_configuration_size(dynamic: bool, modes: Seq<DisplayMode>)
    requires
        8 + 0x9c + modes.len() * 28 <= u16::MAX,
    ensures
        ({
            let msg = display_head(dynamic, modes.len()) + mode_table(modes, modes.len() as int);
            msg.len() == 4 + u16_of(msg, 2)
        }),
{
    let msg = display_head(dynamic, modes.len()) + mode_table(modes, modes.len() as int);
    let size = (8 + 0x9c + modes.len() * 28) as u16;
    lemma_mode_table_len(modes, modes.len() as int);
    assert(msg[2] == be16(size)[0] && msg[3] == be16(size)[1]);
}

} // verus!
