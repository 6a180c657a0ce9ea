//! How records and control messages are laid out.

use vstd::prelude::*;

use super::{
    auto_framebuffer_update, cbc_sealed, key_event_plain, keyboard_input_source, mode_entry,
    mode_table, pointer_event_plain, record_body, record_plain, unwrapped, xor_block, DisplayMode,
    REFRESH_RATE_BITS,
};
use crate::crypto::{aes128_deciphered, aes128_enciphered, sha1_of};
use crate::error::Failure;
use crate::messages::{long_at, short_at};
use crate::wire::{
    be16, be32, be64, lemma_high_byte_first, lemma_high_half_first, u16_of, zeros,
};

verus! {

/// A record before encryption is the length of its body, the body, as many zeros
/// as make it whole blocks, fewer than sixteen, and the digest of its number and
/// of all that stands before the digest.
#[verifier::spinoff_prover]
pub proof fn lemma_record_layout(seq: u32, body: Seq<u8>, head: Seq<u8>)
    requires
        body.len() <= 0xffff,
        head == record_plain(seq, body).take(record_plain(seq, body).len() - 20),
    ensures
        ({
            let plain = record_plain(seq, body);
            let n = body.len() as int;
            let marked = seq![
                (seq / 0x100_0000) as u8,
                (seq / 0x1_0000 % 256) as u8,
                (seq / 256 % 256) as u8,
                (seq % 256) as u8,
            ] + head;
            (forall|d: Seq<u8>| (#[trigger] sha1_of(d)).len() == 20) ==> {
                &&& plain.len() % 16 == 0
                &&& n + 22 <= plain.len() < n + 22 + 16
                &&& short_at(plain, 0) == n
                &&& plain.subrange(2, 2 + n) == body
                &&& forall|i: int| 2 + n <= i < plain.len() - 20 ==> #[trigger] plain[i] == 0
                &&& plain.skip(plain.len() - 20) == sha1_of(marked)
                &&& record_body(seq, plain) == Ok::<Seq<u8>, Failure>(body)
            }
        }),
{
    let plain = record_plain(seq, body);
    let n = body.len();
    let marked = seq![
        (seq / 0x100_0000) as u8,
        (seq / 0x1_0000 % 256) as u8,
        (seq / 256 % 256) as u8,
        (seq % 256) as u8,
    ] + head;
    let pad = ((16 - (2 + n + 20) % 16) % 16) as nat;
    let frame = be16((n % 0x1_0000) as u16) + body + zeros(pad);
    let digest = sha1_of(be32(seq) + frame);
    assert(plain == frame + digest);
    if forall|d: Seq<u8>| (#[trigger] sha1_of(d)).len() == 20 {
        lemma_high_byte_first(n as u16, seq);
        let count = be16(n as u16);
        assert(digest.len() == 20);
        assert(head =~= frame);
        assert(marked =~= be32(seq) + frame);
        assert(plain.skip(plain.len() - 20) =~= digest);
        assert(plain.take(plain.len() - 20) =~= frame);
        assert(plain[0] == count[0] && plain[1] == count[1]);
        assert(plain.subrange(2, 2 + n as int) =~= body);
        assert(u16_of(frame, 0) == n);
        assert(frame.subrange(2, 2 + n as int) =~= body);
    }
}

/// A record is accepted only where its digest is right and its body fits.
#[verifier::spinoff_prover]
pub proof fn lemma_damaged_record_is_refused(seq: u32, plain: Seq<u8>)
    requires
        plain.len() >= 22,
        record_body(seq, plain) is Ok,
    ensures
        plain.skip(plain.len() - 20) == sha1_of(
            seq![
                (seq / 0x100_0000) as u8,
                (seq / 0x1_0000 % 256) as u8,
                (seq / 256 % 256) as u8,
                (seq % 256) as u8,
            ] + plain.take(plain.len() - 20),
        ),
        2 + short_at(plain, 0) <= plain.len() - 20,
        record_body(seq, plain) == Ok::<Seq<u8>, Failure>(
            plain.subrange(2, 2 + short_at(plain, 0)),
        ),
{
    let frame = plain.take(plain.len() - 20);
    lemma_high_byte_first(0, seq);
    assert(seq![
        (seq / 0x100_0000) as u8,
        (seq / 0x1_0000 % 256) as u8,
        (seq / 256 % 256) as u8,
        (seq % 256) as u8,
    ] =~= be32(seq));
    assert(u16_of(frame, 0) == short_at(plain, 0));
    assert(frame.subrange(2, 2 + short_at(plain, 0)) =~= plain.subrange(
        2,
        2 + short_at(plain, 0),
    ));
}

/// Whether the cipher under a key takes blocks to blocks, and back.
pub open spec fn reverses(key: Seq<u8>) -> bool {
    forall|b: Seq<u8>|
        b.len() == 16 ==> (#[trigger] aes128_enciphered(key, b)).len() == 16 && aes128_deciphered(
            key,
            aes128_enciphered(key, b),
        ) == b
}

/// Each block of a record is combined with the block before it once that is
/// enciphered, the first with the chaining value, and then enciphered itself.
#[verifier::spinoff_prover]
pub proof fn lemma_blocks_are_chained(
    key: Seq<u8>,
    iv: Seq<u8>,
    plain: Seq<u8>,
    j: int,
    before: Seq<u8>,
    mixed: Seq<u8>,
)
    requires
        0 <= j,
        16 * j + 16 <= plain.len(),
        iv.len() == 16,
        j == 0 ==> before == iv,
        j > 0 ==> before == cbc_sealed(key, iv, plain).subrange(16 * (j - 1), 16 * j),
        mixed.len() == 16,
        forall|i: int| 0 <= i < 16 ==> #[trigger] mixed[i] == plain[16 * j + i] ^ before[i],
    ensures
        reverses(key) ==> cbc_sealed(key, iv, plain).len() >= 16 * j + 16 && cbc_sealed(
            key,
            iv,
            plain,
        ).subrange(16 * j, 16 * j + 16) == aes128_enciphered(key, mixed),
    decreases j,
{
    if reverses(key) {
        let first = plain.take(16);
        let c = aes128_enciphered(key, xor_block(first, iv));
        let rest = cbc_sealed(key, c, plain.skip(16));
        let all = cbc_sealed(key, iv, plain);
        assert(all == c + rest);
        assert(c.len() == 16);
        if j == 0 {
            assert(mixed =~= xor_block(first, iv));
            assert(all.subrange(0, 16) =~= c);
        } else {
            let tail = plain.skip(16);
            assert forall|i: int| 0 <= i < 16 implies #[trigger] mixed[i] == tail[16 * (j - 1) + i]
                ^ before[i] by {
                assert(tail[16 * (j - 1) + i] == plain[16 * j + i]);
            }
            lemma_sealed_len(key, c, tail, j - 1);
            if j == 1 {
                assert(before =~= c);
            } else {
                assert(before =~= rest.subrange(16 * (j - 2), 16 * (j - 1)));
            }
            lemma_blocks_are_chained(key, c, tail, j - 1, before, mixed);
            assert(all.subrange(16 * j, 16 * j + 16) =~= rest.subrange(
                16 * (j - 1),
                16 * (j - 1) + 16,
            ));
        }
    }
}

proof fn lemma_sealed_len(key: Seq<u8>, iv: Seq<u8>, plain: Seq<u8>, j: int)
    requires
        reverses(key),
        0 <= j,
        16 * j + 16 <= plain.len(),
    ensures
        cbc_sealed(key, iv, plain).len() >= 16 * j + 16,
    decreases j,
{
    let c = aes128_enciphered(key, xor_block(plain.take(16), iv));
    assert(c.len() == 16);
    if j > 0 {
        lemma_sealed_len(key, c, plain.skip(16), j - 1);
    }
}

/// A rekey body is four bytes that do not matter, the key and the chaining
/// value, each enciphered under the wrap key.
pub proof fn lemma_rekey_layout(wrap: Seq<u8>, generation: Seq<u8>, key: Seq<u8>, iv: Seq<u8>)
    requires
        generation.len() == 4,
        key.len() == 16,
        iv.len() == 16,
    ensures
        reverses(wrap) ==> unwrapped(
            wrap,
            generation + aes128_enciphered(wrap, key) + aes128_enciphered(wrap, iv),
        ) == (key, iv),
{
    if reverses(wrap) {
        let (a, b) = (aes128_enciphered(wrap, key), aes128_enciphered(wrap, iv));
        let body = generation + a + b;
        assert(body.subrange(4, 20) =~= a);
        assert(body.subrange(20, 36) =~= b);
    }
}

/// The block of a key event holds whether the key is down, the key, and the
/// keyboard's type and code for it; that of a pointer event the buttons and the
/// place.
#[verifier::spinoff_prover]
pub proof fn lemma_input_event_layouts(
    down: bool,
    keysym: u32,
    key_type: u16,
    key_code: u16,
    buttons: u8,
    x: u16,
    y: u16,
)
    ensures
        ({
            let m = key_event_plain(down, keysym, key_type, key_code);
            &&& m.len() == 16
            &&& m[0] == 0
            &&& m[1] <= 1
            &&& m[1] == 1 <==> down
            &&& long_at(m, 2) == keysym
            &&& forall|i: int| 6 <= i < 12 ==> #[trigger] m[i] == 0
            &&& short_at(m, 12) == key_type
            &&& short_at(m, 14) == key_code
        }),
        ({
            let m = pointer_event_plain(buttons, x, y);
            &&& m.len() == 16
            &&& forall|i: int| 0 <= i < 10 ==> #[trigger] m[i] == 0
            &&& m[10] == 255
            &&& m[11] == buttons
            &&& short_at(m, 12) == x
            &&& short_at(m, 14) == y
        }),
{
    lemma_high_byte_first(key_type, keysym);
    lemma_high_byte_first(key_code, 0);
    lemma_high_byte_first(x, 0);
    lemma_high_byte_first(y, 0);
    let m = key_event_plain(down, keysym, key_type, key_code);
    let (k, t, c) = (be32(keysym), be16(key_type), be16(key_code));
    assert(m[2] == k[0] && m[3] == k[1] && m[4] == k[2] && m[5] == k[3]);
    assert(m[12] == t[0] && m[13] == t[1] && m[14] == c[0] && m[15] == c[1]);
    let m = pointer_event_plain(buttons, x, y);
    let (a, b) = (be16(x), be16(y));
    assert(m[12] == a[0] && m[13] == a[1] && m[14] == b[0] && m[15] == b[1]);
}

/// The message that arms the server's sender is 9, a version, the screen, and an
/// area; that which sets the keyboard is 26, and the name of the input source
/// behind its length, which is also part of the length in front.
#[verifier::spinoff_prover]
pub proof fn lemma_control_layouts(screen: u32, x: u16, y: u16, w: u16, h: u16, id: Seq<u8>)
    requires
        id.len() + 4 <= 0xffff,
    ensures
        ({
            let m = auto_framebuffer_update(screen, x, y, w, h);
            &&& m.len() == 16
            &&& m[0] == 9 && m[1] == 0
            &&& short_at(m, 2) == 1
            &&& long_at(m, 4) == screen
            &&& short_at(m, 8) == x
            &&& short_at(m, 10) == y
            &&& short_at(m, 12) == w
            &&& short_at(m, 14) == h
        }),
        ({
            let m = keyboard_input_source(id);
            &&& m.len() == 7 + id.len()
            &&& m[0] == 26
            &&& short_at(m, 1) == 4 + id.len()
            &&& short_at(m, 3) == 1
            &&& short_at(m, 5) == id.len()
            &&& m.skip(7) == id
        }),
{
    lemma_high_byte_first(1, screen);
    lemma_high_byte_first(x, 0);
    lemma_high_byte_first(y, 0);
    lemma_high_byte_first(w, 0);
    lemma_high_byte_first(h, 0);
    let m = auto_framebuffer_update(screen, x, y, w, h);
    let (s, a, b, c, d) = (be32(screen), be16(x), be16(y), be16(w), be16(h));
    assert(m[2] == be16(1)[0] && m[3] == be16(1)[1]);
    assert(m[4] == s[0] && m[5] == s[1] && m[6] == s[2] && m[7] == s[3]);
    assert(m[8] == a[0] && m[9] == a[1] && m[10] == b[0] && m[11] == b[1]);
    assert(m[12] == c[0] && m[13] == c[1] && m[14] == d[0] && m[15] == d[1]);
    let n = id.len() as u16;
    lemma_high_byte_first((4 + n) as u16, 0);
    lemma_high_byte_first(n, 0);
    let m = keyboard_input_source(id);
    let (p, q) = (be16((4 + n) as u16), be16(n));
    assert(m[1] == p[0] && m[2] == p[1]);
    assert(m[3] == be16(1)[0] && m[4] == be16(1)[1]);
    assert(m[5] == q[0] && m[6] == q[1]);
    assert(id.take(id.len() as int) =~= id);
    assert(m.skip(7) =~= id);
}

#[verifier::spinoff_prover]
proof fn lemma_mode_at(modes: Seq<DisplayMode>, n: int, i: int)
    requires
        0 <= i < n,
    ensures
        mode_table(modes, n).len() == 28 * n,
        mode_table(modes, n).subrange(28 * i, 28 * i + 28) == mode_entry(modes[i]),
    decreases n,
{
    let before = mode_table(modes, n - 1);
    let all = mode_table(modes, n);
    assert(mode_entry(modes[n - 1]).len() == 28);
    if n == 1 {
        assert(before.len() == 0);
        assert(all.subrange(28 * i, 28 * i + 28) =~= mode_entry(modes[i]));
    } else {
        lemma_mode_at(
            modes,
            n - 1,
            if i < n - 1 {
                i
            } else {
                0
            },
        );
        if i < n - 1 {
            assert(all.subrange(28 * i, 28 * i + 28) =~= before.subrange(28 * i, 28 * i + 28));
        } else {
            assert(all.subrange(28 * i, 28 * i + 28) =~= mode_entry(modes[i]));
        }
    }
}

/// Each display mode is its size in pixels, its size in points, and a refresh
/// rate of sixty, in the order in which the modes were given.
#[verifier::spinoff_prover]
pub proof fn lemma_display_modes_layout(modes: Seq<DisplayMode>, i: int)
    requires
        0 <= i < modes.len(),
    ensures
        ({
            let m = mode_table(modes, modes.len() as int);
            let at = 28 * i;
            &&& m.len() == 28 * modes.len()
            &&& long_at(m, at) == modes[i].pixel_width
            &&& long_at(m, at + 4) == modes[i].pixel_height
            &&& long_at(m, at + 8) == modes[i].point_width
            &&& long_at(m, at + 12) == modes[i].point_height
            &&& long_at(m, at + 16) == 0x404e_0000
            &&& long_at(m, at + 20) == 0
            &&& long_at(m, at + 24) == 0
        }),
{
    let n = modes.len() as int;
    let m = mode_table(modes, n);
    lemma_mode_at(modes, n, i);
    let at = 28 * i;
    let e = m.subrange(at, at + 28);
    let d = modes[i];
    lemma_high_byte_first(0, d.pixel_width);
    lemma_high_byte_first(0, d.pixel_height);
    lemma_high_byte_first(0, d.point_width);
    lemma_high_byte_first(0, d.point_height);
    lemma_high_byte_first(0, 0);
    lemma_high_half_first(REFRESH_RATE_BITS);
    let (a, b, c, f) = (
        be32(d.pixel_width),
        be32(d.pixel_height),
        be32(d.point_width),
        be32(d.point_height),
    );
    let (r, z) = (be64(REFRESH_RATE_BITS), be32(0));
    assert forall|k: int| 0 <= k < 28 implies #[trigger] m[at + k] == e[k] by {}
    assert(m[at + 0] == a[0] && m[at + 1] == a[1] && m[at + 2] == a[2] && m[at + 3] == a[3]);
    assert(m[at + 4] == b[0] && m[at + 5] == b[1] && m[at + 6] == b[2] && m[at + 7] == b[3]);
    assert(m[at + 8] == c[0] && m[at + 9] == c[1] && m[at + 10] == c[2] && m[at + 11] == c[3]);
    assert(m[at + 12] == f[0] && m[at + 13] == f[1] && m[at + 14] == f[2] && m[at + 15] == f[3]);
    assert(m[at + 16] == r[0] && m[at + 17] == r[1] && m[at + 18] == r[2] && m[at + 19] == r[3]);
    assert(m[at + 20] == r[4] && m[at + 21] == r[5] && m[at + 22] == r[6] && m[at + 23] == r[7]);
    assert(m[at + 24] == z[0] && m[at + 25] == z[1] && m[at + 26] == z[2] && m[at + 27] == z[3]);
}

} // verus!
