//! UUIDs in their textual and binary forms.

use vstd::prelude::*;
use vstd::utf8::encode_utf8;

use crate::entropy::{drawn, random_bytes};
use crate::text::{ascii_string, ascii_text};
use crate::wire::zeros;

verus! {

/// Whether `b` is an ASCII hexadecimal digit.
pub open spec fn is_hex(b: u8) -> bool {
    48 <= b <= 57 || 65 <= b <= 70 || 97 <= b <= 102
}

/// The value of a hexadecimal digit; 0 for any other byte.
pub open spec fn nibble_of(b: u8) -> u8 {
    if 48 <= b <= 57 {
        (b - 48) as u8
    } else if 65 <= b <= 70 {
        (b - 65 + 10) as u8
    } else if 97 <= b <= 102 {
        (b - 97 + 10) as u8
    } else {
        0
    }
}

/// The lowercase hexadecimal digit with value `n`.
pub open spec fn digit_of(n: u8) -> u8 {
    if n < 10 {
        (48 + n) as u8
    } else {
        (87 + n) as u8
    }
}

/// The hexadecimal digits of `s`, in order.
pub open spec fn hex_digits(s: Seq<u8>) -> Seq<u8> {
    s.filter(|b: u8| is_hex(b))
}

/// The sixteen bytes that the text `s` names: its hexadecimal digits in pairs,
/// or all zero if there are not 32 of them.
pub open spec fn uuid_value(s: Seq<u8>) -> Seq<u8> {
    let hex = hex_digits(s);
    if hex.len() != 32 {
        zeros(16)
    } else {
        Seq::new(16, |i: int| (nibble_of(hex[2 * i]) * 16 + nibble_of(hex[2 * i + 1])) as u8)
    }
}

/// Two hexadecimal digits for each of the bytes `b[from..to]`.
pub open spec fn hex_run(b: Seq<u8>, from: int, to: int) -> Seq<u8>
    decreases to - from,
{
    if from >= to {
        Seq::empty()
    } else {
        hex_run(b, from, to - 1) + seq![digit_of(b[to - 1] / 16), digit_of(b[to - 1] % 16)]
    }
}

/// The grouped textual form of sixteen bytes.
pub open spec fn uuid_text(b: Seq<u8>) -> Seq<u8> {
    hex_run(b, 0, 4) + seq![45u8] + hex_run(b, 4, 6) + seq![45u8] + hex_run(b, 6, 8) + seq![45u8]
        + hex_run(b, 8, 10) + seq![45u8] + hex_run(b, 10, 16)
}

/// `b` with the version set to 4 and the variant to binary 10.
pub open spec fn versioned(b: Seq<u8>) -> Seq<u8> {
    b.update(6, (b[6] % 16 + 64) as u8).update(8, (b[8] % 64 + 128) as u8)
}

fn hex_to_nibble(b: u8) -> (r: u8)
    ensures
        r == nibble_of(b),
        r < 16,
{
    if 48 <= b && b <= 57 {
        b - 48
    } else if 65 <= b && b <= 70 {
        b - 65 + 10
    } else if 97 <= b && b <= 102 {
        b - 97 + 10
    } else {
        0
    }
}

/// The sixteen bytes that a textual UUID names; all zero if the text does not
/// hold exactly 32 hexadecimal digits.
pub fn uuid_bytes(uuid: &str) -> (r: Vec<u8>)
    ensures
        r@ == uuid_value(encode_utf8(uuid@)),
        r@.len() == 16,
{
    let text = uuid.as_bytes();
    let mut hex: Vec<u8> = Vec::new();
    let mut i: usize = 0;
    assert(text@.take(0) =~= Seq::<u8>::empty());
    assert(hex@ =~= hex_digits(text@.take(0))) by {
        reveal(Seq::filter);
    }
    while i < text.len()
        invariant
            i <= text@.len(),
            hex@ == hex_digits(text@.take(i as int)),
        decreases text@.len() - i,
    {
        let b: u8 = text[i];
        proof {
            reveal(Seq::filter);
            assert(text@.take(i + 1).drop_last() =~= text@.take(i as int));
        }
        if (48 <= b && b <= 57) || (65 <= b && b <= 70) || (97 <= b && b <= 102) {
            hex.push(b);
        }
        i = i + 1;
    }
    assert(text@.take(i as int) =~= text@);
    let mut out: Vec<u8> = Vec::new();
    if hex.len() != 32 {
        crate::wire::push_zeros(&mut out, 16);
        assert(out@ =~= zeros(16));
        return out;
    }
    let mut i: usize = 0;
    while i < 16
        invariant
            i <= 16,
            hex@.len() == 32,
            hex@ == hex_digits(text@),
            out@.len() == i,
            forall|j: int|
                0 <= j < i ==> out@[j] == nibble_of(hex@[2 * j]) * 16 + nibble_of(hex@[2 * j + 1]),
        decreases 16 - i,
    {
        let hi: u8 = hex_to_nibble(hex[2 * i]);
        let lo: u8 = hex_to_nibble(hex[2 * i + 1]);
        out.push(hi * 16 + lo);
        i = i + 1;
    }
    assert(out@ =~= uuid_value(text@));
    out
}

fn push_hex_run(out: &mut Vec<u8>, b: &[u8], from: usize, to: usize)
    requires
        from <= to <= b@.len(),
        forall|i: int| 0 <= i < old(out)@.len() ==> old(out)@[i] < 128,
    ensures
        final(out)@ == old(out)@ + hex_run(b@, from as int, to as int),
        forall|i: int| 0 <= i < final(out)@.len() ==> final(out)@[i] < 128,
    decreases to - from,
{
    if from < to {
        push_hex_run(out, b, from, to - 1);
        let hi: u8 = b[to - 1] / 16;
        let lo: u8 = b[to - 1] % 16;
        out.push(if hi < 10 {
            48 + hi
        } else {
            87 + hi
        });
        out.push(if lo < 10 {
            48 + lo
        } else {
            87 + lo
        });
    }
    assert(out@ =~= old(out)@ + hex_run(b@, from as int, to as int));
}

/// The textual form of sixteen bytes.
pub fn uuid_string(b: &[u8]) -> (r: String)
    requires
        b@.len() == 16,
    ensures
        r@ == ascii_text(uuid_text(b@)),
{
    let mut out: Vec<u8> = Vec::new();
    push_hex_run(&mut out, b, 0, 4);
    out.push(45);
    push_hex_run(&mut out, b, 4, 6);
    out.push(45);
    push_hex_run(&mut out, b, 6, 8);
    out.push(45);
    push_hex_run(&mut out, b, 8, 10);
    out.push(45);
    push_hex_run(&mut out, b, 10, 16);
    assert(out@ =~= uuid_text(b@));
    ascii_string(&out)
}

/// Turns sixteen arbitrary bytes into those of a version 4 UUID.
pub fn version_4(b: &[u8]) -> (r: Vec<u8>)
    requires
        b@.len() == 16,
    ensures
        r@ == versioned(b@),
{
    let mut r = crate::wire::to_vec(b);
    r[6] = b[6] % 16 + 64;
    r[8] = b[8] % 64 + 128;
    assert(r@ =~= versioned(b@));
    r
}

/// Whether a text is a fresh identifier of version 4: one of bytes drawn at
/// random.
pub open spec fn fresh_identifier(t: Seq<char>) -> bool {
    exists|b: Seq<u8>|
        b.len() == 16 && drawn(b) && t == #[trigger] ascii_text(uuid_text(versioned(b)))
}

/// A fresh version 4 UUID in textual form.
pub fn random_uuid_string() -> (r: String)
    ensures
        fresh_identifier(r@),
{
    let b = random_bytes(16);
    let v = version_4(&b);
    uuid_string(&v)
}

proof fn lemma_hex_run_digits(b: Seq<u8>, from: int, to: int)
    requires
        0 <= from <= to <= b.len(),
    ensures
        hex_run(b, from, to).len() == 2 * (to - from),
        forall|i: int| 0 <= i < 2 * (to - from) ==> is_hex(#[trigger] hex_run(b, from, to)[i]),
        forall|i: int|
            #![trigger b[from + i]]
            0 <= i < to - from ==> hex_run(b, from, to)[2 * i] == digit_of(b[from + i] / 16)
                && hex_run(b, from, to)[2 * i + 1] == digit_of(b[from + i] % 16),
    decreases to - from,
{
    if from < to {
        lemma_hex_run_digits(b, from, to - 1);
    }
}

proof fn lemma_filter_all(s: Seq<u8>)
    requires
        forall|i: int| 0 <= i < s.len() ==> is_hex(#[trigger] s[i]),
    ensures
        hex_digits(s) == s,
    decreases s.len(),
{
    reveal(Seq::filter);
    if s.len() > 0 {
        lemma_filter_all(s.drop_last());
        assert(s.drop_last().push(s.last()) =~= s);
    }
}

proof fn lemma_filter_concat(a: Seq<u8>, b: Seq<u8>)
    ensures
        hex_digits(a + b) == hex_digits(a) + hex_digits(b),
    decreases b.len(),
{
    reveal(Seq::filter);
    if b.len() == 0 {
        assert(a + b =~= a);
        assert(hex_digits(a) + hex_digits(b) =~= hex_digits(a));
    } else {
        assert((a + b).drop_last() =~= a + b.drop_last());
        lemma_filter_concat(a, b.drop_last());
        assert(hex_digits(a + b) =~= hex_digits(a) + hex_digits(b));
    }
}

proof fn lemma_hex_run_split(b: Seq<u8>, from: int, mid: int, to: int)
    requires
        from <= mid <= to,
    ensures
        hex_run(b, from, mid) + hex_run(b, mid, to) == hex_run(b, from, to),
    decreases to - mid,
{
    if mid < to {
        lemma_hex_run_split(b, from, mid, to - 1);
        assert(hex_run(b, from, mid) + hex_run(b, mid, to) =~= hex_run(b, from, to));
    } else {
        assert(hex_run(b, from, mid) + hex_run(b, mid, to) =~= hex_run(b, from, to));
    }
}

proof fn lemma_dash_has_no_digit()
    ensures
        hex_digits(seq![45u8]) == Seq::<u8>::empty(),
{
    reveal_with_fuel(Seq::filter, 2);
    assert(seq![45u8].drop_last() =~= Seq::<u8>::empty());
}

/// One more group behind a dash adds its digits.
proof fn lemma_group(b: Seq<u8>, text: Seq<u8>, mid: int, to: int)
    requires
        0 <= mid <= to <= b.len(),
        hex_digits(text) == hex_run(b, 0, mid),
    ensures
        hex_digits(text + seq![45u8] + hex_run(b, mid, to)) == hex_run(b, 0, to),
{
    let group = hex_run(b, mid, to);
    lemma_dash_has_no_digit();
    lemma_hex_run_digits(b, mid, to);
    lemma_filter_all(group);
    lemma_filter_concat(text, seq![45u8]);
    lemma_filter_concat(text + seq![45u8], group);
    assert(hex_digits(text) + Seq::<u8>::empty() =~= hex_digits(text));
    lemma_hex_run_split(b, 0, mid, to);
}

proof fn lemma_text_digits(b: Seq<u8>)
    requires
        b.len() == 16,
    ensures
        hex_digits(uuid_text(b)) == hex_run(b, 0, 16),
{
    let g0 = hex_run(b, 0, 4);
    lemma_hex_run_digits(b, 0, 4);
    lemma_filter_all(g0);
    lemma_group(b, g0, 4, 6);
    let t1 = g0 + seq![45u8] + hex_run(b, 4, 6);
    lemma_group(b, t1, 6, 8);
    let t2 = t1 + seq![45u8] + hex_run(b, 6, 8);
    lemma_group(b, t2, 8, 10);
    let t3 = t2 + seq![45u8] + hex_run(b, 8, 10);
    lemma_group(b, t3, 10, 16);
}

/// Reading the textual form of sixteen bytes gives the bytes back.
pub proof fn lemma_uuid_round_trip(b: Seq<u8>)
    requires
        b.len() == 16,
    ensures
        uuid_value(uuid_text(b)) == b,
{
    lemma_text_digits(b);
    lemma_hex_run_digits(b, 0, 16);
    assert forall|i: int| 0 <= i < 16 implies uuid_value(uuid_text(b))[i] == b[i] by {
        assert(b[0 + i] == b[i]);
    }
    assert(uuid_value(uuid_text(b)) =~= b);
}

#[verifier::spinoff_prover]
proof fn lemma_hex_run_at(b: Seq<u8>, from: int, to: int, k: int)
    requires
        0 <= from <= k < to,
    ensures
        hex_run(b, from, to).len() == 2 * (to - from),
        hex_run(b, from, to)[2 * (k - from)] == digit_of(b[k] / 16),
        hex_run(b, from, to)[2 * (k - from) + 1] == digit_of(b[k] % 16),
    decreases to - from,
{
    let before = hex_run(b, from, to - 1);
    if to - 1 == from {
        assert(before.len() == 0);
    } else {
        lemma_hex_run_at(
            b,
            from,
            to - 1,
            if k < to - 1 {
                k
            } else {
                from
            },
        );
    }
}

/// A text has 36 characters: the digits of four bytes, of two, of two, of two
/// and of six, with hyphens between. The third group of a drawn identifier
/// starts with its version, 4, and the fourth with 8, 9, a or b; the other bits
/// are as they were drawn.
#[verifier::spinoff_prover]
pub proof fn lemma_uuid_text_layout(b: Seq<u8>)
    requires
        b.len() == 16,
    ensures
        ({
            let t = uuid_text(versioned(b));
            &&& t.len() == 36
            &&& t[8] == 45 && t[13] == 45 && t[18] == 45 && t[23] == 45
            &&& t[14] == 52
            &&& t[15] == digit_of(b[6] % 16)
            &&& t[19] == 56 || t[19] == 57 || t[19] == 97 || t[19] == 98
            &&& t[20] == digit_of(b[8] % 16)
            &&& t[0] == digit_of(b[0] / 16) && t[1] == digit_of(b[0] % 16)
            &&& t[34] == digit_of(b[15] / 16) && t[35] == digit_of(b[15] % 16)
        }),
{
    let v = versioned(b);
    let t = uuid_text(v);
    let (g0, g1, g2, g3, g4) = (
        hex_run(v, 0, 4),
        hex_run(v, 4, 6),
        hex_run(v, 6, 8),
        hex_run(v, 8, 10),
        hex_run(v, 10, 16),
    );
    lemma_hex_run_at(v, 0, 4, 0);
    lemma_hex_run_at(v, 4, 6, 4);
    lemma_hex_run_at(v, 6, 8, 6);
    lemma_hex_run_at(v, 8, 10, 8);
    lemma_hex_run_at(v, 10, 16, 15);
    assert(t[0] == g0[0] && t[1] == g0[1]);
    assert(t[14] == g2[0] && t[15] == g2[1]);
    assert(t[19] == g3[0] && t[20] == g3[1]);
    assert(t[34] == g4[10] && t[35] == g4[11]);
    assert(v[6] == b[6] % 16 + 64 && v[8] == b[8] % 64 + 128);
    assert(v[6] / 16 == 4 && v[6] % 16 == b[6] % 16 && v[8] % 16 == b[8] % 16);
    assert(8 <= v[8] / 16 <= 11);
}

} // verus!
