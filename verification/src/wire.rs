//! Big-endian integers and byte-sequence helpers shared by every message
//! layout in the crate.

use vstd::prelude::*;

verus! {

/// The two bytes of `v`, most significant first.
pub open spec fn be16(v: u16) -> Seq<u8> {
    seq![(v / 256) as u8, (v % 256) as u8]
}

/// The four bytes of `v`, most significant first.
pub open spec fn be32(v: u32) -> Seq<u8> {
    seq![
        (v / 0x100_0000) as u8,
        (v / 0x1_0000 % 256) as u8,
        (v / 256 % 256) as u8,
        (v % 256) as u8,
    ]
}

/// The eight bytes of `v`, most significant first.
pub open spec fn be64(v: u64) -> Seq<u8> {
    be32((v / 0x1_0000_0000) as u32) + be32((v % 0x1_0000_0000) as u32)
}

/// The 16-bit big-endian number at offset `i` of `s`.
pub open spec fn u16_of(s: Seq<u8>, i: int) -> u16 {
    (s[i] * 256 + s[i + 1]) as u16
}

/// The 32-bit big-endian number at offset `i` of `s`.
pub open spec fn u32_of(s: Seq<u8>, i: int) -> u32 {
    (s[i] * 0x100_0000 + s[i + 1] * 0x1_0000 + s[i + 2] * 256 + s[i + 3]) as u32
}

/// The 64-bit big-endian number at offset `i` of `s`.
pub open spec fn u64_of(s: Seq<u8>, i: int) -> u64 {
    (u32_of(s, i) * 0x1_0000_0000 + u32_of(s, i + 4)) as u64
}

/// `n` zero bytes.
pub open spec fn zeros(n: nat) -> Seq<u8> {
    Seq::new(n, |i: int| 0u8)
}

/// The number whose base-256 digits, most significant first, are `s`.
pub open spec fn be_nat(s: Seq<u8>) -> nat
    decreases s.len(),
{
    if s.len() == 0 {
        0
    } else {
        be_nat(s.drop_last()) * 256 + s.last() as nat
    }
}

/// The last `n` bytes of the big-endian form of `v`.
pub open spec fn be_bytes(v: nat, n: nat) -> Seq<u8>
    decreases n,
{
    if n == 0 {
        Seq::empty()
    } else {
        be_bytes(v / 256, (n - 1) as nat).push((v % 256) as u8)
    }
}

/// A number of `n` bytes is below 256 to the power `n`.
pub proof fn lemma_be_nat_bound(s: Seq<u8>)
    ensures
        be_nat(s) < vstd::arithmetic::power::pow(256, s.len()),
    decreases s.len(),
{
    broadcast use vstd::arithmetic::power::lemma_pow1, vstd::arithmetic::power::lemma_pow0;

    if s.len() > 0 {
        lemma_be_nat_bound(s.drop_last());
        vstd::arithmetic::power::lemma_pow_adds(256, (s.len() - 1) as nat, 1);
    }
}

/// Writing a number in enough bytes and reading it back gives the number.
pub proof fn lemma_be_bytes(v: nat, n: nat)
    ensures
        be_bytes(v, n).len() == n,
        v < vstd::arithmetic::power::pow(256, n) ==> be_nat(be_bytes(v, n)) == v,
    decreases n,
{
    broadcast use vstd::arithmetic::power::lemma_pow1, vstd::arithmetic::power::lemma_pow0;

    if n > 0 {
        lemma_be_bytes(v / 256, (n - 1) as nat);
        vstd::arithmetic::power::lemma_pow_adds(256, (n - 1) as nat, 1);
        assert(be_bytes(v, n).drop_last() =~= be_bytes(v / 256, (n - 1) as nat));
    }
}

/// Writing a 16-bit number and reading it back gives the number.
pub proof fn lemma_be16_round_trip(v: u16)
    ensures
        be16(v).len() == 2,
        u16_of(be16(v), 0) == v,
{
}

/// Writing a 32-bit number and reading it back gives the number.
pub proof fn lemma_be32_round_trip(v: u32)
    ensures
        be32(v).len() == 4,
        u32_of(be32(v), 0) == v,
{
}

/// Writing a 64-bit number and reading it back gives the number.
pub proof fn lemma_be64_round_trip(v: u64)
    ensures
        be64(v).len() == 8,
        u64_of(be64(v), 0) == v,
{
    let hi = (v / 0x1_0000_0000) as u32;
    let lo = (v % 0x1_0000_0000) as u32;
    lemma_be32_round_trip(hi);
    lemma_be32_round_trip(lo);
    assert(u32_of(be64(v), 0) == hi);
    assert(u32_of(be64(v), 4) == lo);
}

/// Numbers of two and four bytes are written with the most significant first.
pub proof fn lemma_high_byte_first(a: u16, b: u32)
    ensures
        be16(a).len() == 2,
        be16(a)[0] * 256 + be16(a)[1] == a,
        be32(b).len() == 4,
        be32(b)[0] * 0x100_0000 + be32(b)[1] * 0x1_0000 + be32(b)[2] * 256 + be32(b)[3] == b,
{
}

/// A number of eight bytes is written as its high half, then its low half.
pub proof fn lemma_high_half_first(v: u64)
    ensures
        ({
            let s = be64(v);
            &&& s.len() == 8
            &&& (s[0] * 0x100_0000 + s[1] * 0x1_0000 + s[2] * 256 + s[3]) == v / 0x1_0000_0000
            &&& (s[4] * 0x100_0000 + s[5] * 0x1_0000 + s[6] * 256 + s[7]) == v % 0x1_0000_0000
        }),
{
    let hi = (v / 0x1_0000_0000) as u32;
    let lo = (v % 0x1_0000_0000) as u32;
    lemma_high_byte_first(0, hi);
    lemma_high_byte_first(0, lo);
    let s = be64(v);
    assert(s[0] == be32(hi)[0] && s[1] == be32(hi)[1] && s[2] == be32(hi)[2] && s[3]
        == be32(hi)[3]);
    assert(s[4] == be32(lo)[0] && s[5] == be32(lo)[1] && s[6] == be32(lo)[2] && s[7]
        == be32(lo)[3]);
}

/// The first byte of a number of several counts as often as there are numbers
/// of the bytes behind it.
#[verifier::spinoff_prover]
pub proof fn lemma_first_digit(a: u8, s: Seq<u8>)
    ensures
        be_nat(seq![a] + s) == a * vstd::arithmetic::power::pow(256, s.len()) + be_nat(s),
    decreases s.len(),
{
    broadcast use vstd::arithmetic::power::lemma_pow1, vstd::arithmetic::power::lemma_pow0;

    let t = seq![a] + s;
    if s.len() == 0 {
        assert(t.drop_last() =~= Seq::<u8>::empty());
        assert(t.last() == a);
        assert(be_nat(t.drop_last()) == 0);
    } else {
        assert(t.drop_last() =~= seq![a] + s.drop_last());
        lemma_first_digit(a, s.drop_last());
        vstd::arithmetic::power::lemma_pow_adds(256, (s.len() - 1) as nat, 1);
        let p = vstd::arithmetic::power::pow(256, (s.len() - 1) as nat);
        assert((a * p) * 256 == a * (p * 256)) by (nonlinear_arith);
    }
}

/// A 32-bit field inside a longer sequence reads back as written.
pub proof fn lemma_u32_inside(pre: Seq<u8>, v: u32, post: Seq<u8>)
    ensures
        u32_of(pre + be32(v) + post, pre.len() as int) == v,
{
    let s = pre + be32(v) + post;
    let n = pre.len() as int;
    assert(s[n] == be32(v)[0]);
    assert(s[n + 1] == be32(v)[1]);
    assert(s[n + 2] == be32(v)[2]);
    assert(s[n + 3] == be32(v)[3]);
}

/// A 16-bit field inside a longer sequence reads back as written.
pub proof fn lemma_u16_inside(pre: Seq<u8>, v: u16, post: Seq<u8>)
    ensures
        u16_of(pre + be16(v) + post, pre.len() as int) == v,
{
    let s = pre + be16(v) + post;
    let n = pre.len() as int;
    assert(s[n] == be16(v)[0]);
    assert(s[n + 1] == be16(v)[1]);
}

/// Whether `s` holds `part` at `pos`.
pub open spec fn holds(s: Seq<u8>, pos: int, part: Seq<u8>) -> bool {
    &&& 0 <= pos
    &&& pos + part.len() <= s.len()
    &&& forall|i: int| 0 <= i < part.len() ==> s[pos + i] == #[trigger] part[i]
}

/// What holds two parts one behind the other holds each.
pub proof fn lemma_holds_both(s: Seq<u8>, pos: int, a: Seq<u8>, b: Seq<u8>)
    requires
        holds(s, pos, a + b),
    ensures
        holds(s, pos, a),
        holds(s, pos + a.len(), b),
{
    assert forall|i: int| 0 <= i < a.len() implies s[pos + i] == #[trigger] a[i] by {
        assert((a + b)[i] == a[i]);
    }
    assert forall|i: int| 0 <= i < b.len() implies s[pos + a.len() + i] == #[trigger] b[i] by {
        assert((a + b)[a.len() + i] == b[i]);
    }
}

/// Parts of one length, joined, are found at the multiples of that length.
#[verifier::spinoff_prover]
pub proof fn lemma_joined(parts: Seq<Seq<u8>>, each: int)
    requires
        each >= 0,
        forall|i: int| 0 <= i < parts.len() ==> (#[trigger] parts[i]).len() == each,
    ensures
        parts.flatten().len() == parts.len() * each,
        forall|t: int, k: int|
            0 <= t < parts.len() && 0 <= k < each ==> #[trigger] parts.flatten()[t * each + k]
                == parts[t][k],
    decreases parts.len(),
{
    if parts.len() > 0 {
        let rest = parts.drop_first();
        lemma_joined(rest, each);
        assert(parts.flatten() == parts[0] + rest.flatten());
        assert(parts.len() * each == each + rest.len() * each) by (nonlinear_arith)
            requires
                parts.len() == rest.len() + 1,
        ;
        assert forall|t: int, k: int| 0 <= t < parts.len() && 0 <= k < each implies #[trigger] (
        parts.flatten()[t * each + k]) == parts[t][k] by {
            if t > 0 {
                assert(t * each + k == each + ((t - 1) * each + k) && (t - 1) * each + k >= 0)
                    by (nonlinear_arith)
                    requires
                        t > 0,
                        each >= 0,
                        k >= 0,
                ;
                assert(rest.flatten()[(t - 1) * each + k] == rest[t - 1][k]);
                assert((t - 1) * each + k < rest.len() * each) by (nonlinear_arith)
                    requires
                        t - 1 < rest.len(),
                        k < each,
                        each >= 0,
                ;
            } else {
                assert(t * each + k == k) by (nonlinear_arith)
                    requires
                        t == 0,
                ;
            }
        }
    }
}

/// One of several joined parts of one length.
#[verifier::spinoff_prover]
pub proof fn lemma_joined_part(parts: Seq<Seq<u8>>, each: int, t: int)
    requires
        each >= 0,
        forall|i: int| 0 <= i < parts.len() ==> (#[trigger] parts[i]).len() == each,
        0 <= t < parts.len(),
    ensures
        parts.flatten().len() == parts.len() * each,
        0 <= t * each,
        t * each + each <= parts.len() * each,
        parts.flatten().subrange(t * each, t * each + each) == parts[t],
{
    lemma_joined(parts, each);
    assert(0 <= t * each && t * each + each <= parts.len() * each) by (nonlinear_arith)
        requires
            0 <= t < parts.len(),
            each >= 0,
    ;
    let part = parts.flatten().subrange(t * each, t * each + each);
    assert forall|k: int| 0 <= k < each implies part[k] == parts[t][k] by {
        assert(parts.flatten()[t * each + k] == parts[t][k]);
    }
    assert(part =~= parts[t]);
}

/// Reads the 16-bit big-endian number at offset `i`.
pub fn u16_at(data: &[u8], i: usize) -> (r: u16)
    requires
        i + 2 <= data@.len(),
    ensures
        r == u16_of(data@, i as int),
{
    (data[i] as u16) * 256 + data[i + 1] as u16
}

/// Reads the 32-bit big-endian number at offset `i`.
pub fn u32_at(data: &[u8], i: usize) -> (r: u32)
    requires
        i + 4 <= data@.len(),
    ensures
        r == u32_of(data@, i as int),
{
    (data[i] as u32) * 0x100_0000 + (data[i + 1] as u32) * 0x1_0000 + (data[i + 2] as u32) * 256
        + data[i + 3] as u32
}

/// Reads the 64-bit big-endian number at offset `i`.
pub fn u64_at(data: &[u8], i: usize) -> (r: u64)
    requires
        i + 8 <= data@.len(),
    ensures
        r == u64_of(data@, i as int),
{
    assert(i + 8 <= data.len());
    (u32_at(data, i) as u64) * 0x1_0000_0000 + u32_at(data, i + 4) as u64
}

/// Appends `v` in big-endian order.
pub fn push_u16(out: &mut Vec<u8>, v: u16)
    ensures
        final(out)@ == old(out)@ + be16(v),
{
    out.push((v / 256) as u8);
    out.push((v % 256) as u8);
}

/// Appends `v` in big-endian order.
pub fn push_u32(out: &mut Vec<u8>, v: u32)
    ensures
        final(out)@ == old(out)@ + be32(v),
{
    out.push((v / 0x100_0000) as u8);
    out.push((v / 0x1_0000 % 256) as u8);
    out.push((v / 256 % 256) as u8);
    out.push((v % 256) as u8);
}

/// Appends `v` in big-endian order.
pub fn push_u64(out: &mut Vec<u8>, v: u64)
    ensures
        final(out)@ == old(out)@ + be64(v),
{
    push_u32(out, (v / 0x1_0000_0000) as u32);
    push_u32(out, (v % 0x1_0000_0000) as u32);
}

/// Appends every byte of `s`.
pub fn push_all(out: &mut Vec<u8>, s: &[u8])
    ensures
        final(out)@ == old(out)@ + s@,
{
    out.extend_from_slice(s);
    assert(out@ =~= old(out)@ + s@);
}

/// Appends `n` zero bytes.
pub fn push_zeros(out: &mut Vec<u8>, n: usize)
    ensures
        final(out)@ == old(out)@ + zeros(n as nat),
{
    let mut i: usize = 0;
    while i < n
        invariant
            i <= n,
            out@ == old(out)@ + zeros(i as nat),
        decreases n - i,
    {
        out.push(0);
        i += 1;
        assert(out@ =~= old(out)@ + zeros(i as nat));
    }
}

/// The bytes of `s` as a fresh vector.
pub fn to_vec(s: &[u8]) -> (r: Vec<u8>)
    ensures
        r@ == s@,
{
    let mut r: Vec<u8> = Vec::new();
    push_all(&mut r, s);
    assert(r@ =~= s@);
    r
}

/// The bytes of `s` from `from` up to `to`.
pub fn slice(s: &[u8], from: usize, to: usize) -> (r: &[u8])
    requires
        from <= to <= s@.len(),
    ensures
        r@ == s@.subrange(from as int, to as int),
{
    vstd::slice::slice_subrange(s, from, to)
}

/// Whether two byte strings are equal.
pub fn same(a: &[u8], b: &[u8]) -> (r: bool)
    ensures
        r == (a@ == b@),
{
    if a.len() != b.len() {
        return false;
    }
    let mut i: usize = 0;
    while i < a.len()
        invariant
            i <= a@.len(),
            a@.len() == b@.len(),
            forall|j: int| 0 <= j < i ==> a@[j] == b@[j],
        decreases a@.len() - i,
    {
        if a[i] != b[i] {
            return false;
        }
        i += 1;
    }
    assert(a@ =~= b@);
    true
}

} // verus!
