//! The subset of the protobuf wire format used by media negotiation: varints
//! and length-delimited fields.

use vstd::prelude::*;

use crate::wire::push_all;

verus! {

/// The base-128 encoding of `v`, least significant group first; every byte but
/// the last has its top bit set.
pub open spec fn varint_bytes(v: nat) -> Seq<u8>
    decreases v,
{
    if v < 128 {
        seq![v as u8]
    } else {
        seq![(v % 128 + 128) as u8] + varint_bytes(v / 128)
    }
}

/// The number encoded at `pos`, using at most `groups` bytes, and the position
/// after it.
pub open spec fn varint_within(data: Seq<u8>, pos: int, groups: nat) -> Option<(nat, int)>
    decreases groups,
{
    if pos >= data.len() || groups == 0 {
        None
    } else if data[pos] < 128 {
        Some((data[pos] as nat, pos + 1))
    } else {
        match varint_within(data, pos + 1, (groups - 1) as nat) {
            Some((v, p)) => Some(((data[pos] - 128 + 128 * v) as nat, p)),
            None => None,
        }
    }
}

/// The 64-bit number encoded at `pos` and the position after it: at most ten
/// bytes, bits beyond the 64th dropped. `None` if the encoding does not end in
/// time.
pub open spec fn varint_at(data: Seq<u8>, pos: int) -> Option<(u64, int)> {
    match varint_within(data, pos, 10) {
        Some((v, p)) => Some(((v % 0x1_0000_0000_0000_0000) as u64, p)),
        None => None,
    }
}

/// Field `field` holding the integer `value`.
pub open spec fn varint_field(field: u32, value: u64) -> Seq<u8> {
    varint_bytes((field << 3) as nat) + varint_bytes(value as nat)
}

/// Field `field` holding the byte string `value`.
pub open spec fn bytes_field(field: u32, value: Seq<u8>) -> Seq<u8> {
    varint_bytes(((field << 3) | 2) as nat) + varint_bytes(value.len()) + value
}

proof fn lemma_varint_bytes_len(v: nat, groups: nat)
    requires
        groups >= 1,
        v < vstd::arithmetic::power::pow(128, groups),
    ensures
        1 <= varint_bytes(v).len() <= groups,
    decreases groups,
{
    broadcast use vstd::arithmetic::power::lemma_pow1;

    if groups > 1 && v >= 128 {
        vstd::arithmetic::power::lemma_pow_adds(128, 1, (groups - 1) as nat);
        assert(v / 128 < vstd::arithmetic::power::pow(128, (groups - 1) as nat));
        lemma_varint_bytes_len(v / 128, (groups - 1) as nat);
    }
}

/// What stands before a number does not change how it reads, and what stands
/// behind it does not either.
proof fn lemma_varint_within_placed(pre: Seq<u8>, v: nat, post: Seq<u8>, groups: nat)
    requires
        varint_bytes(v).len() <= groups,
    ensures
        varint_within(pre + varint_bytes(v) + post, pre.len() as int, groups) == Some(
            (v, (pre.len() + varint_bytes(v).len()) as int),
        ),
    decreases v,
{
    let data = pre + varint_bytes(v) + post;
    assert(data[pre.len() as int] == varint_bytes(v)[0]);
    if v >= 128 {
        let head = seq![(v % 128 + 128) as u8];
        assert(data =~= (pre + head) + varint_bytes(v / 128) + post);
        lemma_varint_within_placed(pre + head, v / 128, post, (groups - 1) as nat);
    }
}

/// A 64-bit number takes between one and ten bytes.
pub proof fn lemma_varint_size(v: u64)
    ensures
        1 <= varint_bytes(v as nat).len() <= 10,
{
    assert(vstd::arithmetic::power::pow(128, 10) == 1180591620717411303424) by {
        reveal_with_fuel(vstd::arithmetic::power::pow, 11);
    }
    lemma_varint_bytes_len(v as nat, 10);
}

/// Reading a varint gives back the number that was written, wherever it stands
/// and whatever follows it.
pub proof fn lemma_varint_round_trip(pre: Seq<u8>, v: u64, post: Seq<u8>)
    ensures
        varint_at(pre + varint_bytes(v as nat) + post, pre.len() as int) == Some(
            (v, (pre.len() + varint_bytes(v as nat).len()) as int),
        ),
{
    lemma_varint_size(v);
    lemma_varint_within_placed(pre, v as nat, post, 10);
}

/// A varint that reads lies inside the data and takes at most ten bytes.
pub proof fn lemma_varint_bounds(data: Seq<u8>, pos: int)
    requires
        0 <= pos,
    ensures
        varint_at(data, pos) matches Some((v, p)) ==> pos < p <= data.len() && p <= pos + 10,
{
    lemma_varint_within_bounds(data, pos, 10);
}

proof fn lemma_varint_within_bounds(data: Seq<u8>, pos: int, groups: nat)
    requires
        0 <= pos,
    ensures
        varint_within(data, pos, groups) matches Some((v, p)) ==> pos < p <= data.len() && p <= pos
            + groups,
    decreases groups,
{
    if pos < data.len() && groups > 0 && data[pos] >= 128 {
        lemma_varint_within_bounds(data, pos + 1, (groups - 1) as nat);
    }
}

/// Encodes `v` as a varint.
pub fn varint(v: u64) -> (out: Vec<u8>)
    ensures
        out@ == varint_bytes(v as nat),
{
    let mut out: Vec<u8> = Vec::new();
    let mut rest: u64 = v;
    while rest > 0x7F
        invariant
            out@ + varint_bytes(rest as nat) == varint_bytes(v as nat),
        decreases rest,
    {
        let ghost before = out@;
        out.push((rest % 128 + 128) as u8);
        assert(out@ + varint_bytes((rest / 128) as nat) =~= before + varint_bytes(rest as nat));
        rest = rest / 128;
    }
    out.push(rest as u8);
    assert(out@ =~= varint_bytes(v as nat));
    out
}

/// Encodes an integer field.
pub fn field_varint(field: u32, value: u64) -> (out: Vec<u8>)
    ensures
        out@ == varint_field(field, value),
{
    let mut out = varint((field << 3) as u64);
    push_all(&mut out, &varint(value));
    out
}

/// Encodes a length-delimited field.
pub fn field_bytes(field: u32, value: &[u8]) -> (out: Vec<u8>)
    ensures
        out@ == bytes_field(field, value@),
{
    let mut out = varint(((field << 3) | 2) as u64);
    push_all(&mut out, &varint(value.len() as u64));
    push_all(&mut out, value);
    out
}

/// Parses a varint from `data` starting at `pos`. Returns the value and the
/// position after it.
pub fn read_varint(data: &[u8], pos: usize) -> (r: Option<(u64, usize)>)
    ensures
        match varint_at(data@, pos as int) {
            Some((v, p)) => r == Some((v, p as usize)) && pos < p <= data@.len(),
            None => r is None,
        },
{
    let mut value: u128 = 0;
    let mut weight: u128 = 1;
    let mut used: usize = 0;
    let mut p: usize = pos;
    let ghost whole = varint_within(data@, pos as int, 10);
    proof {
        lemma_varint_bounds(data@, pos as int);
        vstd::arithmetic::power::lemma_pow0(128);
    }
    while p < data.len() && used < 10
        invariant
            p == pos + used,
            used <= 10,
            whole == varint_within(data@, pos as int, 10),
            weight == vstd::arithmetic::power::pow(128, used as nat),
            0 <= value < weight <= 0x40_0000_0000_0000_0000,
            match varint_within(data@, p as int, (10 - used) as nat) {
                Some((v, q)) => whole == Some(((value + weight * v) as nat, q)),
                None => whole is None,
            },
            varint_at(data@, pos as int) matches Some((v, q)) ==> pos < q <= data@.len(),
        decreases data@.len() - p,
    {
        let b: u8 = data[p];
        proof {
            broadcast use vstd::arithmetic::power::lemma_pow1;

            vstd::arithmetic::power::lemma_pow_adds(128, used as nat, 1);
            assert(vstd::arithmetic::power::pow(128, (used + 1) as nat) == weight * 128);
            lemma_weight_bound(used as nat);
            assert(weight * (b % 128) <= weight * 127) by (nonlinear_arith)
                requires
                    weight >= 0,
                    b % 128 <= 127,
            ;
        }
        let low: u8 = b % 128;
        let added: u128 = weight * (low as u128);
        if b < 128 {
            let total: u128 = value + added;
            return Some(((total % 0x1_0000_0000_0000_0000) as u64, p + 1));
        }
        proof {
            if let Some((v, q)) = varint_within(data@, p + 1, (10 - used - 1) as nat) {
                assert(value + weight * (low + 128 * v) == (value + weight * low) + (weight * 128)
                    * v) by (nonlinear_arith);
            }
        }
        value = value + added;
        weight = weight * 128;
        used = used + 1;
        p = p + 1;
    }
    None
}

proof fn lemma_weight_bound(used: nat)
    requires
        used < 10,
    ensures
        vstd::arithmetic::power::pow(128, used) * 128 <= 0x40_0000_0000_0000_0000,
        vstd::arithmetic::power::pow(128, used) >= 1,
{
    reveal_with_fuel(vstd::arithmetic::power::pow, 11);
}

} // verus!
