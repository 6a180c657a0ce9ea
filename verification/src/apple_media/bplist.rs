//! A minimal binary property list writer and parser for the flat dictionaries
//! exchanged during media negotiation.

use vstd::prelude::*;
use vstd::utf8::{decode_utf8, encode_utf8, valid_utf8};

use crate::apple_media::protobuf::{varint, varint_bytes};
use crate::text::{same_text, utf8_string};
use crate::wire::{
    be64, be_bytes, be_nat, lemma_be_bytes, lemma_be_nat_bound, push_all, push_u64, push_zeros,
    same, slice, to_vec, u64_at, u64_of, zeros,
};

verus! {

/// A value held by a dictionary.
#[derive(Debug, Clone, PartialEq, Eq)]
pub enum Value {
    Int(u64),
    Data(Vec<u8>),
    String(String),
}

/// What a [`Value`] stands for.
pub enum Item {
    Int(u64),
    Data(Seq<u8>),
    Text(Seq<char>),
}

impl View for Value {
    type V = Item;

    open spec fn view(&self) -> Item {
        match self {
            Value::Int(v) => Item::Int(*v),
            Value::Data(d) => Item::Data(d@),
            Value::String(s) => Item::Text(s@),
        }
    }
}

/// A parsed dictionary: the entries in the order they were read. A later entry
/// replaces an earlier one with the same key.
pub struct Dict {
    entries: Vec<(String, Value)>,
}

spec fn entries_map(entries: Seq<(String, Value)>) -> Map<Seq<char>, Item>
    decreases entries.len(),
{
    if entries.len() == 0 {
        Map::empty()
    } else {
        entries_map(entries.drop_last()).insert(entries.last().0@, entries.last().1@)
    }
}

impl View for Dict {
    type V = Map<Seq<char>, Item>;

    closed spec fn view(&self) -> Map<Seq<char>, Item> {
        entries_map(self.entries@)
    }
}

impl Dict {
    fn new() -> (r: Dict)
        ensures
            r@ == Map::<Seq<char>, Item>::empty(),
    {
        Dict { entries: Vec::new() }
    }

    fn insert(&mut self, key: String, value: Value)
        ensures
            final(self)@ == old(self)@.insert(key@, value@),
    {
        self.entries.push((key, value));
        assert(self.entries@.drop_last() =~= old(self).entries@);
    }

    /// The value stored under `key`.
    pub fn get(&self, key: &str) -> (r: Option<&Value>)
        ensures
            match r {
                Some(v) => self@.contains_key(key@) && v@ == self@[key@],
                None => !self@.contains_key(key@),
            },
    {
        let mut i: usize = self.entries.len();
        proof {
            assert(self.entries@.take(i as int) =~= self.entries@);
        }
        while i > 0
            invariant
                i <= self.entries@.len(),
                entries_map(self.entries@).contains_key(key@) == entries_map(
                    self.entries@.take(i as int),
                ).contains_key(key@),
                entries_map(self.entries@).contains_key(key@) ==> entries_map(self.entries@)[key@]
                    == entries_map(self.entries@.take(i as int))[key@],
            decreases i,
        {
            assert(self.entries@.take(i as int).drop_last() =~= self.entries@.take(i - 1));
            assert(self.entries@.take(i as int).last() == self.entries@[i - 1]);
            if same_text(&self.entries[i - 1].0, key) {
                return Some(&self.entries[i - 1].1);
            }
            i = i - 1;
        }
        None
    }
}

// ---------------------------------------------------------------------------
// Layout
// ---------------------------------------------------------------------------

/// The eight bytes every binary property list starts with.
pub open spec fn magic() -> Seq<u8> {
    seq![0x62, 0x70, 0x6c, 0x69, 0x73, 0x74, 0x30, 0x30]
}

/// The number of bytes of an integer object whose marker has the low nibble
/// `info`, for `info` up to 3.
pub open spec fn int_width(info: int) -> nat {
    if info == 0 {
        1
    } else if info == 1 {
        2
    } else if info == 2 {
        4
    } else {
        8
    }
}

/// The integer object at `pos`: its value and the position after it.
pub open spec fn int_at(data: Seq<u8>, pos: int) -> Option<(nat, int)> {
    if !(0 <= pos < data.len()) || data[pos] / 16 != 1 || data[pos] % 16 > 3 {
        None
    } else {
        let end = pos + 1 + int_width((data[pos] % 16) as int);
        if end > data.len() {
            None
        } else {
            Some((be_nat(data.subrange(pos + 1, end)), end))
        }
    }
}

/// Where the contents of the object at `off` start and how many units they
/// hold: the low nibble of the marker, or an integer object when the nibble is
/// 15.
pub open spec fn contents_at(data: Seq<u8>, off: int) -> Option<(nat, int)> {
    if data[off] % 16 < 15 {
        Some(((data[off] % 16) as nat, off + 1))
    } else {
        int_at(data, off + 1)
    }
}

/// The integer, data or string object at `off`.
pub open spec fn object_at(data: Seq<u8>, off: int) -> Option<Item> {
    if !(0 <= off < data.len()) {
        None
    } else if data[off] / 16 == 1 {
        match int_at(data, off) {
            Some((v, end)) => Some(Item::Int(v as u64)),
            None => None,
        }
    } else {
        match contents_at(data, off) {
            Some((n, from)) => if from + n > data.len() {
                None
            } else if data[off] / 16 == 4 {
                Some(Item::Data(data.subrange(from, from + n)))
            } else if data[off] / 16 == 5 && valid_utf8(data.subrange(from, from + n)) {
                Some(Item::Text(decode_utf8(data.subrange(from, from + n))))
            } else {
                None
            },
            None => None,
        }
    }
}

/// Bytes per entry of the offset table.
pub open spec fn offset_size(data: Seq<u8>) -> int {
    data[data.len() - 26] as int
}

/// Bytes per object reference.
pub open spec fn ref_size(data: Seq<u8>) -> int {
    data[data.len() - 25] as int
}

/// How many objects the list holds.
pub open spec fn num_objects(data: Seq<u8>) -> int {
    u64_of(data, data.len() - 24) as int
}

/// The index of the root object.
pub open spec fn top_object(data: Seq<u8>) -> int {
    u64_of(data, data.len() - 16) as int
}

/// Where the offset table starts.
pub open spec fn table_offset(data: Seq<u8>) -> int {
    u64_of(data, data.len() - 8) as int
}

/// The header, trailer and offset table of `data` fit together.
pub open spec fn well_framed(data: Seq<u8>) -> bool {
    &&& data.len() >= 40
    &&& data.subrange(0, 8) == magic()
    &&& 1 <= offset_size(data) <= 8
    &&& 1 <= ref_size(data) <= 8
    &&& table_offset(data) + num_objects(data) * offset_size(data) <= data.len() - 32
}

/// The offset of object `idx`, from the offset table.
pub open spec fn object_offset(data: Seq<u8>, idx: int) -> int {
    let row = table_offset(data) + idx * offset_size(data);
    be_nat(data.subrange(row, row + offset_size(data))) as int
}

/// Object `idx`, if it is an integer, data or string.
pub open spec fn object(data: Seq<u8>, idx: int) -> Option<Item> {
    if !(0 <= idx < num_objects(data)) {
        None
    } else {
        object_at(data, object_offset(data, idx))
    }
}

/// The object reference in slot `slot` of the table at `pos`.
pub open spec fn ref_at(data: Seq<u8>, pos: int, slot: int) -> int {
    let from = pos + slot * ref_size(data);
    be_nat(data.subrange(from, from + ref_size(data))) as int
}

/// The first `i` of the `n` entries whose references stand at `pos`: all keys,
/// then all values. An entry whose key is not a string is passed over; a value
/// that cannot be read makes the whole dictionary unreadable.
pub open spec fn entries_at(data: Seq<u8>, pos: int, n: int, i: int) -> Option<
    Map<Seq<char>, Item>,
>
    decreases i,
{
    if i <= 0 {
        Some(Map::empty())
    } else {
        match entries_at(data, pos, n, i - 1) {
            None => None,
            Some(m) => match object(data, ref_at(data, pos, i - 1)) {
                Some(Item::Text(key)) => match object(data, ref_at(data, pos, n + i - 1)) {
                    Some(value) => Some(m.insert(key, value)),
                    None => None,
                },
                _ => Some(m),
            },
        }
    }
}

/// The dictionary that `data` encodes, or `None` if `data` is not a property
/// list whose root is a readable dictionary.
pub open spec fn dict_of(data: Seq<u8>) -> Option<Map<Seq<char>, Item>> {
    if !well_framed(data) || top_object(data) >= num_objects(data) {
        None
    } else {
        let top = object_offset(data, top_object(data));
        if top >= data.len() || data[top] / 16 != 13 {
            None
        } else {
            match contents_at(data, top) {
                Some((n, pos)) => if pos + 2 * n * ref_size(data) > data.len() {
                    None
                } else {
                    entries_at(data, pos, n as int, n as int)
                },
                None => None,
            }
        }
    }
}

// ---------------------------------------------------------------------------
// Parsing
// ---------------------------------------------------------------------------

proof fn lemma_pow256(n: nat)
    requires
        n <= 8,
    ensures
        vstd::arithmetic::power::pow(256, n) <= 0x1_0000_0000_0000_0000,
        n <= 7 ==> vstd::arithmetic::power::pow(256, n) <= 0x100_0000_0000_0000,
{
    reveal_with_fuel(vstd::arithmetic::power::pow, 9);
}

/// Reads `n` bytes at `pos` as one big-endian number.
fn read_be(data: &[u8], pos: usize, n: usize) -> (r: u64)
    requires
        n <= 8,
        pos + n <= data@.len(),
    ensures
        r == be_nat(data@.subrange(pos as int, pos + n)),
{
    let mut v: u64 = 0;
    let mut i: usize = 0;
    while i < n
        invariant
            i <= n <= 8,
            pos + n <= data@.len(),
            v == be_nat(data@.subrange(pos as int, pos + i)),
        decreases n - i,
    {
        proof {
            let s = data@.subrange(pos as int, pos + i);
            lemma_be_nat_bound(s);
            lemma_pow256(i as nat);
            let t = data@.subrange(pos as int, pos + i + 1);
            assert(t.drop_last() =~= s);
            assert(t.last() == data@[pos + i]);
            assert(pos + n <= data.len());
        }
        v = v * 256 + data[pos + i] as u64;
        i = i + 1;
    }
    v
}

/// Reads the integer object at `pos`.
fn read_int(data: &[u8], pos: usize) -> (r: Option<(u64, usize)>)
    ensures
        match int_at(data@, pos as int) {
            Some((v, end)) => r == Some((v as u64, end as usize)) && v <= u64::MAX && end
                <= data@.len(),
            None => r is None,
        },
{
    if pos >= data.len() {
        return None;
    }
    let marker: u8 = data[pos];
    if marker / 16 != 1 || marker % 16 > 3 {
        return None;
    }
    let info: u8 = marker % 16;
    let width: usize = if info == 0 {
        1
    } else if info == 1 {
        2
    } else if info == 2 {
        4
    } else {
        8
    };
    if width > data.len() - pos - 1 {
        return None;
    }
    let v: u64 = read_be(data, pos + 1, width);
    Some((v, pos + 1 + width))
}

/// Reads how many units the object at `off` holds and where they start.
fn read_contents(data: &[u8], off: usize) -> (r: Option<(u64, usize)>)
    requires
        off < data@.len(),
    ensures
        match contents_at(data@, off as int) {
            Some((n, from)) => r == Some((n as u64, from as usize)) && n <= u64::MAX && off < from
                <= data@.len(),
            None => r is None,
        },
{
    assert(off < data.len());
    let info: u8 = data[off] % 16;
    if info < 15 {
        Some((info as u64, off + 1))
    } else {
        read_int(data, off + 1)
    }
}

/// Reads the integer, data or string object at `off`.
fn read_object(data: &[u8], off: u64) -> (r: Option<Value>)
    ensures
        match object_at(data@, off as int) {
            Some(item) => r matches Some(v) && v@ == item,
            None => r is None,
        },
{
    if off >= data.len() as u64 {
        return None;
    }
    let off: usize = off as usize;
    let kind: u8 = data[off] / 16;
    if kind == 1 {
        match read_int(data, off) {
            Some((v, end)) => Some(Value::Int(v)),
            None => None,
        }
    } else {
        match read_contents(data, off) {
            None => None,
            Some((n, from)) => {
                if n > (data.len() - from) as u64 {
                    return None;
                }
                let body = slice(data, from, from + n as usize);
                if kind == 4 {
                    Some(Value::Data(to_vec(body)))
                } else if kind == 5 {
                    match utf8_string(body) {
                        Some(s) => Some(Value::String(s)),
                        None => None,
                    }
                } else {
                    None
                }
            },
        }
    }
}

/// Reads object `idx` through the offset table.
fn get_value(data: &[u8], idx: u64, num: u64, table: usize, width: usize) -> (r: Option<Value>)
    requires
        well_framed(data@),
        num == num_objects(data@),
        table == table_offset(data@),
        width == offset_size(data@),
    ensures
        match object(data@, idx as int) {
            Some(item) => r matches Some(v) && v@ == item,
            None => r is None,
        },
{
    if idx >= num {
        return None;
    }
    proof {
        lemma_row_fits(table as int, idx as int, num as int, width as int, data@.len() - 32);
    }
    assert(data.len() >= 40);
    let row: usize = table + (idx as usize) * width;
    read_object(data, read_be(data, row, width))
}

proof fn lemma_row_fits(table: int, idx: int, num: int, width: int, limit: int)
    requires
        0 <= idx < num,
        1 <= width,
        0 <= table,
        table + num * width <= limit,
    ensures
        0 <= idx * width,
        idx <= idx * width,
        table + idx * width + width <= limit,
{
    assert(idx * width + width <= num * width) by (nonlinear_arith)
        requires
            idx < num,
            1 <= width,
    ;
    assert(idx <= idx * width) by (nonlinear_arith)
        requires
            0 <= idx,
            1 <= width,
    ;
}

proof fn lemma_quotient(n: int, d: int, room: int)
    requires
        0 < d,
        0 <= n,
        0 <= room,
    ensures
        n > room / d <==> n * d > room,
{
    if n > room / d {
        assert(n * d > room) by (nonlinear_arith)
            requires
                n >= room / d + 1,
                0 < d,
                0 <= room,
        ;
    } else {
        assert(n * d <= room) by (nonlinear_arith)
            requires
                n <= room / d,
                0 < d,
                0 <= room,
                0 <= n,
        ;
    }
}

/// Parses a binary property list whose root is a flat dictionary with string
/// keys and values that are integers, data or strings.
#[verifier::rlimit(30)]
pub fn parse_dict(data: &[u8]) -> (r: Option<Dict>)
    ensures
        match dict_of(data@) {
            Some(m) => r matches Some(d) && d@ == m,
            None => r is None,
        },
{
    if data.len() < 40 {
        return None;
    }
    let header: [u8; 8] = [0x62, 0x70, 0x6c, 0x69, 0x73, 0x74, 0x30, 0x30];
    assert(header@ =~= magic());
    if !same(slice(data, 0, 8), &header) {
        return None;
    }
    let end: usize = data.len();
    let width: usize = data[end - 26] as usize;
    let refs: usize = data[end - 25] as usize;
    let num: u64 = u64_at(data, end - 24);
    let top: u64 = u64_at(data, end - 16);
    let table: u64 = u64_at(data, end - 8);
    if width == 0 || width > 8 || refs == 0 || refs > 8 {
        return None;
    }
    let limit: usize = end - 32;
    if table > limit as u64 {
        proof {
            assert(num * width >= 0) by (nonlinear_arith)
                requires
                    num >= 0,
                    width >= 0,
            ;
        }
        return None;
    }
    let table: usize = table as usize;
    proof {
        lemma_quotient(num as int, width as int, limit - table);
    }
    if num > ((limit - table) / width) as u64 {
        return None;
    }
    if top >= num {
        return None;
    }
    proof {
        lemma_row_fits(table as int, top as int, num as int, width as int, limit as int);
    }
    let row: usize = table + (top as usize) * width;
    let top_offset: u64 = read_be(data, row, width);
    if top_offset >= end as u64 {
        return None;
    }
    let top_offset: usize = top_offset as usize;
    if data[top_offset] / 16 != 13 {
        return None;
    }
    let (n, pos) = match read_contents(data, top_offset) {
        Some(c) => c,
        None => return None,
    };
    proof {
        lemma_quotient(n as int, 2 * refs, end - pos);
        assert(n * (2 * refs) == 2 * n * refs) by (nonlinear_arith);
    }
    if n > ((end - pos) / (2 * refs)) as u64 {
        return None;
    }
    let n: usize = n as usize;
    let mut result = Dict::new();
    let mut i: usize = 0;
    while i < n
        invariant
            well_framed(data@),
            num == num_objects(data@),
            table == table_offset(data@),
            width == offset_size(data@),
            refs == ref_size(data@),
            i <= n,
            end == data.len(),
            pos + 2 * n * refs <= end,
            dict_of(data@) == entries_at(data@, pos as int, n as int, n as int),
            entries_at(data@, pos as int, n as int, i as int) == Some(result@),
        decreases n - i,
    {
        proof {
            lemma_row_fits(pos as int, i as int, 2 * n, refs as int, end as int);
            lemma_row_fits(pos as int, n + i, 2 * n, refs as int, end as int);
        }
        let key_ref: u64 = read_be(data, pos + i * refs, refs);
        let value_ref: u64 = read_be(data, pos + (n + i) * refs, refs);
        let ghost before = result@;
        if let Some(Value::String(key)) = get_value(data, key_ref, num, table, width) {
            match get_value(data, value_ref, num, table, width) {
                Some(value) => {
                    result.insert(key, value);
                },
                None => {
                    proof {
                        lemma_entries_stuck(data@, pos as int, n as int, i + 1, n as int);
                    }
                    return None;
                },
            }
        }
        i = i + 1;
    }
    Some(result)
}

proof fn lemma_entries_stuck(data: Seq<u8>, pos: int, n: int, i: int, j: int)
    requires
        0 <= i <= j,
        entries_at(data, pos, n, i) is None,
    ensures
        entries_at(data, pos, n, j) is None,
    decreases j - i,
{
    if i < j {
        lemma_entries_stuck(data, pos, n, i, j - 1);
    }
}

// ---------------------------------------------------------------------------
// Building
// ---------------------------------------------------------------------------

/// How many bytes it takes to write `v`.
pub open spec fn byte_width(v: nat) -> nat
    decreases v,
{
    if v < 256 {
        1
    } else {
        1 + byte_width(v / 256)
    }
}

/// The low nibble of the marker of an object with `n` units.
pub open spec fn nibble(n: nat) -> u8 {
    if n < 15 {
        n as u8
    } else {
        15u8
    }
}

/// An integer object, in the shortest of the four widths.
pub open spec fn int_object(v: u64) -> Seq<u8> {
    if v <= 0xff {
        seq![0x10u8] + be_bytes(v as nat, 1)
    } else if v <= 0xffff {
        seq![0x11u8] + be_bytes(v as nat, 2)
    } else if v <= 0xffff_ffff {
        seq![0x12u8] + be_bytes(v as nat, 4)
    } else {
        seq![0x13u8] + be_bytes(v as nat, 8)
    }
}

/// The marker of an object of kind `kind` with `n` units, followed by the count
/// where the marker cannot hold it.
pub open spec fn object_head(kind: u8, n: nat) -> Seq<u8> {
    seq![(kind * 16 + nibble(n)) as u8] + if n < 15 {
        Seq::<u8>::empty()
    } else {
        int_object(n as u64)
    }
}

/// A data object.
pub open spec fn data_object(d: Seq<u8>) -> Seq<u8> {
    object_head(4, d.len()) + d
}

/// A string object holding the UTF-8 bytes `s`.
pub open spec fn text_object(s: Seq<u8>) -> Seq<u8> {
    object_head(5, s.len()) + s
}

/// A dictionary object with `n` entries and one-byte references.
pub open spec fn dict_object(n: nat, refs: Seq<u8>) -> Seq<u8> {
    seq![(13 * 16 + nibble(n)) as u8] + (if n < 15 {
        Seq::<u8>::empty()
    } else {
        varint_bytes(n)
    }) + refs
}

/// The concatenation of `parts`.
pub open spec fn flat(parts: Seq<Seq<u8>>) -> Seq<u8>
    decreases parts.len(),
{
    if parts.len() == 0 {
        Seq::empty()
    } else {
        flat(parts.drop_last()) + parts.last()
    }
}

/// Where object `i` of a list holding `objs` starts.
pub open spec fn object_start(objs: Seq<Seq<u8>>, i: int) -> nat {
    8 + flat(objs.take(i)).len()
}

/// The first `n` rows of the offset table, `width` bytes each.
pub open spec fn offset_rows(objs: Seq<Seq<u8>>, width: nat, n: int) -> Seq<u8>
    decreases n,
{
    if n <= 0 {
        Seq::empty()
    } else {
        offset_rows(objs, width, n - 1) + be_bytes(object_start(objs, n - 1), width)
    }
}

/// The width of the offset table's rows for a list whose table starts at `at`
/// and has `n` rows.
pub open spec fn row_width(at: nat, n: nat) -> nat {
    byte_width(if at + n <= usize::MAX {
        at + n
    } else {
        usize::MAX as nat
    })
}

/// The property list that holds `objs`, with object `top` as its root.
#[verifier::opaque]
pub open spec fn plist(objs: Seq<Seq<u8>>, top: u64) -> Seq<u8> {
    let body = magic() + flat(objs);
    let width = row_width(body.len(), objs.len());
    body + offset_rows(objs, width, objs.len() as int) + zeros(6) + seq![width as u8, 1u8] + be64(
        objs.len() as u64,
    ) + be64(top) + be64(body.len() as u64)
}

/// The objects of a negotiation dictionary: four values, four keys, and the
/// dictionary that ties them together.
pub open spec fn negotiation_objects(
    endpoint: Seq<u8>,
    mode: u64,
    blob: Seq<u8>,
    call_id: Seq<char>,
) -> Seq<Seq<u8>> {
    seq![
        data_object(endpoint),
        int_object(mode),
        data_object(blob),
        text_object(encode_utf8(call_id)),
        text_object(encode_utf8("avcMediaStreamOptionRemoteEndpointInfo"@)),
        text_object(encode_utf8("avcMediaStreamNegotiatorMode"@)),
        text_object(encode_utf8("avcMediaStreamNegotiatorMediaBlob"@)),
        text_object(encode_utf8("avcMediaStreamOptionCallID"@)),
        dict_object(4, seq![4u8, 5u8, 6u8, 7u8, 0u8, 1u8, 2u8, 3u8]),
    ]
}

/// Appends the last `n` bytes of the big-endian form of `v`.
fn push_be(out: &mut Vec<u8>, v: u64, n: usize)
    requires
        n <= 8,
    ensures
        final(out)@ == old(out)@ + be_bytes(v as nat, n as nat),
    decreases n,
{
    if n == 0 {
        assert(out@ =~= old(out)@ + be_bytes(v as nat, 0));
        return;
    }
    push_be(out, v / 256, n - 1);
    out.push((v % 256) as u8);
    assert(out@ =~= old(out)@ + be_bytes(v as nat, n as nat));
}

fn encode_int(v: u64) -> (out: Vec<u8>)
    ensures
        out@ == int_object(v),
{
    let mut out: Vec<u8> = Vec::new();
    if v <= 0xff {
        out.push(0x10);
        push_be(&mut out, v, 1);
    } else if v <= 0xffff {
        out.push(0x11);
        push_be(&mut out, v, 2);
    } else if v <= 0xffff_ffff {
        out.push(0x12);
        push_be(&mut out, v, 4);
    } else {
        out.push(0x13);
        push_be(&mut out, v, 8);
    }
    assert(out@ =~= int_object(v));
    out
}

fn len_nibble(len: usize) -> (r: u8)
    ensures
        r == nibble(len as nat),
{
    if len < 15 {
        len as u8
    } else {
        0x0F
    }
}

fn encode_head(kind: u8, len: usize) -> (out: Vec<u8>)
    requires
        kind < 16,
    ensures
        out@ == object_head(kind, len as nat),
{
    let mut out: Vec<u8> = Vec::new();
    out.push(kind * 16 + len_nibble(len));
    if len >= 15 {
        push_all(&mut out, &encode_int(len as u64));
    }
    assert(out@ =~= object_head(kind, len as nat));
    out
}

fn encode_data(data: &[u8]) -> (out: Vec<u8>)
    ensures
        out@ == data_object(data@),
{
    let mut out = encode_head(4, data.len());
    push_all(&mut out, data);
    out
}

fn encode_ascii_string(s: &str) -> (out: Vec<u8>)
    ensures
        out@ == text_object(encode_utf8(s@)),
{
    let bytes = s.as_bytes();
    let mut out = encode_head(5, bytes.len());
    push_all(&mut out, bytes);
    out
}

fn encode_dict(count: usize, refs: &[u8]) -> (out: Vec<u8>)
    ensures
        out@ == dict_object(count as nat, refs@),
{
    let mut out: Vec<u8> = Vec::new();
    out.push(13 * 16 + len_nibble(count));
    if count >= 15 {
        push_all(&mut out, &varint(count as u64));
    }
    push_all(&mut out, refs);
    assert(out@ =~= dict_object(count as nat, refs@));
    out
}

/// How many bytes it takes to write `v`.
fn width_of(v: u64) -> (r: usize)
    ensures
        r == byte_width(v as nat),
        1 <= r <= 8,
{
    let mut rest: u64 = v;
    let mut r: usize = 1;
    let ghost mut bound: nat = 0x1_0000_0000_0000_0000;
    while rest >= 256
        invariant
            1 <= r <= 8,
            r - 1 + byte_width(rest as nat) == byte_width(v as nat),
            rest < bound,
            r == 1 ==> bound == 0x1_0000_0000_0000_0000,
            r == 2 ==> bound == 0x100_0000_0000_0000,
            r == 3 ==> bound == 0x1_0000_0000_0000,
            r == 4 ==> bound == 0x100_0000_0000,
            r == 5 ==> bound == 0x1_0000_0000,
            r == 6 ==> bound == 0x100_0000,
            r == 7 ==> bound == 0x1_0000,
            r == 8 ==> bound == 0x100,
        decreases rest,
    {
        rest = rest / 256;
        r = r + 1;
        proof {
            bound = bound / 256;
        }
    }
    r
}

/// Builds a binary property list containing exactly the four media-negotiation
/// keys and their values.
pub fn build_dict(remote_endpoint_info: &[u8], mode: u64, media_blob: &[u8], call_id: &str) -> (out:
    Vec<u8>)
    ensures
        out@ == plist(
            negotiation_objects(remote_endpoint_info@, mode, media_blob@, call_id@),
            8,
        ),
{
    let refs: [u8; 8] = [4, 5, 6, 7, 0, 1, 2, 3];
    let objects: Vec<Vec<u8>> = vec![
        encode_data(remote_endpoint_info),
        encode_int(mode),
        encode_data(media_blob),
        encode_ascii_string(call_id),
        encode_ascii_string("avcMediaStreamOptionRemoteEndpointInfo"),
        encode_ascii_string("avcMediaStreamNegotiatorMode"),
        encode_ascii_string("avcMediaStreamNegotiatorMediaBlob"),
        encode_ascii_string("avcMediaStreamOptionCallID"),
        encode_dict(4, &refs),
    ];
    let ghost objs = negotiation_objects(remote_endpoint_info@, mode, media_blob@, call_id@);
    assert(refs@ =~= seq![4u8, 5u8, 6u8, 7u8, 0u8, 1u8, 2u8, 3u8]);
    assert(objects@.len() == 9 && objs.len() == 9);
    assert(forall|i: int| 0 <= i < 9 ==> (#[trigger] objects@[i])@ == objs[i]);
    let header: [u8; 8] = [0x62, 0x70, 0x6c, 0x69, 0x73, 0x74, 0x30, 0x30];
    let mut out = to_vec(&header);
    assert(out@ =~= magic() + flat(objs.take(0)));
    let mut offsets: Vec<usize> = Vec::new();
    let mut i: usize = 0;
    while i < 9
        invariant
            i <= 9,
            objects@.len() == 9,
            objs.len() == 9,
            forall|j: int| 0 <= j < 9 ==> (#[trigger] objects@[j])@ == objs[j],
            out@ == magic() + flat(objs.take(i as int)),
            offsets@.len() == i,
            forall|j: int| 0 <= j < i ==> (#[trigger] offsets@[j]) == object_start(objs, j),
        decreases 9 - i,
    {
        // Offsets are absolute: they count from the start of the header.
        offsets.push(out.len());
        push_all(&mut out, &objects[i]);
        proof {
            assert(objs.take(i + 1).drop_last() =~= objs.take(i as int));
            assert(out@ =~= magic() + flat(objs.take(i + 1)));
        }
        i = i + 1;
    }
    assert(objs.take(9) =~= objs);
    let table: usize = out.len();
    let width: usize = width_of(table.saturating_add(9) as u64);
    let ghost body = out@;
    let mut i: usize = 0;
    while i < 9
        invariant
            i <= 9,
            1 <= width <= 8,
            offsets@.len() == 9,
            forall|j: int| 0 <= j < 9 ==> (#[trigger] offsets@[j]) == object_start(objs, j),
            out@ == body + offset_rows(objs, width as nat, i as int),
        decreases 9 - i,
    {
        push_be(&mut out, offsets[i] as u64, width);
        assert(out@ =~= body + offset_rows(objs, width as nat, i + 1));
        i = i + 1;
    }
    // Trailer: six unused bytes, the two sizes and three counts.
    push_zeros(&mut out, 6);
    out.push(width as u8);
    out.push(1);
    push_u64(&mut out, 9);
    push_u64(&mut out, 8);
    push_u64(&mut out, table as u64);
    proof {
        reveal(plist);
        assert(out@ =~= plist(objs, 8));
    }
    out
}

// ---------------------------------------------------------------------------
// What is built reads back
// ---------------------------------------------------------------------------

/// `data` holds the bytes `s` at `off`.
spec fn holds(data: Seq<u8>, off: int, s: Seq<u8>) -> bool {
    0 <= off && off + s.len() <= data.len() && data.subrange(off, off + s.len()) == s
}

proof fn lemma_holds_part(data: Seq<u8>, off: int, a: Seq<u8>, b: Seq<u8>)
    requires
        holds(data, off, a + b),
    ensures
        holds(data, off, a),
        holds(data, off + a.len(), b),
{
    let s = data.subrange(off, off + (a + b).len());
    assert(data.subrange(off, off + a.len()) =~= a) by {
        assert forall|i: int| 0 <= i < a.len() implies data[off + i] == a[i] by {
            assert(s[i] == (a + b)[i]);
        }
    }
    assert(data.subrange(off + a.len(), off + a.len() + b.len()) =~= b) by {
        assert forall|i: int| 0 <= i < b.len() implies data[off + a.len() + i] == b[i] by {
            assert(s[a.len() + i] == (a + b)[a.len() + i]);
        }
    }
}

proof fn lemma_byte_width(v: nat)
    ensures
        1 <= byte_width(v),
        v < vstd::arithmetic::power::pow(256, byte_width(v)),
    decreases v,
{
    broadcast use vstd::arithmetic::power::lemma_pow1;

    if v >= 256 {
        lemma_byte_width(v / 256);
        vstd::arithmetic::power::lemma_pow_adds(256, byte_width(v / 256), 1);
    }
}

proof fn lemma_byte_width_max(v: nat)
    requires
        v <= u64::MAX,
    ensures
        byte_width(v) <= 8,
{
    reveal_with_fuel(byte_width, 9);
}

proof fn lemma_int_object(data: Seq<u8>, off: int, v: u64)
    requires
        holds(data, off, int_object(v)),
    ensures
        data[off] / 16 == 1,
        int_at(data, off) == Some((v as nat, off + int_object(v).len())),
        2 <= int_object(v).len() <= 9,
{
    reveal_with_fuel(vstd::arithmetic::power::pow, 9);
    let n: nat = if v <= 0xff {
        1
    } else if v <= 0xffff {
        2
    } else if v <= 0xffff_ffff {
        4
    } else {
        8
    };
    lemma_be_bytes(v as nat, n);
    let marker = int_object(v)[0];
    assert(int_object(v) =~= seq![marker] + be_bytes(v as nat, n));
    lemma_holds_part(data, off, seq![marker], be_bytes(v as nat, n));
    assert(data[off] == data.subrange(off, off + 1)[0]);
}

proof fn lemma_head(data: Seq<u8>, off: int, kind: u8, n: nat)
    requires
        holds(data, off, object_head(kind, n)),
        n <= u64::MAX,
        kind < 16,
    ensures
        data[off] / 16 == kind,
        contents_at(data, off) == Some((n, off + object_head(kind, n).len())),
{
    let marker = (kind * 16 + nibble(n)) as u8;
    let rest = if n < 15 {
        Seq::<u8>::empty()
    } else {
        int_object(n as u64)
    };
    lemma_holds_part(data, off, seq![marker], rest);
    assert(data[off] == data.subrange(off, off + 1)[0]);
    if n >= 15 {
        lemma_int_object(data, off + 1, n as u64);
    }
}

proof fn lemma_data_object(data: Seq<u8>, off: int, d: Seq<u8>)
    requires
        holds(data, off, data_object(d)),
        data.len() <= u64::MAX,
    ensures
        object_at(data, off) == Some(Item::Data(d)),
{
    lemma_holds_part(data, off, object_head(4, d.len()), d);
    lemma_head(data, off, 4, d.len());
}

proof fn lemma_text_object(data: Seq<u8>, off: int, chars: Seq<char>)
    requires
        holds(data, off, text_object(encode_utf8(chars))),
        data.len() <= u64::MAX,
    ensures
        object_at(data, off) == Some(Item::Text(chars)),
{
    let s = encode_utf8(chars);
    lemma_holds_part(data, off, object_head(5, s.len()), s);
    lemma_head(data, off, 5, s.len());
    vstd::utf8::encode_utf8_valid_utf8(chars);
    vstd::utf8::encode_utf8_decode_utf8(chars);
}

proof fn lemma_flat_holds(parts: Seq<Seq<u8>>, i: int)
    requires
        0 <= i < parts.len(),
    ensures
        holds(flat(parts), flat(parts.take(i)).len() as int, parts[i]),
    decreases parts.len(),
{
    let front = parts.drop_last();
    if i == parts.len() - 1 {
        assert(parts.take(i) =~= front);
        assert(flat(parts).subrange(flat(front).len() as int, flat(parts).len() as int)
            =~= parts[i]);
    } else {
        assert(front.take(i) =~= parts.take(i));
        lemma_flat_holds(front, i);
        let off = flat(parts.take(i)).len() as int;
        assert(flat(parts).subrange(off, off + parts[i].len()) =~= flat(front).subrange(
            off,
            off + parts[i].len(),
        ));
    }
}

proof fn lemma_rows_len(objs: Seq<Seq<u8>>, width: nat, n: int)
    requires
        0 <= n,
    ensures
        offset_rows(objs, width, n).len() == n * width,
    decreases n,
{
    if n > 0 {
        lemma_rows_len(objs, width, n - 1);
        lemma_be_bytes(object_start(objs, n - 1), width);
        assert((n - 1) * width + width == n * width) by (nonlinear_arith);
    } else {
        assert(0 * width == 0) by (nonlinear_arith);
    }
}

proof fn lemma_rows_hold(objs: Seq<Seq<u8>>, width: nat, n: int, i: int)
    requires
        0 <= i < n,
    ensures
        holds(offset_rows(objs, width, n), i * width, be_bytes(object_start(objs, i), width)),
    decreases n,
{
    let rows = offset_rows(objs, width, n);
    lemma_rows_len(objs, width, n);
    lemma_rows_len(objs, width, n - 1);
    lemma_be_bytes(object_start(objs, i), width);
    assert((n - 1) * width + width == n * width) by (nonlinear_arith);
    assert(0 <= i * width) by (nonlinear_arith)
        requires
            0 <= i,
            0 <= width,
    ;
    if i == n - 1 {
        assert(rows.subrange(i * width, i * width + width) =~= be_bytes(
            object_start(objs, i),
            width,
        ));
    } else {
        lemma_rows_hold(objs, width, n - 1, i);
        assert(rows.subrange(i * width, i * width + width) =~= offset_rows(
            objs,
            width,
            n - 1,
        ).subrange(i * width, i * width + width));
    }
}

/// Everything in front of `post` keeps its place when `post` is appended and
/// moves by the length of `pre` when `pre` is put before it.
proof fn lemma_holds_placed(pre: Seq<u8>, mid: Seq<u8>, post: Seq<u8>, off: int, s: Seq<u8>)
    requires
        holds(mid, off, s),
    ensures
        holds(pre + mid + post, pre.len() + off, s),
{
    let data = pre + mid + post;
    assert(data.subrange(pre.len() + off, pre.len() + off + s.len()) =~= mid.subrange(
        off,
        off + s.len(),
    ));
}

proof fn lemma_flat_take_le(objs: Seq<Seq<u8>>, i: int)
    requires
        0 <= i <= objs.len(),
    ensures
        flat(objs.take(i)).len() <= flat(objs).len(),
    decreases objs.len(),
{
    if i < objs.len() {
        assert(objs.drop_last().take(i) =~= objs.take(i));
        lemma_flat_take_le(objs.drop_last(), i);
    } else {
        assert(objs.take(i) =~= objs);
    }
}

/// The trailer that ends a list whose objects take up `body_len` bytes.
spec fn trailer(width: nat, n: u64, top: u64, body_len: u64) -> Seq<u8> {
    zeros(6) + seq![width as u8, 1u8] + be64(n) + be64(top) + be64(body_len)
}

proof fn lemma_trailer_fields(pre: Seq<u8>, width: nat, n: u64, top: u64, body_len: u64)
    requires
        1 <= width <= 8,
    ensures
        trailer(width, n, top, body_len).len() == 32,
        offset_size(pre + trailer(width, n, top, body_len)) == width,
        ref_size(pre + trailer(width, n, top, body_len)) == 1,
        num_objects(pre + trailer(width, n, top, body_len)) == n,
        top_object(pre + trailer(width, n, top, body_len)) == top,
        table_offset(pre + trailer(width, n, top, body_len)) == body_len,
{
    let data = pre + trailer(width, n, top, body_len);
    let sizes = seq![width as u8, 1u8];
    let head = pre + zeros(6) + sizes;
    crate::wire::lemma_be64_round_trip(n);
    crate::wire::lemma_be64_round_trip(top);
    crate::wire::lemma_be64_round_trip(body_len);
    lemma_regroup(pre, zeros(6), sizes, be64(n), be64(top), be64(body_len));
    assert(data[pre.len() as int + 6] == width as u8) by {
        assert(data[pre.len() as int + 6] == head[pre.len() as int + 6]);
    }
    assert(data[pre.len() as int + 7] == 1u8) by {
        assert(data[pre.len() as int + 7] == head[pre.len() as int + 7]);
    }
    lemma_u64_placed(head, n, be64(top) + be64(body_len));
    lemma_u64_placed(head + be64(n), top, be64(body_len));
    lemma_u64_placed(head + be64(n) + be64(top), body_len, Seq::empty());
}

proof fn lemma_regroup(
    pre: Seq<u8>,
    z: Seq<u8>,
    s: Seq<u8>,
    a: Seq<u8>,
    b: Seq<u8>,
    c: Seq<u8>,
)
    ensures
        pre + (z + s + a + b + c) == (pre + z + s) + a + (b + c),
        pre + (z + s + a + b + c) == (pre + z + s + a) + b + c,
        pre + (z + s + a + b + c) == (pre + z + s + a + b) + c + Seq::<u8>::empty(),
        (pre + (z + s + a + b + c)).len() == pre.len() + z.len() + s.len() + a.len() + b.len()
            + c.len(),
{
    assert(pre + (z + s + a + b + c) =~= (pre + z + s) + a + (b + c));
    assert(pre + (z + s + a + b + c) =~= (pre + z + s + a) + b + c);
    assert(pre + (z + s + a + b + c) =~= (pre + z + s + a + b) + c + Seq::<u8>::empty());
}

proof fn lemma_plist_width(objs: Seq<Seq<u8>>)
    requires
        magic().len() + flat(objs).len() <= usize::MAX,
    ensures
        1 <= row_width(magic().len() + flat(objs).len(), objs.len()) <= 8,
        forall|i: int|
            0 <= i < objs.len() ==> #[trigger] object_start(objs, i)
                < vstd::arithmetic::power::pow(
                256,
                row_width(magic().len() + flat(objs).len(), objs.len()),
            ),
{
    let at = magic().len() + flat(objs).len();
    let max: nat = if at + objs.len() <= usize::MAX {
        at + objs.len()
    } else {
        usize::MAX as nat
    };
    lemma_byte_width(max);
    lemma_byte_width_max(max);
    assert forall|i: int| 0 <= i < objs.len() implies #[trigger] object_start(objs, i) <= max by {
        lemma_flat_take_le(objs, i);
    }
}

/// The frame of a built list: its trailer fields and its size.
proof fn lemma_plist_frame(objs: Seq<Seq<u8>>, top: u64)
    requires
        1 <= objs.len() < 1000,
        plist(objs, top).len() <= usize::MAX,
    ensures
        well_framed(plist(objs, top)),
        ref_size(plist(objs, top)) == 1,
        num_objects(plist(objs, top)) == objs.len(),
        top_object(plist(objs, top)) == top,
        table_offset(plist(objs, top)) == 8 + flat(objs).len(),
        offset_size(plist(objs, top)) == row_width(8 + flat(objs).len(), objs.len()),
{
    reveal(plist);
    let data = plist(objs, top);
    let n = objs.len();
    let body = magic() + flat(objs);
    let width = row_width(body.len(), n);
    let rows = offset_rows(objs, width, n as int);
    let tail = trailer(width, n as u64, top, body.len() as u64);
    assert(body.len() <= data.len());
    lemma_plist_width(objs);
    lemma_rows_len(objs, width, n as int);
    lemma_trailer_fields(body + rows, width, n as u64, top, body.len() as u64);
    assert(data =~= body + rows + tail);
    assert(data.subrange(0, 8) =~= magic());
    assert(num_objects(data) * offset_size(data) == n * width);
}

/// Object `i` of a built list is found where it was put.
proof fn lemma_plist_object(objs: Seq<Seq<u8>>, top: u64, i: int)
    requires
        0 <= i < objs.len() < 1000,
        plist(objs, top).len() <= usize::MAX,
    ensures
        object_offset(plist(objs, top), i) == object_start(objs, i),
        holds(plist(objs, top), object_start(objs, i) as int, objs[i]),
{
    reveal(plist);
    let data = plist(objs, top);
    let n = objs.len();
    let body = magic() + flat(objs);
    let width = row_width(body.len(), n);
    let rows = offset_rows(objs, width, n as int);
    let tail = trailer(width, n as u64, top, body.len() as u64);
    let start = object_start(objs, i);
    lemma_plist_frame(objs, top);
    assert(body.len() <= data.len());
    lemma_plist_width(objs);
    assert(data =~= body + rows + tail);
    lemma_rows_hold(objs, width, n as int, i);
    lemma_be_bytes(start, width);
    lemma_holds_placed(body, rows, tail, i * width, be_bytes(start, width));
    assert(holds(data, table_offset(data) + i * width, be_bytes(start, width)));
    assert(be_nat(be_bytes(start, width)) == start);
    lemma_flat_holds(objs, i);
    lemma_holds_placed(
        magic(),
        flat(objs),
        rows + tail,
        flat(objs.take(i)).len() as int,
        objs[i],
    );
    assert(data =~= magic() + flat(objs) + (rows + tail));
}

/// `data` is a list of nine objects in which each of `objs` is found.
spec fn lists(data: Seq<u8>, objs: Seq<Seq<u8>>) -> bool {
    &&& data.len() <= u64::MAX
    &&& num_objects(data) == 9
    &&& objs.len() == 9
    &&& forall|i: int| 0 <= i < 9 ==> holds(data, #[trigger] object_offset(data, i), objs[i])
}

proof fn lemma_plist_lists(objs: Seq<Seq<u8>>, top: u64)
    requires
        objs.len() == 9,
        plist(objs, top).len() <= usize::MAX,
    ensures
        lists(plist(objs, top), objs),
{
    lemma_plist_frame(objs, top);
    assert forall|i: int| 0 <= i < 9 implies holds(
        plist(objs, top),
        #[trigger] object_offset(plist(objs, top), i),
        objs[i],
    ) by {
        lemma_plist_object(objs, top, i);
    }
}

proof fn lemma_u64_placed(pre: Seq<u8>, v: u64, post: Seq<u8>)
    ensures
        u64_of(pre + be64(v) + post, pre.len() as int) == v,
{
    let data = pre + be64(v) + post;
    let n = pre.len() as int;
    crate::wire::lemma_be64_round_trip(v);
    assert forall|i: int| 0 <= i < 8 implies data[n + i] == be64(v)[i] by {}
    assert(crate::wire::u32_of(data, n) == crate::wire::u32_of(be64(v), 0)) by {
        assert(data[n + 0] == be64(v)[0]);
        assert(data[n + 1] == be64(v)[1]);
        assert(data[n + 2] == be64(v)[2]);
        assert(data[n + 3] == be64(v)[3]);
    }
    assert(crate::wire::u32_of(data, n + 4) == crate::wire::u32_of(be64(v), 4)) by {
        assert(data[n + 4] == be64(v)[4]);
        assert(data[n + 5] == be64(v)[5]);
        assert(data[n + 6] == be64(v)[6]);
        assert(data[n + 7] == be64(v)[7]);
    }
}

/// Parsing a dictionary that [`build_dict`] built gives back its four entries,
/// as long as the list fits in memory.
pub proof fn lemma_dict_round_trip(
    endpoint: Seq<u8>,
    mode: u64,
    blob: Seq<u8>,
    call_id: Seq<char>,
)
    requires
        plist(negotiation_objects(endpoint, mode, blob, call_id), 8).len() <= usize::MAX,
    ensures
        dict_of(plist(negotiation_objects(endpoint, mode, blob, call_id), 8)) == Some(
            Map::<Seq<char>, Item>::empty().insert(
                "avcMediaStreamOptionRemoteEndpointInfo"@,
                Item::Data(endpoint),
            ).insert("avcMediaStreamNegotiatorMode"@, Item::Int(mode)).insert(
                "avcMediaStreamNegotiatorMediaBlob"@,
                Item::Data(blob),
            ).insert("avcMediaStreamOptionCallID"@, Item::Text(call_id)),
        ),
{
    let objs = negotiation_objects(endpoint, mode, blob, call_id);
    lemma_plist_frame(objs, 8);
    lemma_plist_lists(objs, 8);
    assert(objs[8] =~= seq![0xD4u8, 4u8, 5u8, 6u8, 7u8, 0u8, 1u8, 2u8, 3u8]);
    lemma_negotiation_read(plist(objs, 8), objs, endpoint, mode, blob, call_id);
}

/// A list that holds the negotiation objects reads as their dictionary.
proof fn lemma_negotiation_read(
    data: Seq<u8>,
    objs: Seq<Seq<u8>>,
    endpoint: Seq<u8>,
    mode: u64,
    blob: Seq<u8>,
    call_id: Seq<char>,
)
    requires
        objs[0] == data_object(endpoint),
        objs[1] == int_object(mode),
        objs[2] == data_object(blob),
        objs[3] == text_object(encode_utf8(call_id)),
        objs[4] == text_object(encode_utf8("avcMediaStreamOptionRemoteEndpointInfo"@)),
        objs[5] == text_object(encode_utf8("avcMediaStreamNegotiatorMode"@)),
        objs[6] == text_object(encode_utf8("avcMediaStreamNegotiatorMediaBlob"@)),
        objs[7] == text_object(encode_utf8("avcMediaStreamOptionCallID"@)),
        objs[8] == seq![0xD4u8, 4u8, 5u8, 6u8, 7u8, 0u8, 1u8, 2u8, 3u8],
        lists(data, objs),
        well_framed(data),
        ref_size(data) == 1,
        top_object(data) == 8,
    ensures
        dict_of(data) == Some(
            Map::<Seq<char>, Item>::empty().insert(
                "avcMediaStreamOptionRemoteEndpointInfo"@,
                Item::Data(endpoint),
            ).insert("avcMediaStreamNegotiatorMode"@, Item::Int(mode)).insert(
                "avcMediaStreamNegotiatorMediaBlob"@,
                Item::Data(blob),
            ).insert("avcMediaStreamOptionCallID"@, Item::Text(call_id)),
        ),
{
    lemma_negotiation_values(data, objs, endpoint, mode, blob, call_id);
    lemma_negotiation_keys(data, objs);
    let top = object_offset(data, 8);
    lemma_one_byte_refs(data, top, objs[8]);
    assert(ref_at(data, top + 1, 0) == 4);
    lemma_root_entries(data, top + 1);
}

proof fn lemma_negotiation_values(
    data: Seq<u8>,
    objs: Seq<Seq<u8>>,
    endpoint: Seq<u8>,
    mode: u64,
    blob: Seq<u8>,
    call_id: Seq<char>,
)
    requires
        lists(data, objs),
        objs[0] == data_object(endpoint),
        objs[1] == int_object(mode),
        objs[2] == data_object(blob),
        objs[3] == text_object(encode_utf8(call_id)),
    ensures
        object(data, 0) == Some(Item::Data(endpoint)),
        object(data, 1) == Some(Item::Int(mode)),
        object(data, 2) == Some(Item::Data(blob)),
        object(data, 3) == Some(Item::Text(call_id)),
{
    lemma_data_object(data, object_offset(data, 0), endpoint);
    lemma_int_object(data, object_offset(data, 1), mode);
    lemma_data_object(data, object_offset(data, 2), blob);
    lemma_text_object(data, object_offset(data, 3), call_id);
}

proof fn lemma_negotiation_keys(data: Seq<u8>, objs: Seq<Seq<u8>>)
    requires
        lists(data, objs),
        objs[4] == text_object(encode_utf8("avcMediaStreamOptionRemoteEndpointInfo"@)),
        objs[5] == text_object(encode_utf8("avcMediaStreamNegotiatorMode"@)),
        objs[6] == text_object(encode_utf8("avcMediaStreamNegotiatorMediaBlob"@)),
        objs[7] == text_object(encode_utf8("avcMediaStreamOptionCallID"@)),
    ensures
        object(data, 4) == Some(Item::Text("avcMediaStreamOptionRemoteEndpointInfo"@)),
        object(data, 5) == Some(Item::Text("avcMediaStreamNegotiatorMode"@)),
        object(data, 6) == Some(Item::Text("avcMediaStreamNegotiatorMediaBlob"@)),
        object(data, 7) == Some(Item::Text("avcMediaStreamOptionCallID"@)),
{
    lemma_text_object(data, object_offset(data, 4), "avcMediaStreamOptionRemoteEndpointInfo"@);
    lemma_text_object(data, object_offset(data, 5), "avcMediaStreamNegotiatorMode"@);
    lemma_text_object(data, object_offset(data, 6), "avcMediaStreamNegotiatorMediaBlob"@);
    lemma_text_object(data, object_offset(data, 7), "avcMediaStreamOptionCallID"@);
}

/// A dictionary object of four entries with one-byte references reads as such.
proof fn lemma_one_byte_refs(data: Seq<u8>, top: int, dict: Seq<u8>)
    requires
        dict.len() == 9,
        dict[0] == 0xD4,
        holds(data, top, dict),
        ref_size(data) == 1,
    ensures
        data[top] == 0xD4,
        contents_at(data, top) == Some((4nat, top + 1)),
        forall|k: int| 0 <= k < 8 ==> #[trigger] ref_at(data, top + 1, k) == dict[k + 1],
{
    assert(data[top] == data.subrange(top, top + 9)[0]);
    assert forall|k: int| 0 <= k < 8 implies #[trigger] ref_at(data, top + 1, k) == dict[k + 1] by {
        let s = data.subrange(top + 1 + k, top + 1 + k + 1);
        assert(s.drop_last() =~= Seq::<u8>::empty());
        assert(be_nat(s.drop_last()) == 0);
        assert(s.last() == data.subrange(top, top + 9)[k + 1]);
    }
}

/// Four entries whose references count the keys from 4 and the values from 0.
proof fn lemma_root_entries(data: Seq<u8>, pos: int)
    requires
        ref_at(data, pos, 0) == 4 && ref_at(data, pos, 4) == 0,
        ref_at(data, pos, 1) == 5 && ref_at(data, pos, 5) == 1,
        ref_at(data, pos, 2) == 6 && ref_at(data, pos, 6) == 2,
        ref_at(data, pos, 3) == 7 && ref_at(data, pos, 7) == 3,
        object(data, 4) is Some && object(data, 4)->0 is Text,
        object(data, 5) is Some && object(data, 5)->0 is Text,
        object(data, 6) is Some && object(data, 6)->0 is Text,
        object(data, 7) is Some && object(data, 7)->0 is Text,
        object(data, 0) is Some,
        object(data, 1) is Some,
        object(data, 2) is Some,
        object(data, 3) is Some,
    ensures
        entries_at(data, pos, 4, 4) == Some(
            Map::<Seq<char>, Item>::empty().insert(
                object(data, 4)->0->Text_0,
                object(data, 0)->0,
            ).insert(object(data, 5)->0->Text_0, object(data, 1)->0).insert(
                object(data, 6)->0->Text_0,
                object(data, 2)->0,
            ).insert(object(data, 7)->0->Text_0, object(data, 3)->0),
        ),
{
    let m0 = Map::<Seq<char>, Item>::empty();
    assert(entries_at(data, pos, 4, 0) == Some(m0));
    let m1 = m0.insert(object(data, 4)->0->Text_0, object(data, 0)->0);
    assert(entries_at(data, pos, 4, 1) == Some(m1));
    let m2 = m1.insert(object(data, 5)->0->Text_0, object(data, 1)->0);
    assert(entries_at(data, pos, 4, 2) == Some(m2));
    let m3 = m2.insert(object(data, 6)->0->Text_0, object(data, 2)->0);
    assert(entries_at(data, pos, 4, 3) == Some(m3));
}

/// An integer is 16 to 19, where the excess is the logarithm of how many bytes
/// follow, and the number in so many bytes, the fewest of one, two, four and
/// eight that hold it.
#[verifier::spinoff_prover]
pub proof fn lemma_int_object_layout(v: u64)
    ensures
        ({
            let m = int_object(v);
            &&& v <= 0xff ==> m.len() == 2 && m[0] == 16
            &&& 0xff < v <= 0xffff ==> m.len() == 3 && m[0] == 17
            &&& 0xffff < v <= 0xffff_ffff ==> m.len() == 5 && m[0] == 18
            &&& 0xffff_ffff < v ==> m.len() == 9 && m[0] == 19
            &&& be_nat(m.skip(1)) == v
        }),
{
    let n: nat = if v <= 0xff {
        1
    } else if v <= 0xffff {
        2
    } else if v <= 0xffff_ffff {
        4
    } else {
        8
    };
    lemma_be_bytes(v as nat, n);
    assert(vstd::arithmetic::power::pow(256, 1) == 0x100 && vstd::arithmetic::power::pow(256, 2)
        == 0x1_0000 && vstd::arithmetic::power::pow(256, 4) == 0x1_0000_0000
        && vstd::arithmetic::power::pow(256, 8) == 0x1_0000_0000_0000_0000) by {
        reveal_with_fuel(vstd::arithmetic::power::pow, 9);
    }
    assert(int_object(v).skip(1) =~= be_bytes(v as nat, n));
}

/// Data are marked by 4 in the high half of the first byte, and text by 5. The
/// low half is how many bytes follow, or 15 where an integer says so; the bytes
/// themselves come last.
#[verifier::spinoff_prover]
pub proof fn lemma_object_layouts(d: Seq<u8>)
    requires
        d.len() <= u64::MAX,
    ensures
        ({
            let (a, b) = (data_object(d), text_object(d));
            let at: int = if d.len() < 15 {
                1
            } else {
                1 + int_object(d.len() as u64).len() as int
            };
            &&& a[0] / 16 == 4 && b[0] / 16 == 5
            &&& a[0] % 16 == b[0] % 16
            &&& d.len() < 15 ==> a[0] % 16 == d.len()
            &&& d.len() >= 15 ==> a[0] % 16 == 15 && a.subrange(1, at) == int_object(
                d.len() as u64,
            ) && b.subrange(1, at) == int_object(d.len() as u64)
            &&& a.skip(at) == d
            &&& b.skip(at) == d
        }),
{
    let (a, b) = (data_object(d), text_object(d));
    let count = int_object(d.len() as u64);
    let at: int = if d.len() < 15 {
        1
    } else {
        1 + count.len() as int
    };
    assert(a.skip(at) =~= d);
    assert(b.skip(at) =~= d);
    if d.len() >= 15 {
        assert(a.subrange(1, at) =~= count);
        assert(b.subrange(1, at) =~= count);
    }
}

} // verus!
