//! Layouts of the messages that travel between client and server.

use vstd::prelude::*;

use crate::error::{Failure, VncError};
use crate::pixel_format::PixelFormat;
use crate::protocol;
use crate::text::{concat_text, decimal, decimal_text};
use crate::wire::{
    be16, be32, lemma_be32_round_trip, lemma_high_byte_first, lemma_u16_inside, lemma_u32_inside,
    push_all, push_u16, push_u32, u16_at, u16_of, u32_at, u32_of,
};

verus! {

/// Fence flag: nothing behind the fence is handled before it.
pub const FENCE_FLAG_BLOCK_BEFORE: u32 = 1;

/// Fence flag: nothing is handled until the fence is.
pub const FENCE_FLAG_BLOCK_AFTER: u32 = 2;

/// Fence flag: the next message is handled together with the fence.
pub const FENCE_FLAG_SYNC_NEXT: u32 = 4;

/// Fence flag: an answer is wanted.
pub const FENCE_FLAG_REQUEST: u32 = 0x8000_0000;

/// Largest width or height of a rectangle or a desktop.
pub const MAX_DIMENSION: u32 = 16384;

/// Longest text that a server may send where no other limit holds.
pub const MAX_TEXT_LEN: usize = 65536;

/// A signed number as four bytes.
pub open spec fn be_i32(v: i32) -> Seq<u8> {
    be32(
        if v < 0 {
            (v + 0x1_0000_0000) as u32
        } else {
            v as u32
        },
    )
}

/// The signed number at offset `i`.
pub open spec fn i32_of(s: Seq<u8>, i: int) -> i32 {
    let v = u32_of(s, i);
    if v < 0x8000_0000 {
        v as i32
    } else {
        (v - 0x1_0000_0000) as i32
    }
}

/// Reads the signed number at offset `i`.
pub fn i32_at(data: &[u8], i: usize) -> (r: i32)
    requires
        i + 4 <= data@.len(),
    ensures
        r == i32_of(data@, i as int),
{
    let v: u32 = u32_at(data, i);
    if v < 0x8000_0000 {
        v as i32
    } else {
        (v as i64 - 0x1_0000_0000) as i32
    }
}

/// Appends a signed number.
pub fn push_i32(out: &mut Vec<u8>, v: i32)
    ensures
        final(out)@ == old(out)@ + be_i32(v),
{
    let bits: u32 = if v < 0 {
        (v as i64 + 0x1_0000_0000) as u32
    } else {
        v as u32
    };
    push_u32(out, bits);
}

/// A signed number reads back as written.
pub proof fn lemma_be_i32_round_trip(v: i32)
    ensures
        be_i32(v).len() == 4,
        i32_of(be_i32(v), 0) == v,
{
    lemma_be32_round_trip(
        if v < 0 {
            (v + 0x1_0000_0000) as u32
        } else {
            v as u32
        },
    );
}

/// A rectangle in the desktop.
#[derive(Debug, Clone, Copy, PartialEq, Eq, Structural)]
pub struct Area {
    pub x: u16,
    pub y: u16,
    pub width: u16,
    pub height: u16,
}

impl Area {
    /// The rectangle on the wire.
    pub open spec fn wire(self) -> Seq<u8> {
        be16(self.x) + be16(self.y) + be16(self.width) + be16(self.height)
    }
}

fn push_area(out: &mut Vec<u8>, area: Area)
    ensures
        final(out)@ == old(out)@ + area.wire(),
{
    push_u16(out, area.x);
    push_u16(out, area.y);
    push_u16(out, area.width);
    push_u16(out, area.height);
    assert(out@ =~= old(out)@ + area.wire());
}

/// A flag as a byte.
pub open spec fn flag(b: bool) -> u8 {
    if b {
        1
    } else {
        0
    }
}

fn flag_byte(b: bool) -> (r: u8)
    ensures
        r == flag(b),
{
    if b {
        1
    } else {
        0
    }
}

/// A request for an update of `area`.
pub open spec fn update_request(incremental: bool, area: Area) -> Seq<u8> {
    seq![protocol::CLIENT_FRAMEBUFFER_UPDATE_REQUEST, flag(incremental)] + area.wire()
}

/// Builds a request for an update.
pub fn build_update_request(incremental: bool, area: Area) -> (r: Vec<u8>)
    ensures
        r@ == update_request(incremental, area),
{
    let mut out: Vec<u8> = vec![
        protocol::CLIENT_FRAMEBUFFER_UPDATE_REQUEST,
        flag_byte(incremental),
    ];
    push_area(&mut out, area);
    assert(out@ =~= update_request(incremental, area));
    out
}

/// Switches continuous updates of `area`.
pub open spec fn continuous_updates(enable: bool, area: Area) -> Seq<u8> {
    seq![protocol::CLIENT_ENABLE_CONTINUOUS_UPDATES, flag(enable)] + area.wire()
}

/// Builds a message that switches continuous updates.
pub fn build_continuous_updates(enable: bool, area: Area) -> (r: Vec<u8>)
    ensures
        r@ == continuous_updates(enable, area),
{
    let mut out: Vec<u8> = vec![protocol::CLIENT_ENABLE_CONTINUOUS_UPDATES, flag_byte(enable)];
    push_area(&mut out, area);
    assert(out@ =~= continuous_updates(enable, area));
    out
}

/// A pointer event.
pub open spec fn pointer_event(button_mask: u8, x: u16, y: u16) -> Seq<u8> {
    seq![protocol::CLIENT_POINTER_EVENT, button_mask] + be16(x) + be16(y)
}

/// Builds a pointer event.
pub fn build_pointer_event(button_mask: u8, x: u16, y: u16) -> (r: Vec<u8>)
    ensures
        r@ == pointer_event(button_mask, x, y),
{
    let mut out: Vec<u8> = vec![protocol::CLIENT_POINTER_EVENT, button_mask];
    push_u16(&mut out, x);
    push_u16(&mut out, y);
    assert(out@ =~= pointer_event(button_mask, x, y));
    out
}

/// A key event.
pub open spec fn key_event(down: bool, keysym: u32) -> Seq<u8> {
    seq![protocol::CLIENT_KEY_EVENT, flag(down), 0u8, 0u8] + be32(keysym)
}

/// Builds a key event.
pub fn build_key_event(down: bool, keysym: u32) -> (r: Vec<u8>)
    ensures
        r@ == key_event(down, keysym),
{
    let mut out: Vec<u8> = vec![protocol::CLIENT_KEY_EVENT, flag_byte(down), 0, 0];
    push_u32(&mut out, keysym);
    assert(out@ =~= key_event(down, keysym));
    out
}

/// A fence with a payload.
pub open spec fn fence(flags: u32, payload: Seq<u8>) -> Seq<u8> {
    seq![protocol::CLIENT_FENCE, 0u8, 0u8, 0u8] + be32(flags) + seq![payload.len() as u8] + payload
}

/// Builds a fence.
pub fn build_fence(flags: u32, payload: &[u8]) -> (r: Vec<u8>)
    requires
        payload@.len() <= 255,
    ensures
        r@ == fence(flags, payload@),
{
    let mut out: Vec<u8> = vec![protocol::CLIENT_FENCE, 0, 0, 0];
    push_u32(&mut out, flags);
    out.push(payload.len() as u8);
    push_all(&mut out, payload);
    assert(out@ =~= fence(flags, payload@));
    out
}

/// The client's cut text.
pub open spec fn cut_text(data: Seq<u8>) -> Seq<u8> {
    seq![protocol::CLIENT_CUT_TEXT, 0u8, 0u8, 0u8] + be32((data.len() % 0x1_0000_0000) as u32)
        + data
}

/// Builds the client's cut text.
pub fn build_cut_text(data: &[u8]) -> (r: Vec<u8>)
    ensures
        r@ == cut_text(data@),
{
    let mut out: Vec<u8> = vec![protocol::CLIENT_CUT_TEXT, 0, 0, 0];
    push_u32(&mut out, (data.len() as u64 % 0x1_0000_0000) as u32);
    push_all(&mut out, data);
    assert(out@ =~= cut_text(data@));
    out
}

/// The first `n` encodings of a list.
pub open spec fn encoding_list(values: Seq<i32>, n: nat) -> Seq<u8>
    decreases n,
{
    if n == 0 {
        Seq::empty()
    } else {
        encoding_list(values, (n - 1) as nat) + be_i32(values[n - 1])
    }
}

/// The encodings that a client accepts, best first.
pub open spec fn set_encodings(values: Seq<i32>) -> Seq<u8> {
    seq![protocol::CLIENT_SET_ENCODINGS, 0u8] + be16((values.len() % 0x1_0000) as u16)
        + encoding_list(values, values.len())
}

/// Builds the list of encodings.
pub fn build_set_encodings(values: &[i32]) -> (r: Vec<u8>)
    ensures
        r@ == set_encodings(values@),
{
    let n: usize = values.len();
    let mut out: Vec<u8> = vec![protocol::CLIENT_SET_ENCODINGS, 0];
    push_u16(&mut out, (n as u64 % 0x1_0000) as u16);
    let ghost head = seq![protocol::CLIENT_SET_ENCODINGS, 0u8] + be16((n % 0x1_0000) as u16);
    assert(out@ =~= head + encoding_list(values@, 0));
    let mut i: usize = 0;
    while i < n
        invariant
            n == values@.len(),
            i <= n,
            out@ == head + encoding_list(values@, i as nat),
        decreases n - i,
    {
        push_i32(&mut out, values[i]);
        i = i + 1;
        assert(out@ =~= head + encoding_list(values@, i as nat));
    }
    out
}

/// The pixel format that the client wants.
pub open spec fn set_pixel_format(format: PixelFormat) -> Seq<u8> {
    seq![protocol::CLIENT_SET_PIXEL_FORMAT, 0u8, 0u8, 0u8] + format.wire()
}

/// Builds a request for a pixel format.
pub fn build_set_pixel_format(format: &PixelFormat) -> (r: Vec<u8>)
    ensures
        r@ == set_pixel_format(*format),
{
    let mut out: Vec<u8> = vec![protocol::CLIENT_SET_PIXEL_FORMAT, 0, 0, 0];
    push_all(&mut out, &format.to_bytes());
    assert(out@ =~= set_pixel_format(*format));
    out
}

/// Two bytes as a number, the most significant first.
pub open spec fn short_at(m: Seq<u8>, i: int) -> int {
    m[i] * 256 + m[i + 1]
}

/// Four bytes as a number, the most significant first.
pub open spec fn long_at(m: Seq<u8>, i: int) -> int {
    m[i] * 0x100_0000 + m[i + 1] * 0x1_0000 + m[i + 2] * 256 + m[i + 3]
}

/// A key event is 4, whether the key is down, two unused bytes, and the key.
pub proof fn lemma_key_event_layout(down: bool, keysym: u32)
    ensures
        ({
            let m = key_event(down, keysym);
            &&& m.len() == 8
            &&& m[0] == 4
            &&& m[1] != 0 <==> down
            &&& m[1] <= 1
            &&& m[2] == 0 && m[3] == 0
            &&& long_at(m, 4) == keysym
        }),
{
    lemma_high_byte_first(0, keysym);
    let (m, k) = (key_event(down, keysym), be32(keysym));
    assert(m[4] == k[0] && m[5] == k[1] && m[6] == k[2] && m[7] == k[3]);
}

/// A pointer event is 5, the buttons, and the column before the row.
pub proof fn lemma_pointer_event_layout(button_mask: u8, x: u16, y: u16)
    ensures
        ({
            let m = pointer_event(button_mask, x, y);
            &&& m.len() == 6
            &&& m[0] == 5
            &&& m[1] == button_mask
            &&& short_at(m, 2) == x
            &&& short_at(m, 4) == y
        }),
{
    lemma_high_byte_first(x, 0);
    lemma_high_byte_first(y, 0);
    let (m, a, b) = (pointer_event(button_mask, x, y), be16(x), be16(y));
    assert(m[2] == a[0] && m[3] == a[1] && m[4] == b[0] && m[5] == b[1]);
}

/// An area is its column, its row, its width and its height.
proof fn lemma_area_layout(head: Seq<u8>, area: Area)
    requires
        head.len() == 2,
    ensures
        ({
            let m = head + area.wire();
            &&& m.len() == 10
            &&& m[0] == head[0] && m[1] == head[1]
            &&& short_at(m, 2) == area.x
            &&& short_at(m, 4) == area.y
            &&& short_at(m, 6) == area.width
            &&& short_at(m, 8) == area.height
        }),
{
    lemma_high_byte_first(area.x, 0);
    lemma_high_byte_first(area.y, 0);
    lemma_high_byte_first(area.width, 0);
    lemma_high_byte_first(area.height, 0);
    let m = head + area.wire();
    let (a, b, c, d) = (be16(area.x), be16(area.y), be16(area.width), be16(area.height));
    assert(m[2] == a[0] && m[3] == a[1] && m[4] == b[0] && m[5] == b[1]);
    assert(m[6] == c[0] && m[7] == c[1] && m[8] == d[0] && m[9] == d[1]);
}

/// A request for an update is 3, whether changes are enough, and the area.
pub proof fn lemma_update_request_layout(incremental: bool, area: Area)
    ensures
        ({
            let m = update_request(incremental, area);
            &&& m.len() == 10
            &&& m[0] == 3
            &&& m[1] != 0 <==> incremental
            &&& m[1] <= 1
            &&& short_at(m, 2) == area.x
            &&& short_at(m, 4) == area.y
            &&& short_at(m, 6) == area.width
            &&& short_at(m, 8) == area.height
        }),
{
    lemma_area_layout(
        seq![protocol::CLIENT_FRAMEBUFFER_UPDATE_REQUEST, flag(incremental)],
        area,
    );
}

/// The switch of continuous updates is 150, whether they are wanted, and the
/// area.
pub proof fn lemma_continuous_updates_layout(enable: bool, area: Area)
    ensures
        ({
            let m = continuous_updates(enable, area);
            &&& m.len() == 10
            &&& m[0] == 150
            &&& m[1] != 0 <==> enable
            &&& m[1] <= 1
            &&& short_at(m, 2) == area.x
            &&& short_at(m, 4) == area.y
            &&& short_at(m, 6) == area.width
            &&& short_at(m, 8) == area.height
        }),
{
    lemma_area_layout(seq![protocol::CLIENT_ENABLE_CONTINUOUS_UPDATES, flag(enable)], area);
}

/// A fence is 248, three unused bytes, the flags, and the payload behind its
/// length.
pub proof fn lemma_fence_layout(flags: u32, payload: Seq<u8>)
    requires
        payload.len() <= 255,
    ensures
        ({
            let m = fence(flags, payload);
            &&& m.len() == 9 + payload.len()
            &&& m[0] == 248
            &&& m[1] == 0 && m[2] == 0 && m[3] == 0
            &&& long_at(m, 4) == flags
            &&& m[8] == payload.len()
            &&& m.skip(9) == payload
        }),
{
    lemma_high_byte_first(0, flags);
    let (m, k) = (fence(flags, payload), be32(flags));
    assert(m[4] == k[0] && m[5] == k[1] && m[6] == k[2] && m[7] == k[3]);
    assert(m.skip(9) =~= payload);
}

/// Cut text is 6, three unused bytes, and the text behind its length.
pub proof fn lemma_cut_text_layout(data: Seq<u8>)
    requires
        data.len() <= 0xffff_ffff,
    ensures
        ({
            let m = cut_text(data);
            &&& m.len() == 8 + data.len()
            &&& m[0] == 6
            &&& m[1] == 0 && m[2] == 0 && m[3] == 0
            &&& long_at(m, 4) == data.len()
            &&& m.skip(8) == data
        }),
{
    let n = data.len() as u32;
    lemma_high_byte_first(0, n);
    let (m, k) = (cut_text(data), be32(n));
    assert(m[4] == k[0] && m[5] == k[1] && m[6] == k[2] && m[7] == k[3]);
    assert(m.skip(8) =~= data);
}

#[verifier::spinoff_prover]
proof fn lemma_encoding_list_at(values: Seq<i32>, n: nat, i: int)
    requires
        0 <= i < n <= values.len(),
    ensures
        encoding_list(values, n).len() == 4 * n,
        encoding_list(values, n).subrange(4 * i, 4 * i + 4) == be_i32(values[i]),
    decreases n,
{
    let before = encoding_list(values, (n - 1) as nat);
    let list = encoding_list(values, n);
    if n == 1 {
        assert(before.len() == 0);
        assert(list.subrange(4 * i, 4 * i + 4) =~= be_i32(values[i]));
    } else {
        lemma_encoding_list_at(
            values,
            (n - 1) as nat,
            if i < n - 1 {
                i
            } else {
                0
            },
        );
        if i < n - 1 {
            assert(list.subrange(4 * i, 4 * i + 4) =~= before.subrange(4 * i, 4 * i + 4));
        } else {
            assert(list.subrange(4 * i, 4 * i + 4) =~= be_i32(values[i]));
        }
    }
}

/// The list of encodings is 2, an unused byte, and the encodings behind their
/// number, in the order in which they were given; a negative one is written as
/// what it lacks to 2 to the 32nd.
#[verifier::spinoff_prover]
pub proof fn lemma_set_encodings_layout(values: Seq<i32>, i: int)
    requires
        0 <= i < values.len() <= 0xffff,
    ensures
        ({
            let m = set_encodings(values);
            &&& m.len() == 4 + 4 * values.len()
            &&& m[0] == 2
            &&& m[1] == 0
            &&& short_at(m, 2) == values.len()
            &&& long_at(m, 4 + 4 * i) == if values[i] >= 0 {
                values[i] as int
            } else {
                values[i] + 0x1_0000_0000
            }
        }),
{
    let n = values.len();
    let m = set_encodings(values);
    let list = encoding_list(values, n);
    let count = be16((n % 0x1_0000) as u16);
    lemma_high_byte_first(n as u16, 0);
    assert(m[2] == count[0] && m[3] == count[1]);
    lemma_encoding_list_at(values, n, i);
    let v = values[i];
    let code: u32 = if v < 0 {
        (v + 0x1_0000_0000) as u32
    } else {
        v as u32
    };
    lemma_high_byte_first(0, code);
    let (part, k) = (list.subrange(4 * i, 4 * i + 4), be32(code));
    let at = 4 + 4 * i;
    assert(m[at] == part[0] && m[at + 1] == part[1] && m[at + 2] == part[2] && m[at + 3]
        == part[3]);
}

/// A request for a pixel format is 0, three unused bytes, and the format: bits,
/// depth, two flags, the three largest values, the three shifts, and three
/// unused bytes.
pub proof fn lemma_set_pixel_format_layout(format: PixelFormat)
    ensures
        ({
            let m = set_pixel_format(format);
            &&& m.len() == 20
            &&& m[0] == 0 && m[1] == 0 && m[2] == 0 && m[3] == 0
            &&& m[4] == format.bits_per_pixel
            &&& m[5] == format.depth
            &&& m[6] != 0 <==> format.big_endian
            &&& m[7] != 0 <==> format.true_colour
            &&& short_at(m, 8) == format.red_max
            &&& short_at(m, 10) == format.green_max
            &&& short_at(m, 12) == format.blue_max
            &&& m[14] == format.red_shift
            &&& m[15] == format.green_shift
            &&& m[16] == format.blue_shift
            &&& m[17] == 0 && m[18] == 0 && m[19] == 0
        }),
{
    lemma_high_byte_first(format.red_max, 0);
    lemma_high_byte_first(format.green_max, 0);
    lemma_high_byte_first(format.blue_max, 0);
    let m = set_pixel_format(format);
    let (r, g, b) = (be16(format.red_max), be16(format.green_max), be16(format.blue_max));
    assert(m[8] == r[0] && m[9] == r[1] && m[10] == g[0] && m[11] == g[1] && m[12] == b[0]
        && m[13] == b[1]);
}

/// The header of a rectangle in an update.
#[derive(Debug, Clone, Copy, PartialEq, Eq, Structural)]
pub struct RectHeader {
    pub x: u16,
    pub y: u16,
    pub width: u16,
    pub height: u16,
    pub encoding: i32,
}

/// Bytes of a rectangle header.
pub const RECT_HEADER_LEN: usize = 12;

impl RectHeader {
    /// The header on the wire.
    pub open spec fn wire(self) -> Seq<u8> {
        be16(self.x) + be16(self.y) + be16(self.width) + be16(self.height) + be_i32(self.encoding)
    }

    /// The header that twelve bytes hold.
    pub open spec fn read(s: Seq<u8>) -> RectHeader {
        RectHeader {
            x: u16_of(s, 0),
            y: u16_of(s, 2),
            width: u16_of(s, 4),
            height: u16_of(s, 6),
            encoding: i32_of(s, 8),
        }
    }

    /// Reads a header.
    pub fn from_bytes(s: &[u8]) -> (r: RectHeader)
        requires
            s@.len() >= RECT_HEADER_LEN,
        ensures
            r == RectHeader::read(s@),
    {
        RectHeader {
            x: u16_at(s, 0),
            y: u16_at(s, 2),
            width: u16_at(s, 4),
            height: u16_at(s, 6),
            encoding: i32_at(s, 8),
        }
    }

    /// Writes a header.
    pub fn to_bytes(&self) -> (r: Vec<u8>)
        ensures
            r@ == self.wire(),
            r@.len() == RECT_HEADER_LEN,
    {
        let mut out: Vec<u8> = Vec::new();
        push_u16(&mut out, self.x);
        push_u16(&mut out, self.y);
        push_u16(&mut out, self.width);
        push_u16(&mut out, self.height);
        push_i32(&mut out, self.encoding);
        assert(out@ =~= self.wire());
        out
    }

    /// A header reads back as written.
    pub proof fn lemma_round_trip(self, rest: Seq<u8>)
        ensures
            RectHeader::read(self.wire() + rest) == self,
    {
        let (x, y, w, h) = (be16(self.x), be16(self.y), be16(self.width), be16(self.height));
        let e = be_i32(self.encoding);
        let code = u32_of(e, 0);
        lemma_be_i32_round_trip(self.encoding);
        let s = self.wire() + rest;
        assert(s =~= Seq::empty() + x + (y + w + h + e + rest));
        assert(s =~= x + y + (w + h + e + rest));
        assert(s =~= (x + y) + w + (h + e + rest));
        assert(s =~= (x + y + w) + h + (e + rest));
        assert(s =~= (x + y + w + h) + e + rest);
        lemma_u16_inside(Seq::empty(), self.x, y + w + h + e + rest);
        lemma_u16_inside(x, self.y, w + h + e + rest);
        lemma_u16_inside(x + y, self.width, h + e + rest);
        lemma_u16_inside(x + y + w, self.height, e + rest);
        assert(e == be32(code));
        lemma_u32_inside(x + y + w + h, code, rest);
    }
}

/// Why a size is refused.
pub open spec fn size_failure(width: u32, height: u32) -> Failure {
    Failure::Protocol(
        "Invalid dimensions: "@ + decimal_text(width as nat) + "x"@ + decimal_text(height as nat),
    )
}

/// Whether a size is within the limit.
pub open spec fn size_ok(width: u32, height: u32) -> bool {
    width <= MAX_DIMENSION && height <= MAX_DIMENSION
}

/// Refuses sizes that no desktop has.
pub fn check_dimensions(width: u32, height: u32) -> (r: Result<(), VncError>)
    ensures
        r is Ok <==> size_ok(width, height),
        r matches Err(e) ==> e@ == size_failure(width, height),
{
    if width > MAX_DIMENSION || height > MAX_DIMENSION {
        let t = concat_text("Invalid dimensions: ", decimal(width as u64).as_str());
        let t = concat_text(t.as_str(), "x");
        return Err(VncError::Protocol(concat_text(t.as_str(), decimal(height as u64).as_str())));
    }
    Ok(())
}

/// A screen of the desktop.
#[derive(Debug, Clone, Copy, PartialEq, Eq, Structural)]
pub struct Screen {
    pub id: u32,
    pub x: u16,
    pub y: u16,
    pub width: u16,
    pub height: u16,
    pub flags: u32,
}

/// The screen that sixteen bytes at offset `i` hold.
pub open spec fn screen_at(s: Seq<u8>, i: int) -> Screen {
    Screen {
        id: u32_of(s, i),
        x: u16_of(s, i + 4),
        y: u16_of(s, i + 6),
        width: u16_of(s, i + 8),
        height: u16_of(s, i + 10),
        flags: u32_of(s, i + 12),
    }
}

/// The screens of a list: a count, three unused bytes, and sixteen bytes each.
pub open spec fn screen_list(s: Seq<u8>) -> Seq<Screen> {
    Seq::new(s[0] as nat, |k: int| screen_at(s, 4 + 16 * k))
}

/// Reads a list of screens and the bytes it took; `None` asks for more bytes.
pub fn read_screen_list(s: &[u8]) -> (r: Option<(Vec<Screen>, usize)>)
    ensures
        match r {
            Some((screens, used)) => s@.len() >= 4 && used == 4 + 16 * s@[0] && used <= s@.len()
                && screens@ == screen_list(s@),
            None => s@.len() < 4 || s@.len() < 4 + 16 * s@[0],
        },
{
    if s.len() < 4 {
        return None;
    }
    let n: usize = s[0] as usize;
    if s.len() < 4 + 16 * n {
        return None;
    }
    let mut screens: Vec<Screen> = Vec::new();
    let mut k: usize = 0;
    while k < n
        invariant
            k <= n,
            n <= 255,
            n == s@[0],
            s@.len() >= 4 + 16 * n,
            screens@ == Seq::new(k as nat, |j: int| screen_at(s@, 4 + 16 * j)),
        decreases n - k,
    {
        let i: usize = 4 + 16 * k;
        screens.push(
            Screen {
                id: u32_at(s, i),
                x: u16_at(s, i + 4),
                y: u16_at(s, i + 6),
                width: u16_at(s, i + 8),
                height: u16_at(s, i + 10),
                flags: u32_at(s, i + 12),
            },
        );
        k = k + 1;
        assert(screens@ =~= Seq::new(k as nat, |j: int| screen_at(s@, 4 + 16 * j)));
    }
    assert(screens@ =~= screen_list(s@));
    Some((screens, 4 + 16 * n))
}

} // verus!
