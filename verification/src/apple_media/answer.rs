//! Parsing of the server's answer to a media stream offer.

use vstd::prelude::*;

use crate::apple_media::bplist::{dict_of, magic, parse_dict, Item, Value};
use crate::apple_media::protobuf::{
    lemma_varint_bounds, lemma_varint_round_trip, lemma_varint_size, read_varint, varint_at,
    varint_bytes,
};
use crate::decoder::Codec;
use crate::inflate::{inflated, zlib_decompress};
use crate::wire::{holds, lemma_holds_both, same, slice};

verus! {

/// Negotiated media stream canvas information.
#[derive(Debug, Clone, Copy, PartialEq, Eq, Structural)]
pub struct MediaStreamAnswer {
    /// Video canvas width in luma samples.
    pub canvas_width: u32,
    /// Video canvas height in luma samples.
    pub canvas_height: u32,
    /// Number of tile/SSRC streams (typically 1 or 4).
    pub tile_count: u32,
    /// Selected video codec for the adaptive stream.
    pub codec: Codec,
}

/// One protobuf field as it stands in a message.
pub enum Field {
    /// The tag, or the length or value behind it, cannot be read.
    Unreadable,
    /// An integer field; the next field starts at `next`.
    Int { number: u64, value: u64, next: usize },
    /// A length-delimited field whose `len` bytes start at `from`. The length
    /// is as declared and may reach beyond the message.
    Bytes { number: u64, len: u64, from: usize },
    /// A fixed-width field of `width` bytes starting at `from`.
    Fixed { from: usize, width: usize },
    /// A field of a kind that cannot be passed over.
    Unknown,
}

/// The field at `pos`.
pub open spec fn field_at(data: Seq<u8>, pos: int) -> Field {
    match varint_at(data, pos) {
        None => Field::Unreadable,
        Some((tag, p)) => {
            let number = tag / 8;
            let wire_type = tag % 8;
            if wire_type == 0 {
                match varint_at(data, p) {
                    None => Field::Unreadable,
                    Some((value, q)) => Field::Int { number, value, next: q as usize },
                }
            } else if wire_type == 2 {
                match varint_at(data, p) {
                    None => Field::Unreadable,
                    Some((len, q)) => Field::Bytes { number, len, from: q as usize },
                }
            } else if wire_type == 1 {
                Field::Fixed { from: p as usize, width: 8 }
            } else if wire_type == 5 {
                Field::Fixed { from: p as usize, width: 4 }
            } else {
                Field::Unknown
            }
        },
    }
}

/// Every part of a field lies behind its start and inside the message.
spec fn field_fits(f: Field, pos: int, len: int) -> bool {
    match f {
        Field::Int { number, value, next } => pos < next <= len,
        Field::Bytes { number, len: n, from } => pos < from <= len,
        Field::Fixed { from, width } => pos < from <= len,
        _ => true,
    }
}

proof fn lemma_field_fits(data: Seq<u8>, pos: int)
    requires
        0 <= pos,
        data.len() <= usize::MAX,
    ensures
        field_fits(field_at(data, pos), pos, data.len() as int),
{
    lemma_varint_bounds(data, pos);
    if let Some((tag, p)) = varint_at(data, pos) {
        lemma_varint_bounds(data, p);
    }
}

/// Reads the field at `pos`.
pub fn read_field(data: &[u8], pos: usize) -> (r: Field)
    ensures
        r == field_at(data@, pos as int),
{
    assert(data@.len() == data.len());
    match read_varint(data, pos) {
        None => Field::Unreadable,
        Some((tag, p)) => {
            let number: u64 = tag / 8;
            let wire_type: u64 = tag % 8;
            if wire_type == 0 {
                match read_varint(data, p) {
                    None => Field::Unreadable,
                    Some((value, next)) => Field::Int { number, value, next },
                }
            } else if wire_type == 2 {
                match read_varint(data, p) {
                    None => Field::Unreadable,
                    Some((len, from)) => Field::Bytes { number, len, from },
                }
            } else if wire_type == 1 {
                Field::Fixed { from: p, width: 8 }
            } else if wire_type == 5 {
                Field::Fixed { from: p, width: 4 }
            } else {
                Field::Unknown
            }
        },
    }
}

/// How much of a message of `len` bytes is left at `pos`.
pub open spec fn left(len: nat, pos: int) -> int {
    if pos < len {
        len - pos
    } else {
        0
    }
}

/// The codec that a codec constant stands for.
pub open spec fn codec_of_constant(v: u64) -> Option<Codec> {
    if v == 123 {
        Some(Codec::H264)
    } else if v == 100 {
        Some(Codec::Hevc)
    } else {
        None
    }
}

/// The codec named by the first field 1 of a codec bank, looking from `pos` on.
pub open spec fn codec_from(bank: Seq<u8>, pos: int) -> Option<Codec>
    decreases left(bank.len(), pos),
    when 0 <= pos && bank.len() <= usize::MAX
    via codec_from_terminates
{
    if pos >= bank.len() {
        None
    } else {
        match field_at(bank, pos) {
            Field::Int { number, value, next } => if number == 1 {
                codec_of_constant(value)
            } else {
                codec_from(bank, next as int)
            },
            Field::Bytes { number, len, from } => codec_from(bank, from + len),
            _ => None,
        }
    }
}

#[via_fn]
proof fn codec_from_terminates(bank: Seq<u8>, pos: int) {
    lemma_field_fits(bank, pos);
}

/// What has been learned of the video so far.
#[derive(Clone, Copy)]
pub struct VideoDims {
    pub width: u32,
    pub height: u32,
    pub tiles: u32,
    pub codec: Option<Codec>,
}

/// `d` after the integer field `number` of the video description.
pub open spec fn with_int(d: VideoDims, number: u64, value: u64) -> VideoDims {
    let v = (value % 0x1_0000_0000) as u32;
    if number == 4 {
        VideoDims { width: v, ..d }
    } else if number == 5 {
        VideoDims { height: v, ..d }
    } else if number == 6 {
        VideoDims { tiles: v, ..d }
    } else {
        d
    }
}

/// `d` after the fields of the video description `sub` from `pos` on. `None` if
/// a field cannot be read.
pub open spec fn description_from(sub: Seq<u8>, pos: int, d: VideoDims) -> Option<VideoDims>
    decreases left(sub.len(), pos),
    when 0 <= pos && sub.len() <= usize::MAX
    via description_from_terminates
{
    if pos >= sub.len() {
        Some(d)
    } else {
        match field_at(sub, pos) {
            Field::Unreadable => None,
            Field::Int { number, value, next } => description_from(
                sub,
                next as int,
                with_int(d, number, value),
            ),
            Field::Bytes { number, len, from } => if number == 3 && from + len <= sub.len() {
                description_from(
                    sub,
                    from + len,
                    VideoDims { codec: codec_from(sub.subrange(from as int, from + len), 0), ..d },
                )
            } else {
                description_from(sub, from + len, d)
            },
            Field::Fixed { from, width } => description_from(sub, from + width, d),
            Field::Unknown => Some(d),
        }
    }
}

#[via_fn]
proof fn description_from_terminates(sub: Seq<u8>, pos: int, d: VideoDims) {
    lemma_field_fits(sub, pos);
}

/// `d` after the fields of the media blob from `pos` on: field 5 holds the
/// video description. `None` if a field cannot be read or the description
/// reaches beyond the blob.
pub open spec fn blob_from(blob: Seq<u8>, pos: int, d: VideoDims) -> Option<VideoDims>
    decreases left(blob.len(), pos),
    when 0 <= pos && blob.len() <= usize::MAX
    via blob_from_terminates
{
    if pos >= blob.len() {
        Some(d)
    } else {
        match field_at(blob, pos) {
            Field::Unreadable => None,
            Field::Int { number, value, next } => blob_from(blob, next as int, d),
            Field::Bytes { number, len, from } => if number != 5 {
                blob_from(blob, from + len, d)
            } else if from + len > blob.len() {
                None
            } else {
                match description_from(blob.subrange(from as int, from + len), 0, d) {
                    None => None,
                    Some(d2) => blob_from(blob, from + len, d2),
                }
            },
            Field::Fixed { from, width } => blob_from(blob, from + width, d),
            Field::Unknown => Some(d),
        }
    }
}

#[via_fn]
proof fn blob_from_terminates(blob: Seq<u8>, pos: int, d: VideoDims) {
    lemma_field_fits(blob, pos);
}

/// Nothing known yet.
pub open spec fn no_dims() -> VideoDims {
    VideoDims { width: 0, height: 0, tiles: 0, codec: None }
}

/// The canvas that a decompressed media blob describes. A blob without a codec
/// bank means H.264.
pub open spec fn blob_answer(blob: Seq<u8>) -> Option<MediaStreamAnswer> {
    match blob_from(blob, 0, no_dims()) {
        None => None,
        Some(d) => Some(
            MediaStreamAnswer {
                canvas_width: d.width,
                canvas_height: d.height,
                tile_count: d.tiles,
                codec: match d.codec {
                    Some(c) => c,
                    None => Codec::H264,
                },
            },
        ),
    }
}

/// Finds the codec a codec bank selects.
pub fn extract_selected_codec(bank: &[u8]) -> (r: Option<Codec>)
    ensures
        r == codec_from(bank@, 0),
{
    let end: usize = bank.len();
    let mut pos: usize = 0;
    while pos < end
        invariant
            end == bank@.len(),
            pos <= end,
            codec_from(bank@, 0) == codec_from(bank@, pos as int),
        decreases end - pos,
    {
        proof {
            lemma_field_fits(bank@, pos as int);
        }
        match read_field(bank, pos) {
            Field::Int { number, value, next } => {
                if number == 1 {
                    if value == 123 {
                        return Some(Codec::H264);
                    } else if value == 100 {
                        return Some(Codec::Hevc);
                    } else {
                        return None;
                    }
                }
                pos = next;
            },
            Field::Bytes { number, len, from } => {
                if len > (end - from) as u64 {
                    assert(codec_from(bank@, from + len) is None);
                    return None;
                }
                pos = from + len as usize;
            },
            _ => {
                return None;
            },
        }
    }
    None
}

fn note_int(d: VideoDims, number: u64, value: u64) -> (r: VideoDims)
    ensures
        r == with_int(d, number, value),
{
    let v: u32 = (value % 0x1_0000_0000) as u32;
    if number == 4 {
        VideoDims { width: v, ..d }
    } else if number == 5 {
        VideoDims { height: v, ..d }
    } else if number == 6 {
        VideoDims { tiles: v, ..d }
    } else {
        d
    }
}

/// Reads the fields of a video description on top of `start`.
fn extract_description(sub: &[u8], start: VideoDims) -> (r: Option<VideoDims>)
    ensures
        r == description_from(sub@, 0, start),
{
    let end: usize = sub.len();
    let mut pos: usize = 0;
    let mut d: VideoDims = start;
    while pos < end
        invariant
            end == sub@.len(),
            pos <= end,
            description_from(sub@, 0, start) == description_from(sub@, pos as int, d),
        decreases end - pos,
    {
        proof {
            lemma_field_fits(sub@, pos as int);
        }
        match read_field(sub, pos) {
            Field::Unreadable => {
                return None;
            },
            Field::Int { number, value, next } => {
                d = note_int(d, number, value);
                pos = next;
            },
            Field::Bytes { number, len, from } => {
                if len > (end - from) as u64 {
                    assert(description_from(sub@, from + len, d) == Some(d));
                    return Some(d);
                }
                let next: usize = from + len as usize;
                if number == 3 {
                    d = VideoDims { codec: extract_selected_codec(slice(sub, from, next)), ..d };
                }
                pos = next;
            },
            Field::Fixed { from, width } => {
                if width > end - from {
                    assert(description_from(sub@, from + width, d) == Some(d));
                    return Some(d);
                }
                pos = from + width;
            },
            Field::Unknown => {
                return Some(d);
            },
        }
    }
    Some(d)
}

/// Reads the canvas dimensions, tile count and codec out of a decompressed
/// media blob.
pub fn extract_video_answer_dims(blob: &[u8]) -> (r: Option<MediaStreamAnswer>)
    ensures
        r == blob_answer(blob@),
{
    let end: usize = blob.len();
    let mut pos: usize = 0;
    let mut d = VideoDims { width: 0, height: 0, tiles: 0, codec: None };
    let mut more: bool = true;
    while more && pos < end
        invariant
            end == blob@.len(),
            pos <= end,
            more ==> blob_from(blob@, 0, no_dims()) == blob_from(blob@, pos as int, d),
            !more ==> blob_from(blob@, 0, no_dims()) == Some(d),
        decreases end - pos, (if more { 1int } else { 0int }),
    {
        proof {
            lemma_field_fits(blob@, pos as int);
        }
        match read_field(blob, pos) {
            Field::Unreadable => {
                return None;
            },
            Field::Int { number, value, next } => {
                pos = next;
            },
            Field::Bytes { number, len, from } => {
                if len > (end - from) as u64 {
                    if number == 5 {
                        return None;
                    }
                    assert(blob_from(blob@, from + len, d) == Some(d));
                    more = false;
                } else {
                    let next: usize = from + len as usize;
                    if number == 5 {
                        match extract_description(slice(blob, from, next), d) {
                            None => {
                                return None;
                            },
                            Some(d2) => {
                                d = d2;
                            },
                        }
                    }
                    pos = next;
                }
            },
            Field::Fixed { from, width } => {
                if width > end - from {
                    assert(blob_from(blob@, from + width, d) == Some(d));
                    more = false;
                } else {
                    pos = from + width;
                }
            },
            Field::Unknown => {
                more = false;
            },
        }
    }
    Some(
        MediaStreamAnswer {
            canvas_width: d.width,
            canvas_height: d.height,
            tile_count: d.tiles,
            codec: match d.codec {
                Some(c) => c,
                None => Codec::H264,
            },
        },
    )
}

/// What one candidate plist settles: nothing, that the answer is unusable, or
/// the answer.
pub enum Verdict {
    KeepLooking,
    Unusable,
    Found(MediaStreamAnswer),
}

/// The verdict on a media blob, given what decompressing it gave.
pub open spec fn blob_verdict(plain: Option<Seq<u8>>) -> Verdict {
    match plain {
        None => Verdict::Unusable,
        Some(p) => match blob_answer(p) {
            Some(a) => if a.canvas_width != 0 && a.canvas_height != 0 {
                Verdict::Found(a)
            } else {
                Verdict::KeepLooking
            },
            None => Verdict::KeepLooking,
        },
    }
}

/// The verdict on `data` as a plist.
pub open spec fn plist_verdict(data: Seq<u8>) -> Verdict {
    match dict_of(data) {
        Some(m) => if m.contains_key("avcMediaStreamNegotiatorMediaBlob"@) {
            match m["avcMediaStreamNegotiatorMediaBlob"@] {
                Item::Data(blob) => blob_verdict(inflated(blob)),
                _ => Verdict::KeepLooking,
            }
        } else {
            Verdict::KeepLooking
        },
        None => Verdict::KeepLooking,
    }
}

/// The verdict on the plists that start at `start` and end at `end` or later,
/// shortest first.
pub open spec fn ends_verdict(answer: Seq<u8>, start: int, end: int) -> Verdict
    decreases answer.len() + 1 - end,
{
    if end > answer.len() {
        Verdict::KeepLooking
    } else {
        match plist_verdict(answer.subrange(start, end)) {
            Verdict::KeepLooking => ends_verdict(answer, start, end + 1),
            v => v,
        }
    }
}

/// The answer found in the plists that start at `start` or later.
pub open spec fn answer_from(answer: Seq<u8>, start: int) -> Option<MediaStreamAnswer>
    decreases answer.len() - start,
{
    if start + 8 > answer.len() {
        None
    } else if answer.subrange(start, start + 8) != magic() {
        answer_from(answer, start + 1)
    } else {
        match ends_verdict(answer, start, start + 8) {
            Verdict::KeepLooking => answer_from(answer, start + 1),
            Verdict::Unusable => None,
            Verdict::Found(a) => Some(a),
        }
    }
}

/// Judges a media blob by what decompressing it gave.
pub fn judge_blob(plain: &Option<Vec<u8>>) -> (r: Verdict)
    ensures
        r == blob_verdict(
            match plain {
                Some(p) => Some(p@),
                None => None,
            },
        ),
{
    match plain {
        None => Verdict::Unusable,
        Some(p) => match extract_video_answer_dims(p) {
            Some(a) => if a.canvas_width != 0 && a.canvas_height != 0 {
                Verdict::Found(a)
            } else {
                Verdict::KeepLooking
            },
            None => Verdict::KeepLooking,
        },
    }
}

/// Judges `data` as a plist.
fn judge_plist(data: &[u8]) -> (r: Verdict)
    ensures
        r == plist_verdict(data@),
{
    match parse_dict(data) {
        None => Verdict::KeepLooking,
        Some(dict) => match dict.get("avcMediaStreamNegotiatorMediaBlob") {
            Some(Value::Data(blob)) => {
                let plain = zlib_decompress(blob);
                judge_blob(&plain)
            },
            _ => Verdict::KeepLooking,
        },
    }
}

/// Parses the server-side answer and extracts the negotiated canvas dimensions
/// and tile count.
///
/// The answer is a binary property list that may be embedded in a larger record
/// payload: every position that starts with its header is tried, with
/// progressively larger slices, and the first one that contains a video blob
/// with non-zero dimensions is returned. `None` if the answer is degenerate or
/// malformed.
pub fn parse_media_stream_answer(answer: &[u8]) -> (r: Option<MediaStreamAnswer>)
    ensures
        r == answer_from(answer@, 0),
{
    let header: [u8; 8] = [0x62, 0x70, 0x6c, 0x69, 0x73, 0x74, 0x30, 0x30];
    assert(header@ =~= magic());
    let len: usize = answer.len();
    let mut start: usize = 0;
    while start < len && len - start >= 8
        invariant
            len == answer@.len(),
            start <= len,
            header@ == magic(),
            answer_from(answer@, 0) == answer_from(answer@, start as int),
        decreases len - start,
    {
        if same(slice(answer, start, start + 8), &header) {
            let mut end: usize = start + 8;
            let mut open: bool = true;
            while open
                invariant
                    len == answer@.len(),
                    start + 8 <= end <= len,
                    answer@.subrange(start as int, start + 8) == magic(),
                    answer_from(answer@, 0) == answer_from(answer@, start as int),
                    open ==> ends_verdict(answer@, start as int, start + 8) == ends_verdict(
                        answer@,
                        start as int,
                        end as int,
                    ),
                    !open ==> ends_verdict(answer@, start as int, start + 8)
                        == Verdict::KeepLooking,
                decreases len - end, (if open { 1int } else { 0int }),
            {
                match judge_plist(slice(answer, start, end)) {
                    Verdict::Found(a) => {
                        return Some(a);
                    },
                    Verdict::Unusable => {
                        return None;
                    },
                    Verdict::KeepLooking => {},
                }
                if end == len {
                    assert(ends_verdict(answer@, start as int, end + 1) == Verdict::KeepLooking);
                    open = false;
                } else {
                    end = end + 1;
                }
            }
        }
        start = start + 1;
    }
    None
}

/// An integer field as an encoder writes it.
pub open spec fn int_written(number: nat, value: nat) -> Seq<u8> {
    varint_bytes(8 * number) + varint_bytes(value)
}

/// A field of bytes as an encoder writes it.
pub open spec fn bytes_written(number: nat, data: Seq<u8>) -> Seq<u8> {
    varint_bytes(8 * number + 2) + (varint_bytes(data.len()) + data)
}

proof fn lemma_varint_held(data: Seq<u8>, pos: int, v: u64)
    requires
        holds(data, pos, varint_bytes(v as nat)),
    ensures
        varint_at(data, pos) == Some((v, (pos + varint_bytes(v as nat).len()) as int)),
        varint_bytes(v as nat).len() >= 1,
{
    let bytes = varint_bytes(v as nat);
    lemma_varint_size(v);
    let (pre, post) = (data.take(pos), data.skip(pos + bytes.len()));
    assert(data =~= pre + bytes + post);
    lemma_varint_round_trip(pre, v, post);
}

proof fn lemma_int_held(data: Seq<u8>, pos: int, number: u8, value: u64)
    requires
        data.len() <= usize::MAX,
        holds(data, pos, int_written(number as nat, value as nat)),
    ensures
        field_at(data, pos) == (Field::Int {
            number: number as u64,
            value,
            next: (pos + int_written(number as nat, value as nat).len()) as usize,
        }),
        pos < pos + int_written(number as nat, value as nat).len() <= data.len(),
{
    let tag = (8 * number) as u64;
    let head = varint_bytes(tag as nat);
    lemma_holds_both(data, pos, head, varint_bytes(value as nat));
    lemma_varint_held(data, pos, tag);
    lemma_varint_held(data, pos + head.len(), value);
    assert(tag / 8 == number && tag % 8 == 0);
}

proof fn lemma_bytes_held(data: Seq<u8>, pos: int, number: u8, part: Seq<u8>)
    requires
        data.len() <= usize::MAX,
        part.len() <= u64::MAX,
        holds(data, pos, bytes_written(number as nat, part)),
    ensures
        ({
            let end = pos + bytes_written(number as nat, part).len();
            let from = end - part.len();
            &&& field_at(data, pos) == (Field::Bytes {
                number: number as u64,
                len: part.len() as u64,
                from: from as usize,
            })
            &&& pos < from
            &&& end <= data.len()
            &&& data.subrange(from, end) == part
        }),
{
    let tag = (8 * number + 2) as u64;
    let head = varint_bytes(tag as nat);
    let size = varint_bytes(part.len());
    lemma_holds_both(data, pos, head, size + part);
    lemma_holds_both(data, pos + head.len(), size, part);
    lemma_varint_held(data, pos, tag);
    lemma_varint_held(data, pos + head.len(), part.len() as u64);
    assert(tag / 8 == number && tag % 8 == 2);
    let from = pos + head.len() + size.len();
    assert(data.subrange(from as int, from + part.len()) =~= part);
}

/// The number of a codec in a codec bank.
pub open spec fn codec_constant(codec: Codec) -> u64 {
    match codec {
        Codec::H264 => 123,
        Codec::Hevc => 100,
    }
}

/// The description of the video as an encoder writes it: width, height and
/// number of tiles in fields 4 to 6, and a codec bank in field 3 whose field 1
/// is the number of the codec.
pub open spec fn description_written(answer: MediaStreamAnswer) -> Seq<u8> {
    int_written(4, answer.canvas_width as nat) + (int_written(5, answer.canvas_height as nat) + (
    int_written(6, answer.tile_count as nat) + bytes_written(
        3,
        int_written(1, codec_constant(answer.codec) as nat),
    )))
}

proof fn lemma_int_step(sub: Seq<u8>, pos: int, number: u8, value: u64, d: VideoDims)
    requires
        sub.len() <= usize::MAX,
        holds(sub, pos, int_written(number as nat, value as nat)),
    ensures
        description_from(sub, pos, d) == description_from(
            sub,
            (pos + int_written(number as nat, value as nat).len()) as int,
            with_int(d, number as u64, value),
        ),
{
    lemma_int_held(sub, pos, number, value);
}

proof fn lemma_bank_step(sub: Seq<u8>, pos: int, codec: Codec, d: VideoDims)
    requires
        sub.len() <= usize::MAX,
        holds(sub, pos, bytes_written(3, int_written(1, codec_constant(codec) as nat))),
    ensures
        description_from(sub, pos, d) == description_from(
            sub,
            (pos + bytes_written(3, int_written(1, codec_constant(codec) as nat)).len()) as int,
            (VideoDims { codec: Some(codec), ..d }),
        ),
{
    let constant = codec_constant(codec);
    let bank = int_written(1, constant as nat);
    lemma_varint_size(8);
    lemma_varint_size(constant);
    assert(bank.len() <= 20);
    lemma_bytes_held(sub, pos, 3, bank);
    assert(holds(bank, 0, bank));
    lemma_int_held(bank, 0, 1, constant);
    assert(codec_from(bank, 0) == Some(codec));
}

proof fn lemma_bank_ends(sub: Seq<u8>, pos: int, codec: Codec, d: VideoDims)
    requires
        sub.len() <= usize::MAX,
        holds(sub, pos, bytes_written(3, int_written(1, codec_constant(codec) as nat))),
        sub.len() == pos + bytes_written(3, int_written(1, codec_constant(codec) as nat)).len(),
    ensures
        description_from(sub, pos, d) == Some(VideoDims { codec: Some(codec), ..d }),
{
    lemma_bank_step(sub, pos, codec, d);
}

proof fn lemma_description_parts(
    sub: Seq<u8>,
    a: Seq<u8>,
    b: Seq<u8>,
    c: Seq<u8>,
    e: Seq<u8>,
)
    requires
        sub == a + (b + (c + e)),
    ensures
        holds(sub, 0, a),
        holds(sub, a.len() as int, b),
        holds(sub, (a.len() + b.len()) as int, c),
        holds(sub, (a.len() + b.len() + c.len()) as int, e),
        sub.len() == a.len() + b.len() + c.len() + e.len(),
{
    assert(holds(sub, 0, a + (b + (c + e))));
    lemma_holds_both(sub, 0, a, b + (c + e));
    lemma_holds_both(sub, a.len() as int, b, c + e);
    lemma_holds_both(sub, (a.len() + b.len()) as int, c, e);
}

/// An integer field in front of what leads to `then` leads to it.
proof fn lemma_int_leads(
    sub: Seq<u8>,
    pos: int,
    next: int,
    number: u8,
    value: u64,
    d: VideoDims,
    d1: VideoDims,
    then: Option<VideoDims>,
)
    requires
        sub.len() <= usize::MAX,
        holds(sub, pos, int_written(number as nat, value as nat)),
        next == pos + int_written(number as nat, value as nat).len(),
        d1 == with_int(d, number as u64, value),
        description_from(sub, next, d1) == then,
    ensures
        description_from(sub, pos, d) == then,
{
    lemma_int_step(sub, pos, number, value, d);
}

proof fn lemma_dims(d: VideoDims, w: u32, h: u32, t: u32)
    ensures
        with_int(d, 4, w as u64) == (VideoDims { width: w, ..d }),
        with_int(d, 5, h as u64) == (VideoDims { height: h, ..d }),
        with_int(d, 6, t as u64) == (VideoDims { tiles: t, ..d }),
{
}

proof fn lemma_description_leads(
    sub: Seq<u8>,
    p1: int,
    p2: int,
    p3: int,
    w: u32,
    h: u32,
    t: u32,
    d: VideoDims,
    then: Option<VideoDims>,
)
    requires
        sub.len() <= usize::MAX,
        holds(sub, 0, int_written(4, w as nat)),
        p1 == int_written(4, w as nat).len(),
        holds(sub, p1, int_written(5, h as nat)),
        p2 == p1 + int_written(5, h as nat).len(),
        holds(sub, p2, int_written(6, t as nat)),
        p3 == p2 + int_written(6, t as nat).len(),
        description_from(sub, p3, (VideoDims { width: w, height: h, tiles: t, ..d })) == then,
    ensures
        description_from(sub, 0, d) == then,
{
    let d1 = VideoDims { width: w, ..d };
    let d2 = VideoDims { height: h, ..d1 };
    let d3 = VideoDims { tiles: t, ..d2 };
    lemma_dims(d, w, h, t);
    lemma_dims(d1, w, h, t);
    lemma_dims(d2, w, h, t);
    lemma_int_leads(sub, p2, p3, 6, t as u64, d2, d3, then);
    lemma_int_leads(sub, p1, p2, 5, h as u64, d1, d2, then);
    lemma_int_leads(sub, 0, p1, 4, w as u64, d, d1, then);
}

#[verifier::spinoff_prover]
proof fn lemma_description_reads_back(sub: Seq<u8>, answer: MediaStreamAnswer, d: VideoDims)
    requires
        sub == description_written(answer),
        sub.len() <= usize::MAX,
    ensures
        description_from(sub, 0, d) == Some(
            VideoDims {
                width: answer.canvas_width,
                height: answer.canvas_height,
                tiles: answer.tile_count,
                codec: Some(answer.codec),
            },
        ),
{
    let (w, h, t) = (answer.canvas_width, answer.canvas_height, answer.tile_count);
    let (a, b, c, e) = (
        int_written(4, w as nat),
        int_written(5, h as nat),
        int_written(6, t as nat),
        bytes_written(3, int_written(1, codec_constant(answer.codec) as nat)),
    );
    lemma_description_parts(sub, a, b, c, e);
    let p1 = a.len() as int;
    let p2 = (a.len() + b.len()) as int;
    let p3 = (a.len() + b.len() + c.len()) as int;
    let d3 = VideoDims { width: w, height: h, tiles: t, ..d };
    lemma_bank_ends(sub, p3, answer.codec, d3);
    lemma_description_leads(
        sub,
        p1,
        p2,
        p3,
        w,
        h,
        t,
        d,
        Some(VideoDims { codec: Some(answer.codec), ..d3 }),
    );
}

/// An answer is read as it was written: the size of the canvas, the number of
/// tiles and the codec.
#[verifier::spinoff_prover]
pub proof fn lemma_answer_reads_back(blob: Seq<u8>, answer: MediaStreamAnswer)
    requires
        blob == bytes_written(5, description_written(answer)),
        blob.len() <= usize::MAX,
    ensures
        blob_answer(blob) == Some(answer),
{
    let sub = description_written(answer);
    assert(sub.len() <= blob.len());
    assert(holds(blob, 0, blob));
    lemma_bytes_held(blob, 0, 5, sub);
    lemma_description_reads_back(sub, answer, no_dims());
    let end = blob.len() as int;
    let d = VideoDims {
        width: answer.canvas_width,
        height: answer.canvas_height,
        tiles: answer.tile_count,
        codec: Some(answer.codec),
    };
    assert(blob_from(blob, end, d) == Some(d));
}

} // verus!
