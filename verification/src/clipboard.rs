//! Extended Clipboard messages.
//!
//! A message starts with a word of flags: the low bits name the formats that it
//! is about, the high bits what it does. Data are compressed, and each format's
//! data stand behind their length.

use vstd::arithmetic::power2::pow2;
use vstd::bits::lemma_u32_shr_is_div;
use vstd::prelude::*;
use vstd::utf8::encode_utf8;

use crate::error::{protocol_error, Failure, VncError};
use crate::inflate::{deflated, inflated, inflated_upto, zlib_compress, zlib_inflate_upto};
use crate::wire::{
    be32, holds, lemma_high_byte_first, lemma_holds_both, push_all, push_u32, slice, to_vec, u32_at,
    u32_of,
};

verus! {

/// Most bytes that the data of a message may inflate to.
pub const MAX_CLIPBOARD_LEN: u64 = 0xa0_0000;

/// The message announces what its sender can do.
pub const CAPS: u32 = 0x100_0000;

/// The message asks for data.
pub const REQUEST: u32 = 0x200_0000;

/// The message asks which formats there are.
pub const PEEK: u32 = 0x400_0000;

/// The message says which formats there are.
pub const NOTIFY: u32 = 0x800_0000;

/// The message holds data.
pub const PROVIDE: u32 = 0x1000_0000;

/// The bit for text.
pub const TEXT: u32 = 1;

/// A format of clipboard data.
#[derive(Debug, Clone, Copy, PartialEq, Eq, Structural)]
pub enum ClipboardFormat {
    Text,
    Rtf,
    Html,
    Dib,
    Files,
    /// A format that has a bit but no name, by its position.
    Other(u8),
}

/// The format of a bit.
pub open spec fn format_of(bit: int) -> ClipboardFormat {
    if bit == 0 {
        ClipboardFormat::Text
    } else if bit == 1 {
        ClipboardFormat::Rtf
    } else if bit == 2 {
        ClipboardFormat::Html
    } else if bit == 3 {
        ClipboardFormat::Dib
    } else if bit == 4 {
        ClipboardFormat::Files
    } else {
        ClipboardFormat::Other(bit as u8)
    }
}

fn format_at(bit: u32) -> (r: ClipboardFormat)
    requires
        bit < 16,
    ensures
        r == format_of(bit as int),
{
    if bit == 0 {
        ClipboardFormat::Text
    } else if bit == 1 {
        ClipboardFormat::Rtf
    } else if bit == 2 {
        ClipboardFormat::Html
    } else if bit == 3 {
        ClipboardFormat::Dib
    } else if bit == 4 {
        ClipboardFormat::Files
    } else {
        ClipboardFormat::Other(bit as u8)
    }
}

/// An extended clipboard message.
#[derive(Debug, Clone)]
pub enum ClipboardMessage {
    /// The formats that the sender takes, and the most bytes of each.
    Caps { formats: Vec<(ClipboardFormat, u32)> },
    Request { formats: Vec<ClipboardFormat> },
    Peek,
    Notify { formats: Vec<ClipboardFormat> },
    Provide { data: Vec<(ClipboardFormat, Vec<u8>)> },
}

/// What a [`ClipboardMessage`] says.
pub enum ClipboardView {
    Caps { formats: Seq<(ClipboardFormat, u32)> },
    Request { formats: Seq<ClipboardFormat> },
    Peek,
    Notify { formats: Seq<ClipboardFormat> },
    Provide { data: Seq<(ClipboardFormat, Seq<u8>)> },
}

/// What a list of data holds.
pub open spec fn data_views(data: Seq<(ClipboardFormat, Vec<u8>)>) -> Seq<
    (ClipboardFormat, Seq<u8>),
> {
    Seq::new(data.len(), |i: int| (data[i].0, data[i].1@))
}

impl View for ClipboardMessage {
    type V = ClipboardView;

    open spec fn view(&self) -> ClipboardView {
        match self {
            ClipboardMessage::Caps { formats } => ClipboardView::Caps { formats: formats@ },
            ClipboardMessage::Request { formats } => ClipboardView::Request { formats: formats@ },
            ClipboardMessage::Peek => ClipboardView::Peek,
            ClipboardMessage::Notify { formats } => ClipboardView::Notify { formats: formats@ },
            ClipboardMessage::Provide { data } => ClipboardView::Provide {
                data: data_views(data@),
            },
        }
    }
}

/// Whether a bit is set.
pub open spec fn is_set(flags: u32, bit: int) -> bool {
    (flags >> (bit as u32)) & 1 == 1
}

/// The formats among the first `n` bits.
pub open spec fn formats_in(flags: u32, n: int) -> Seq<ClipboardFormat>
    decreases n,
{
    if n <= 0 {
        Seq::empty()
    } else if is_set(flags, n - 1) {
        formats_in(flags, n - 1).push(format_of(n - 1))
    } else {
        formats_in(flags, n - 1)
    }
}

fn read_formats(flags: u32) -> (r: Vec<ClipboardFormat>)
    ensures
        r@ == formats_in(flags, 16),
{
    let mut out: Vec<ClipboardFormat> = Vec::new();
    let mut i: u32 = 0;
    while i < 16
        invariant
            i <= 16,
            out@ == formats_in(flags, i as int),
        decreases 16 - i,
    {
        if (flags >> i) & 1 == 1 {
            out.push(format_at(i));
        }
        i = i + 1;
    }
    out
}

/// The sizes of the formats among the first `n` bits: one word each.
pub open spec fn caps_in(flags: u32, s: Seq<u8>, n: int) -> Option<Seq<(ClipboardFormat, u32)>>
    decreases n,
{
    if n <= 0 {
        Some(Seq::empty())
    } else {
        match caps_in(flags, s, n - 1) {
            None => None,
            Some(list) => if !is_set(flags, n - 1) {
                Some(list)
            } else if s.len() < 4 * (list.len() + 1) {
                None
            } else {
                Some(list.push((format_of(n - 1), u32_of(s, 4 * list.len() as int))))
            },
        }
    }
}

proof fn lemma_caps_stop(flags: u32, s: Seq<u8>, i: int, n: int)
    requires
        i <= n,
        caps_in(flags, s, i) is None,
    ensures
        caps_in(flags, s, n) is None,
    decreases n - i,
{
    if i < n {
        assert(caps_in(flags, s, i + 1) is None);
        lemma_caps_stop(flags, s, i + 1, n);
    }
}

fn read_caps(flags: u32, s: &[u8]) -> (r: Option<Vec<(ClipboardFormat, u32)>>)
    ensures
        match caps_in(flags, s@, 16) {
            None => r is None,
            Some(list) => r matches Some(v) && v@ == list,
        },
{
    assert(s@.len() == s.len());
    let mut out: Vec<(ClipboardFormat, u32)> = Vec::new();
    let mut i: u32 = 0;
    while i < 16
        invariant
            i <= 16,
            s@.len() == s.len(),
            out@.len() <= i,
            caps_in(flags, s@, i as int) == Some(out@),
        decreases 16 - i,
    {
        if (flags >> i) & 1 == 1 {
            let at: usize = 4 * out.len();
            if s.len() < at + 4 {
                proof {
                    assert(caps_in(flags, s@, i + 1) is None);
                    lemma_caps_stop(flags, s@, i + 1, 16);
                }
                return None;
            }
            out.push((format_at(i), u32_at(s, at)));
        }
        i = i + 1;
    }
    Some(out)
}

/// Where the reading of data stands: what was read, and how many bytes it took.
pub open spec fn data_in(flags: u32, s: Seq<u8>, n: int) -> Option<
    (Seq<(ClipboardFormat, Seq<u8>)>, int),
>
    decreases n,
{
    if n <= 0 {
        Some((Seq::empty(), 0))
    } else {
        match data_in(flags, s, n - 1) {
            None => None,
            Some((list, at)) => if !is_set(flags, n - 1) {
                Some((list, at))
            } else if s.len() < at + 4 || s.len() < at + 4 + u32_of(s, at) {
                None
            } else {
                let end = at + 4 + u32_of(s, at);
                Some((list.push((format_of(n - 1), s.subrange(at + 4, end))), end))
            },
        }
    }
}

proof fn lemma_data_stop(flags: u32, s: Seq<u8>, i: int, n: int)
    requires
        i <= n,
        data_in(flags, s, i) is None,
    ensures
        data_in(flags, s, n) is None,
    decreases n - i,
{
    if i < n {
        assert(data_in(flags, s, i + 1) is None);
        lemma_data_stop(flags, s, i + 1, n);
    }
}

fn read_data(flags: u32, s: &[u8]) -> (r: Option<Vec<(ClipboardFormat, Vec<u8>)>>)
    ensures
        match data_in(flags, s@, 16) {
            None => r is None,
            Some((list, end)) => r matches Some(v) && data_views(v@) == list,
        },
{
    assert(s@.len() == s.len());
    let mut out: Vec<(ClipboardFormat, Vec<u8>)> = Vec::new();
    let mut at: usize = 0;
    let mut i: u32 = 0;
    assert(data_views(out@) =~= Seq::empty());
    while i < 16
        invariant
            i <= 16,
            at <= s@.len(),
            s@.len() == s.len(),
            data_in(flags, s@, i as int) == Some((data_views(out@), at as int)),
        decreases 16 - i,
    {
        if (flags >> i) & 1 == 1 {
            let left: usize = s.len() - at;
            if left < 4 || ((left - 4) as u64) < u32_at(s, at) as u64 {
                proof {
                    assert(data_in(flags, s@, i + 1) is None);
                    lemma_data_stop(flags, s@, i + 1, 16);
                }
                return None;
            }
            let end: usize = at + 4 + u32_at(s, at) as usize;
            let ghost before = data_views(out@);
            out.push((format_at(i), to_vec(slice(s, at + 4, end))));
            assert(data_views(out@) =~= before.push(
                (format_of(i as int), s@.subrange(at + 4, end as int)),
            ));
            at = end;
        }
        i = i + 1;
    }
    Some(out)
}

/// What a message says, given what its data inflate to, where they can be read.
pub open spec fn message_of(data: Seq<u8>, plain: Option<Seq<u8>>) -> Result<
    ClipboardView,
    Failure,
> {
    if data.len() < 4 {
        Err(Failure::Protocol("Clipboard message is too short"@))
    } else {
        let flags = u32_of(data, 0);
        if flags & PROVIDE != 0 {
            match plain {
                None => Err(Failure::Protocol("Clipboard data are damaged or too long"@)),
                Some(p) => match data_in(flags, p, 16) {
                    None => Err(Failure::Protocol("Clipboard data are incomplete"@)),
                    Some((list, end)) => Ok(ClipboardView::Provide { data: list }),
                },
            }
        } else if flags & NOTIFY != 0 {
            Ok(ClipboardView::Notify { formats: formats_in(flags, 16) })
        } else if flags & PEEK != 0 {
            Ok(ClipboardView::Peek)
        } else if flags & REQUEST != 0 {
            Ok(ClipboardView::Request { formats: formats_in(flags, 16) })
        } else if flags & CAPS != 0 {
            match caps_in(flags, data.skip(4), 16) {
                None => Err(Failure::Protocol("Clipboard data are incomplete"@)),
                Some(list) => Ok(ClipboardView::Caps { formats: list }),
            }
        } else {
            Err(Failure::Protocol("Clipboard message does nothing"@))
        }
    }
}

/// Whether a result reports what a message says.
pub open spec fn message_reports(
    r: Result<ClipboardMessage, VncError>,
    said: Result<ClipboardView, Failure>,
) -> bool {
    match said {
        Ok(m) => r matches Ok(v) && v@ == m,
        Err(f) => r matches Err(e) && e@ == f,
    }
}

/// What is accepted of what came out of the data.
pub open spec fn accepted(out: Result<Seq<u8>, Seq<char>>) -> Option<Seq<u8>> {
    match out {
        Ok(p) => if p.len() <= MAX_CLIPBOARD_LEN {
            Some(p)
        } else {
            None
        },
        Err(text) => None,
    }
}

/// What the data of a message inflate to.
pub open spec fn plain_of(data: Seq<u8>) -> Option<Seq<u8>> {
    accepted(inflated_upto(data.skip(4), MAX_CLIPBOARD_LEN as nat + 1))
}

/// The bytes of an optional buffer.
pub open spec fn plain_view(plain: Option<Vec<u8>>) -> Option<Seq<u8>> {
    match plain {
        Some(v) => Some(v@),
        None => None,
    }
}

/// Reads a message whose data inflate to `plain`.
pub fn read_message(data: &[u8], plain: Option<Vec<u8>>) -> (r: Result<ClipboardMessage, VncError>)
    ensures
        message_reports(r, message_of(data@, plain_view(plain))),
{
    assert(data@.len() == data.len());
    if data.len() < 4 {
        return Err(protocol_error("Clipboard message is too short"));
    }
    let flags: u32 = u32_at(data, 0);
    if flags & PROVIDE != 0 {
        match plain {
            None => Err(protocol_error("Clipboard data are damaged or too long")),
            Some(p) => match read_data(flags, &p) {
                None => Err(protocol_error("Clipboard data are incomplete")),
                Some(list) => Ok(ClipboardMessage::Provide { data: list }),
            },
        }
    } else if flags & NOTIFY != 0 {
        Ok(ClipboardMessage::Notify { formats: read_formats(flags) })
    } else if flags & PEEK != 0 {
        Ok(ClipboardMessage::Peek)
    } else if flags & REQUEST != 0 {
        Ok(ClipboardMessage::Request { formats: read_formats(flags) })
    } else if flags & CAPS != 0 {
        let rest = slice(data, 4, data.len());
        assert(rest@ =~= data@.skip(4));
        match read_caps(flags, rest) {
            None => Err(protocol_error("Clipboard data are incomplete")),
            Some(list) => Ok(ClipboardMessage::Caps { formats: list }),
        }
    } else {
        Err(protocol_error("Clipboard message does nothing"))
    }
}

/// Decodes a message. Data that are a complete zlib stream within the limit are
/// read in full.
pub fn decode_message(data: &[u8]) -> (r: Result<ClipboardMessage, VncError>)
    ensures
        message_reports(r, message_of(data@, plain_of(data@))),
        data@.len() >= 4 && u32_of(data@, 0) & PROVIDE != 0 ==> match inflated(data@.skip(4)) {
            Some(p) => p.len() <= MAX_CLIPBOARD_LEN ==> message_reports(
                r,
                message_of(data@, Some(p)),
            ),
            None => true,
        },
{
    assert(data@.len() == data.len());
    if data.len() < 4 {
        return read_message(data, None);
    }
    if u32_at(data, 0) & PROVIDE == 0 {
        return read_message(data, None);
    }
    let packed = slice(data, 4, data.len());
    assert(packed@ =~= data@.skip(4));
    let plain = match zlib_inflate_upto(packed, MAX_CLIPBOARD_LEN + 1) {
        Err(_) => None,
        Ok(p) => if p.len() as u64 <= MAX_CLIPBOARD_LEN {
            Some(p)
        } else {
            None
        },
    };
    read_message(data, plain)
}

/// Text with its length in front.
pub open spec fn text_data(text: Seq<u8>) -> Seq<u8> {
    be32((text.len() % 0x1_0000_0000) as u32) + text
}

/// The message that provides `text`.
pub open spec fn text_provide(text: Seq<u8>) -> Seq<u8> {
    be32(PROVIDE | TEXT) + deflated(text_data(text))
}

proof fn lemma_one_format(flags: u32, n: int)
    requires
        flags == PROVIDE | TEXT || flags == REQUEST | TEXT,
        1 <= n <= 16,
    ensures
        is_set(flags, 0),
        forall|i: int| 1 <= i < n ==> !#[trigger] is_set(flags, i),
        formats_in(flags, n) == seq![ClipboardFormat::Text],
    decreases n,
{
    assert((0x1000_0001u32 >> 0u32) & 1 == 1 && (0x200_0001u32 >> 0u32) & 1 == 1) by (bit_vector);
    assert(0x1000_0000u32 | 1u32 == 0x1000_0001u32 && 0x200_0000u32 | 1u32 == 0x200_0001u32)
        by (bit_vector);
    if n > 1 {
        lemma_one_format(flags, n - 1);
        let k = (n - 1) as u32;
        assert((0x1000_0001u32 >> k) & 1 == 0 && (0x200_0001u32 >> k) & 1 == 0) by (bit_vector)
            requires
                1 <= k < 16,
        ;
    } else {
        reveal_with_fuel(formats_in, 2);
        assert(formats_in(flags, 1) =~= seq![ClipboardFormat::Text]);
    }
}

/// A message that provides text is read as that text, once its data are
/// inflated to what was compressed.
pub proof fn lemma_provided_text_is_read(text: Seq<u8>)
    requires
        text.len() < 0x1_0000_0000,
    ensures
        u32_of(text_provide(text), 0) & PROVIDE != 0,
        text_provide(text).skip(4) == deflated(text_data(text)),
        message_of(text_provide(text), Some(text_data(text))) == Ok::<ClipboardView, Failure>(
            ClipboardView::Provide { data: seq![(ClipboardFormat::Text, text)] },
        ),
{
    let flags = PROVIDE | TEXT;
    let m = text_provide(text);
    let packed = deflated(text_data(text));
    assert(0x1000_0000u32 | 1u32 == 0x1000_0001u32 && 0x1000_0001u32 & 0x1000_0000u32 != 0)
        by (bit_vector);
    crate::wire::lemma_u32_inside(Seq::empty(), flags, packed);
    assert(Seq::<u8>::empty() + be32(flags) + packed =~= m);
    assert(m.skip(4) =~= packed);
    let n = text.len() as u32;
    crate::wire::lemma_u32_inside(Seq::empty(), n, text);
    assert(Seq::<u8>::empty() + be32(n) + text =~= text_data(text));
    lemma_one_format(flags, 16);
    lemma_text_alone(flags, text, 16);
}

proof fn lemma_text_alone(flags: u32, text: Seq<u8>, n: int)
    requires
        text.len() < 0x1_0000_0000,
        u32_of(text_data(text), 0) == text.len(),
        is_set(flags, 0),
        forall|i: int| 1 <= i < 16 ==> !#[trigger] is_set(flags, i),
        1 <= n <= 16,
    ensures
        data_in(flags, text_data(text), n) == Some(
            (seq![(ClipboardFormat::Text, text)], (4 + text.len()) as int),
        ),
    decreases n,
{
    let s = text_data(text);
    if n > 1 {
        lemma_text_alone(flags, text, n - 1);
        assert(!is_set(flags, n - 1));
    } else {
        reveal_with_fuel(data_in, 2);
        assert(s.subrange(4, 4 + text.len() as int) =~= text);
        assert(data_in(flags, s, 0) == Some((Seq::<(ClipboardFormat, Seq<u8>)>::empty(), 0int)));
        assert(Seq::<(ClipboardFormat, Seq<u8>)>::empty().push((ClipboardFormat::Text, text))
            =~= seq![(ClipboardFormat::Text, text)]);
    }
}

/// Builds the message that provides a text. What is compressed in it inflates
/// to the text again.
pub fn build_text_provide(text: &str) -> (r: Vec<u8>)
    ensures
        r@ == text_provide(encode_utf8(text@)),
        inflated(r@.skip(4)) == Some(text_data(encode_utf8(text@))),
{
    let bytes = text.as_bytes();
    let mut plain: Vec<u8> = Vec::new();
    push_u32(&mut plain, (bytes.len() as u64 % 0x1_0000_0000) as u32);
    push_all(&mut plain, bytes);
    assert(plain@ =~= text_data(encode_utf8(text@)));
    let packed = zlib_compress(&plain);
    let mut out: Vec<u8> = Vec::new();
    push_u32(&mut out, PROVIDE | TEXT);
    push_all(&mut out, &packed);
    assert(out@ =~= text_provide(encode_utf8(text@)));
    assert(out@.skip(4) =~= packed@);
    out
}

/// Builds the message that asks for text.
pub fn build_text_request() -> (r: Vec<u8>)
    ensures
        r@ == be32(REQUEST | TEXT),
        message_of(r@, None) == Ok::<ClipboardView, Failure>(
            ClipboardView::Request { formats: seq![ClipboardFormat::Text] },
        ),
{
    let mut out: Vec<u8> = Vec::new();
    push_u32(&mut out, REQUEST | TEXT);
    assert(out@ =~= be32(REQUEST | TEXT));
    proof {
        let flags = REQUEST | TEXT;
        assert(0x200_0000u32 | 1u32 == 0x200_0001u32 && 0x200_0001u32 & 0x1000_0000u32 == 0
            && 0x200_0001u32 & 0x800_0000u32 == 0 && 0x200_0001u32 & 0x400_0000u32 == 0
            && 0x200_0001u32 & 0x200_0000u32 != 0) by (bit_vector);
        crate::wire::lemma_be32_round_trip(flags);
        lemma_one_format(flags, 16);
    }
    out
}

proof fn lemma_is_set(flags: u32, bit: int)
    requires
        0 <= bit < 32,
    ensures
        is_set(flags, bit) <==> flags as int / pow2(bit as nat) as int % 2 == 1,
{
    let x = flags >> (bit as u32);
    lemma_u32_shr_is_div(flags, bit as u32);
    assert(x & 1 == x % 2) by (bit_vector);
}

/// The name of a format, by its bit.
pub open spec fn named_format(bit: int) -> ClipboardFormat {
    if bit < 5 {
        seq![
            ClipboardFormat::Text,
            ClipboardFormat::Rtf,
            ClipboardFormat::Html,
            ClipboardFormat::Dib,
            ClipboardFormat::Files,
        ][bit]
    } else {
        ClipboardFormat::Other(bit as u8)
    }
}

/// What there is for each format, by its bit; only the low sixteen bits of the
/// flags count.
pub open spec fn announced<T>(flags: u32, entries: Seq<Option<T>>) -> bool {
    &&& entries.len() == 16
    &&& forall|bit: int|
        0 <= bit < 16 ==> (flags as int / pow2(bit as nat) as int % 2 == 1
            <==> #[trigger] entries[bit] is Some)
}

/// The formats of the first `n` bits for which there is something, in order.
pub open spec fn formats_held<T>(entries: Seq<Option<T>>, n: int) -> Seq<ClipboardFormat>
    decreases n,
{
    if n <= 0 {
        Seq::empty()
    } else if entries[n - 1] is Some {
        formats_held(entries, n - 1).push(named_format(n - 1))
    } else {
        formats_held(entries, n - 1)
    }
}

proof fn lemma_formats_held<T>(flags: u32, entries: Seq<Option<T>>, n: int)
    requires
        announced(flags, entries),
        0 <= n <= 16,
    ensures
        formats_in(flags, n) == formats_held(entries, n),
    decreases n,
{
    if n > 0 {
        lemma_formats_held(flags, entries, n - 1);
        lemma_is_set(flags, n - 1);
    }
}

/// The data of the first `n` bits as a server writes them: each behind its
/// length, in the order of the bits.
pub open spec fn data_written(entries: Seq<Option<Seq<u8>>>, n: int) -> Seq<u8>
    decreases n,
{
    if n <= 0 {
        Seq::empty()
    } else {
        match entries[n - 1] {
            Some(data) => data_written(entries, n - 1) + (be32(data.len() as u32) + data),
            None => data_written(entries, n - 1),
        }
    }
}

/// The data of the first `n` bits with their formats.
pub open spec fn data_held(entries: Seq<Option<Seq<u8>>>, n: int) -> Seq<
    (ClipboardFormat, Seq<u8>),
>
    decreases n,
{
    if n <= 0 {
        Seq::empty()
    } else {
        match entries[n - 1] {
            Some(data) => data_held(entries, n - 1).push((named_format(n - 1), data)),
            None => data_held(entries, n - 1),
        }
    }
}

#[verifier::spinoff_prover]
proof fn lemma_data_held(flags: u32, entries: Seq<Option<Seq<u8>>>, s: Seq<u8>, n: int)
    requires
        announced(flags, entries),
        0 <= n <= 16,
        forall|bit: int|
            0 <= bit < 16 ==> (#[trigger] entries[bit] matches Some(data) ==> data.len()
                <= 0xffff_ffff),
        holds(s, 0, data_written(entries, n)),
    ensures
        data_in(flags, s, n) == Some(
            (data_held(entries, n), data_written(entries, n).len() as int),
        ),
    decreases n,
{
    if n > 0 {
        lemma_is_set(flags, n - 1);
        let before = data_written(entries, n - 1);
        let at = before.len() as int;
        match entries[n - 1] {
            Some(data) => {
                let head = be32(data.len() as u32);
                lemma_holds_both(s, 0, before, head + data);
                lemma_holds_both(s, at, head, data);
                lemma_data_held(flags, entries, s, n - 1);
                lemma_high_byte_first(0, data.len() as u32);
                assert(s[at + 0] == head[0] && s[at + 1] == head[1] && s[at + 2] == head[2] && s[at
                    + 3] == head[3]);
                assert(u32_of(s, at) == data.len());
                assert(s.subrange(at + 4, at + 4 + data.len()) =~= data);
            },
            None => {
                lemma_data_held(flags, entries, s, n - 1);
            },
        }
    }
}

/// A message that provides data is read as the data of each format that its
/// flags name, in the order of their bits, given that they inflate to what was
/// written.
pub proof fn lemma_provided_data_are_read(
    data: Seq<u8>,
    plain: Seq<u8>,
    flags: u32,
    entries: Seq<Option<Seq<u8>>>,
)
    requires
        data.len() >= 4,
        data[0] * 0x100_0000 + data[1] * 0x1_0000 + data[2] * 256 + data[3] == flags,
        flags / 0x1000_0000 % 2 == 1,
        announced(flags, entries),
        forall|bit: int|
            0 <= bit < 16 ==> (#[trigger] entries[bit] matches Some(d) ==> d.len() <= 0xffff_ffff),
        holds(plain, 0, data_written(entries, 16)),
    ensures
        message_of(data, Some(plain)) == Ok::<ClipboardView, Failure>(
            ClipboardView::Provide { data: data_held(entries, 16) },
        ),
{
    assert(u32_of(data, 0) == flags);
    assert((flags & 0x1000_0000u32 != 0) == (flags / 0x1000_0000u32 % 2 == 1)) by (bit_vector);
    lemma_data_held(flags, entries, plain, 16);
}

/// A message that provides nothing says which formats there are, asks which
/// there are, or asks for some, by the highest of these bits; the formats are
/// those of the low sixteen bits, in order.
pub proof fn lemma_formats_are_read(
    data: Seq<u8>,
    plain: Option<Seq<u8>>,
    flags: u32,
    entries: Seq<Option<()>>,
)
    requires
        data.len() >= 4,
        data[0] * 0x100_0000 + data[1] * 0x1_0000 + data[2] * 256 + data[3] == flags,
        flags / 0x1000_0000 % 2 == 0,
        announced(flags, entries),
    ensures
        ({
            let formats = formats_held(entries, 16);
            let m = message_of(data, plain);
            if flags / 0x800_0000 % 2 == 1 {
                m == Ok::<ClipboardView, Failure>(ClipboardView::Notify { formats })
            } else if flags / 0x400_0000 % 2 == 1 {
                m == Ok::<ClipboardView, Failure>(ClipboardView::Peek)
            } else if flags / 0x200_0000 % 2 == 1 {
                m == Ok::<ClipboardView, Failure>(ClipboardView::Request { formats })
            } else {
                flags / 0x100_0000 % 2 == 0 ==> m is Err
            }
        }),
{
    assert(u32_of(data, 0) == flags);
    assert((flags & 0x1000_0000u32 != 0) == (flags / 0x1000_0000u32 % 2 == 1) && (flags
        & 0x800_0000u32 != 0) == (flags / 0x800_0000u32 % 2 == 1) && (flags & 0x400_0000u32 != 0)
        == (flags / 0x400_0000u32 % 2 == 1) && (flags & 0x200_0000u32 != 0) == (flags
        / 0x200_0000u32 % 2 == 1) && (flags & 0x100_0000u32 != 0) == (flags / 0x100_0000u32 % 2
        == 1)) by (bit_vector);
    lemma_formats_held(flags, entries, 16);
}

/// The sizes of the first `n` bits as a server writes them.
pub open spec fn caps_written(entries: Seq<Option<u32>>, n: int) -> Seq<u8>
    decreases n,
{
    if n <= 0 {
        Seq::empty()
    } else {
        match entries[n - 1] {
            Some(size) => caps_written(entries, n - 1) + be32(size),
            None => caps_written(entries, n - 1),
        }
    }
}

/// The sizes of the first `n` bits with their formats.
pub open spec fn caps_held(entries: Seq<Option<u32>>, n: int) -> Seq<(ClipboardFormat, u32)>
    decreases n,
{
    if n <= 0 {
        Seq::empty()
    } else {
        match entries[n - 1] {
            Some(size) => caps_held(entries, n - 1).push((named_format(n - 1), size)),
            None => caps_held(entries, n - 1),
        }
    }
}

#[verifier::spinoff_prover]
proof fn lemma_caps_held(flags: u32, entries: Seq<Option<u32>>, s: Seq<u8>, n: int)
    requires
        announced(flags, entries),
        0 <= n <= 16,
        holds(s, 0, caps_written(entries, n)),
    ensures
        caps_in(flags, s, n) == Some(caps_held(entries, n)),
        caps_written(entries, n).len() == 4 * caps_held(entries, n).len(),
    decreases n,
{
    if n > 0 {
        lemma_is_set(flags, n - 1);
        let before = caps_written(entries, n - 1);
        let at = before.len() as int;
        match entries[n - 1] {
            Some(size) => {
                let head = be32(size);
                lemma_holds_both(s, 0, before, head);
                lemma_caps_held(flags, entries, s, n - 1);
                lemma_high_byte_first(0, size);
                assert(s[at + 0] == head[0] && s[at + 1] == head[1] && s[at + 2] == head[2] && s[at
                    + 3] == head[3]);
                assert(u32_of(s, at) == size);
            },
            None => {
                lemma_caps_held(flags, entries, s, n - 1);
            },
        }
    }
}

/// A message that only announces what its sender can do is read as the size of
/// each format that its flags name, in the order of their bits.
pub proof fn lemma_caps_are_read(
    data: Seq<u8>,
    plain: Option<Seq<u8>>,
    flags: u32,
    entries: Seq<Option<u32>>,
)
    requires
        data.len() >= 4,
        data[0] * 0x100_0000 + data[1] * 0x1_0000 + data[2] * 256 + data[3] == flags,
        flags / 0x100_0000 % 32 == 1,
        announced(flags, entries),
        holds(data.skip(4), 0, caps_written(entries, 16)),
    ensures
        message_of(data, plain) == Ok::<ClipboardView, Failure>(
            ClipboardView::Caps { formats: caps_held(entries, 16) },
        ),
{
    assert(u32_of(data, 0) == flags);
    assert(flags & 0x1000_0000u32 == 0 && flags & 0x800_0000u32 == 0 && flags & 0x400_0000u32 == 0
        && flags & 0x200_0000u32 == 0 && flags & 0x100_0000u32 != 0) by (bit_vector)
        requires
            flags / 0x100_0000u32 % 32 == 1,
    ;
    lemma_caps_held(flags, entries, data.skip(4), 16);
}

} // verus!
