//! Reassembly of H.264 and HEVC NAL units from RTP payloads.

use vstd::prelude::*;

use crate::decoder::Codec;
use crate::wire::{holds, lemma_holds_both, push_all, slice, to_vec, u16_at, u16_of};

verus! {

/// The contents of a list of byte vectors.
pub open spec fn contents(list: Seq<Vec<u8>>) -> Seq<Seq<u8>> {
    Seq::new(list.len(), |i: int| list[i]@)
}

/// The units of an aggregation packet from `pos` on: each is preceded by its
/// 16-bit length. A unit that does not fit ends the list.
pub open spec fn aggregated(payload: Seq<u8>, pos: int) -> Seq<Seq<u8>>
    decreases payload.len() - pos,
    when 0 <= pos
{
    if pos + 2 > payload.len() {
        Seq::empty()
    } else {
        let end = pos + 2 + u16_of(payload, pos);
        if end > payload.len() {
            Seq::empty()
        } else {
            seq![payload.subrange(pos + 2, end)] + aggregated(payload, end)
        }
    }
}

fn split_aggregate(payload: &[u8], from: usize) -> (out: Vec<Vec<u8>>)
    requires
        from <= payload@.len(),
    ensures
        contents(out@) == aggregated(payload@, from as int),
{
    let end: usize = payload.len();
    let mut out: Vec<Vec<u8>> = Vec::new();
    let mut pos: usize = from;
    assert(contents(out@) + aggregated(payload@, from as int) =~= aggregated(
        payload@,
        from as int,
    ));
    while end - pos >= 2
        invariant
            end == payload@.len(),
            pos <= end,
            contents(out@) + aggregated(payload@, pos as int) == aggregated(payload@, from as int),
        decreases end - pos,
    {
        let len: usize = u16_at(payload, pos) as usize;
        if len > end - pos - 2 {
            assert(aggregated(payload@, pos as int) =~= Seq::<Seq<u8>>::empty());
            assert(contents(out@) =~= aggregated(payload@, from as int));
            return out;
        }
        let next: usize = pos + 2 + len;
        let ghost before = out@;
        let unit = to_vec(slice(payload, pos + 2, next));
        let ghost piece = unit@;
        out.push(unit);
        proof {
            assert(contents(out@) =~= contents(before) + seq![piece]);
            assert(contents(before) + (seq![piece] + aggregated(payload@, next as int))
                =~= contents(out@) + aggregated(payload@, next as int));
        }
        pos = next;
    }
    assert(aggregated(payload@, pos as int) =~= Seq::<Seq<u8>>::empty());
    assert(contents(out@) =~= aggregated(payload@, from as int));
    out
}

fn one(unit: Vec<u8>) -> (out: Vec<Vec<u8>>)
    ensures
        contents(out@) == seq![unit@],
{
    let ghost u = unit@;
    let mut out: Vec<Vec<u8>> = Vec::new();
    out.push(unit);
    assert(contents(out@) =~= seq![u]);
    out
}

fn none() -> (out: Vec<Vec<u8>>)
    ensures
        contents(out@) == Seq::<Seq<u8>>::empty(),
{
    let out: Vec<Vec<u8>> = Vec::new();
    assert(contents(out@) =~= Seq::<Seq<u8>>::empty());
    out
}

// ---------------------------------------------------------------------------
// H.264
// ---------------------------------------------------------------------------

/// The reassembly state of an H.264 stream.
pub struct H264State {
    /// The unit being put together; empty when there is none.
    pub unit: Seq<u8>,
    /// The type of the unit being put together.
    pub nal_type: u8,
}

/// The state and the units after a fragment: a start fragment begins a new
/// unit, a fragment of the same type extends it, an end fragment completes it.
pub open spec fn h264_fragment(s: H264State, payload: Seq<u8>) -> (H264State, Seq<Seq<u8>>) {
    if payload.len() < 2 {
        (s, Seq::empty())
    } else {
        let nal_type = payload[1] % 32;
        let frag = payload.subrange(2, payload.len() as int);
        let begun = if payload[1] >= 128 {
            H264State { unit: seq![(payload[0] / 32 % 4 * 32 + nal_type) as u8], nal_type }
        } else {
            s
        };
        let grown = if begun.nal_type == nal_type && begun.unit.len() > 0 {
            H264State { unit: begun.unit + frag, ..begun }
        } else {
            begun
        };
        if payload[1] / 64 % 2 == 1 && grown.unit.len() > 0 {
            (H264State { unit: Seq::empty(), ..grown }, seq![grown.unit])
        } else {
            (grown, Seq::empty())
        }
    }
}

/// The state and the units after an RTP payload.
pub open spec fn h264_fed(s: H264State, payload: Seq<u8>) -> (H264State, Seq<Seq<u8>>) {
    if payload.len() == 0 {
        (s, Seq::empty())
    } else if payload[0] % 32 == 24 {
        (s, aggregated(payload, 1))
    } else if payload[0] % 32 == 28 {
        h264_fragment(s, payload)
    } else {
        (s, seq![payload])
    }
}

/// H.264 depayloader: single units, aggregation packets (STAP-A) and
/// fragmentation units (FU-A).
pub struct H264Depacketizer {
    fu_buffer: Vec<u8>,
    fu_nal_type: u8,
}

impl View for H264Depacketizer {
    type V = H264State;

    closed spec fn view(&self) -> H264State {
        H264State { unit: self.fu_buffer@, nal_type: self.fu_nal_type }
    }
}

impl H264Depacketizer {
    /// A depayloader with nothing in progress.
    pub fn new() -> (r: H264Depacketizer)
        ensures
            r@ == (H264State { unit: Seq::empty(), nal_type: 0 }),
    {
        H264Depacketizer { fu_buffer: Vec::new(), fu_nal_type: 0 }
    }

    /// Takes one RTP payload and returns the NAL units it completes.
    pub fn feed(&mut self, payload: &[u8]) -> (out: Vec<Vec<u8>>)
        ensures
            (final(self)@, contents(out@)) == h264_fed(old(self)@, payload@),
    {
        if payload.len() == 0 {
            return none();
        }
        let nal_type: u8 = payload[0] % 32;
        if nal_type == 24 {
            split_aggregate(payload, 1)
        } else if nal_type == 28 {
            self.fu_a(payload)
        } else {
            one(to_vec(payload))
        }
    }

    fn fu_a(&mut self, payload: &[u8]) -> (out: Vec<Vec<u8>>)
        ensures
            (final(self)@, contents(out@)) == h264_fragment(old(self)@, payload@),
    {
        if payload.len() < 2 {
            return none();
        }
        let start: bool = payload[1] >= 128;
        let end: bool = payload[1] / 64 % 2 == 1;
        let nal_type: u8 = payload[1] % 32;
        let frag = slice(payload, 2, payload.len());
        if start {
            self.fu_nal_type = nal_type;
            self.fu_buffer = vec![payload[0] / 32 % 4 * 32 + nal_type];
            assert(self.fu_buffer@ =~= seq![(payload@[0] / 32 % 4 * 32 + nal_type) as u8]);
        }
        if self.fu_nal_type == nal_type && self.fu_buffer.len() > 0 {
            push_all(&mut self.fu_buffer, frag);
        }
        if end && self.fu_buffer.len() > 0 {
            let unit = to_vec(&self.fu_buffer);
            self.fu_buffer = Vec::new();
            return one(unit);
        }
        none()
    }

    fn reset(&mut self)
        ensures
            final(self)@ == (H264State { unit: Seq::empty(), nal_type: 0 }),
    {
        self.fu_buffer = Vec::new();
        self.fu_nal_type = 0;
    }
}

// ---------------------------------------------------------------------------
// HEVC with decoding-order numbers
// ---------------------------------------------------------------------------

/// The reassembly state of an HEVC stream.
pub struct HevcState {
    /// The unit being put together.
    pub unit: Seq<u8>,
    /// Whether a unit is being put together.
    pub active: bool,
    /// The last decoding-order number seen.
    pub last_donl: Option<u16>,
}

/// The state and the units after a fragment.
pub open spec fn hevc_fragment(s: HevcState, payload: Seq<u8>) -> (HevcState, Seq<Seq<u8>>) {
    if payload.len() < 6 {
        (s, Seq::empty())
    } else {
        let nal_type = payload[2] % 64;
        let frag = payload.subrange(5, payload.len() as int);
        let grown = if payload[2] >= 128 {
            HevcState {
                unit: seq![
                    (payload[0] / 128 * 128 + payload[0] % 2 + nal_type * 2) as u8,
                    payload[1],
                ] + frag,
                active: true,
                last_donl: Some(u16_of(payload, 3)),
            }
        } else if s.active {
            HevcState { unit: s.unit + frag, ..s }
        } else {
            s
        };
        if payload[2] / 64 % 2 == 1 && grown.active {
            (HevcState { unit: Seq::empty(), active: false, ..grown }, seq![grown.unit])
        } else {
            (grown, Seq::empty())
        }
    }
}

/// The state and the units after an RTP payload. Every payload carries a
/// decoding-order number behind its header, which is not part of the unit.
pub open spec fn hevc_fed(s: HevcState, payload: Seq<u8>) -> (HevcState, Seq<Seq<u8>>) {
    if payload.len() < 2 {
        (s, Seq::empty())
    } else if payload[0] / 2 % 64 == 49 {
        hevc_fragment(s, payload)
    } else if payload.len() < 4 {
        (s, Seq::empty())
    } else {
        let noted = HevcState { last_donl: Some(u16_of(payload, 2)), ..s };
        if payload[0] / 2 % 64 == 48 {
            (noted, aggregated(payload, 4))
        } else {
            (noted, seq![payload.subrange(0, 2) + payload.subrange(4, payload.len() as int)])
        }
    }
}

/// HEVC depayloader for streams that carry a 2-byte decoding-order number
/// (DONL) right behind the (FU) header:
///
///   * Single NAL (outer type 0..47): `hdr(2) + DONL(2) + nal_data`
///   * Aggregation Packet (type 48):  `hdr(2) + DONL(2) + [size(2)+nal_data]...`
///   * Fragmentation Unit (type 49):  `hdr(2) + fu_hdr(1) + DONL(2) + frag_data`
pub struct HevcDepacketizer {
    fu_buffer: Vec<u8>,
    fu_active: bool,
    last_donl: Option<u16>,
}

impl View for HevcDepacketizer {
    type V = HevcState;

    closed spec fn view(&self) -> HevcState {
        HevcState { unit: self.fu_buffer@, active: self.fu_active, last_donl: self.last_donl }
    }
}

impl HevcDepacketizer {
    /// A depayloader with nothing in progress.
    pub fn new() -> (r: HevcDepacketizer)
        ensures
            r@ == (HevcState { unit: Seq::empty(), active: false, last_donl: None }),
    {
        HevcDepacketizer { fu_buffer: Vec::new(), fu_active: false, last_donl: None }
    }

    /// Takes one RTP payload and returns the NAL units it completes.
    pub fn feed(&mut self, payload: &[u8]) -> (out: Vec<Vec<u8>>)
        ensures
            (final(self)@, contents(out@)) == hevc_fed(old(self)@, payload@),
    {
        if payload.len() < 2 {
            return none();
        }
        let outer_type: u8 = payload[0] / 2 % 64;
        if outer_type == 49 {
            return self.fu(payload);
        }
        if payload.len() < 4 {
            return none();
        }
        self.last_donl = Some(u16_at(payload, 2));
        if outer_type == 48 {
            split_aggregate(payload, 4)
        } else {
            let mut nal = to_vec(slice(payload, 0, 2));
            push_all(&mut nal, slice(payload, 4, payload.len()));
            one(nal)
        }
    }

    fn fu(&mut self, payload: &[u8]) -> (out: Vec<Vec<u8>>)
        ensures
            (final(self)@, contents(out@)) == hevc_fragment(old(self)@, payload@),
    {
        if payload.len() < 6 {
            return none();
        }
        let start: bool = payload[2] >= 128;
        let end: bool = payload[2] / 64 % 2 == 1;
        let nal_type: u8 = payload[2] % 64;
        let frag = slice(payload, 5, payload.len());
        if start {
            self.last_donl = Some(u16_at(payload, 3));
            self.fu_active = true;
            let hdr0: u8 = payload[0] / 128 * 128 + payload[0] % 2 + nal_type * 2;
            self.fu_buffer = vec![hdr0, payload[1]];
            assert(self.fu_buffer@ =~= seq![hdr0, payload@[1]]);
            push_all(&mut self.fu_buffer, frag);
        } else if self.fu_active {
            push_all(&mut self.fu_buffer, frag);
        }
        if end && self.fu_active {
            let unit = to_vec(&self.fu_buffer);
            self.fu_buffer = Vec::new();
            self.fu_active = false;
            return one(unit);
        }
        none()
    }

    /// The last decoding-order number seen.
    pub fn last_donl(&self) -> (r: Option<u16>)
        ensures
            r == self@.last_donl,
    {
        self.last_donl
    }

    fn reset(&mut self)
        ensures
            final(self)@ == (HevcState { unit: Seq::empty(), active: false, ..old(self)@ }),
    {
        self.fu_buffer = Vec::new();
        self.fu_active = false;
    }
}

// ---------------------------------------------------------------------------
// Either codec
// ---------------------------------------------------------------------------

/// The reassembly state of a stream.
pub enum DepacketizerState {
    H264(H264State),
    Hevc(HevcState),
}

impl DepacketizerState {
    /// Nothing in progress.
    pub open spec fn fresh(codec: Codec) -> DepacketizerState {
        match codec {
            Codec::H264 => DepacketizerState::H264(H264State { unit: Seq::empty(), nal_type: 0 }),
            Codec::Hevc => DepacketizerState::Hevc(
                HevcState { unit: Seq::empty(), active: false, last_donl: None },
            ),
        }
    }

    /// The state and the units after an RTP payload.
    pub open spec fn fed(self, payload: Seq<u8>) -> (DepacketizerState, Seq<Seq<u8>>) {
        match self {
            DepacketizerState::H264(s) => (
                DepacketizerState::H264(h264_fed(s, payload).0),
                h264_fed(s, payload).1,
            ),
            DepacketizerState::Hevc(s) => (
                DepacketizerState::Hevc(hevc_fed(s, payload).0),
                hevc_fed(s, payload).1,
            ),
        }
    }

    /// The state with any partial unit dropped.
    pub open spec fn reset(self) -> DepacketizerState {
        match self {
            DepacketizerState::H264(s) => DepacketizerState::H264(
                H264State { unit: Seq::empty(), nal_type: 0 },
            ),
            DepacketizerState::Hevc(s) => DepacketizerState::Hevc(
                HevcState { unit: Seq::empty(), active: false, ..s },
            ),
        }
    }

    /// The last decoding-order number, where the codec has them.
    pub open spec fn donl(self) -> Option<u16> {
        match self {
            DepacketizerState::H264(s) => None,
            DepacketizerState::Hevc(s) => s.last_donl,
        }
    }
}

/// Codec-specific RTP depayloader.
pub enum Depacketizer {
    H264(H264Depacketizer),
    Hevc(HevcDepacketizer),
}

impl View for Depacketizer {
    type V = DepacketizerState;

    open spec fn view(&self) -> DepacketizerState {
        match self {
            Depacketizer::H264(d) => DepacketizerState::H264(d@),
            Depacketizer::Hevc(d) => DepacketizerState::Hevc(d@),
        }
    }
}

impl Depacketizer {
    /// A depayloader for `codec`.
    pub fn for_codec(codec: Codec) -> (r: Depacketizer)
        ensures
            r@ == DepacketizerState::fresh(codec),
    {
        match codec {
            Codec::H264 => Depacketizer::H264(H264Depacketizer::new()),
            Codec::Hevc => Depacketizer::Hevc(HevcDepacketizer::new()),
        }
    }

    /// Takes one RTP payload and returns the NAL units it completes.
    pub fn feed(&mut self, payload: &[u8]) -> (out: Vec<Vec<u8>>)
        ensures
            (final(self)@, contents(out@)) == old(self)@.fed(payload@),
    {
        match self {
            Depacketizer::H264(d) => d.feed(payload),
            Depacketizer::Hevc(d) => d.feed(payload),
        }
    }

    /// Drops any partially reassembled unit. Called on a sequence gap:
    /// fragments of the interrupted unit must not bleed into the next one.
    pub fn reset_stream(&mut self)
        ensures
            final(self)@ == old(self)@.reset(),
    {
        match self {
            Depacketizer::H264(d) => d.reset(),
            Depacketizer::Hevc(d) => d.reset(),
        }
    }

    /// The last decoding-order number, where the codec has them.
    pub fn last_donl(&self) -> (r: Option<u16>)
        ensures
            r == self@.donl(),
    {
        match self {
            Depacketizer::H264(d) => None,
            Depacketizer::Hevc(d) => d.last_donl(),
        }
    }
}

// ---------------------------------------------------------------------------
// Fragmented units come out whole
// ---------------------------------------------------------------------------

/// The concatenation of `frags`.
pub open spec fn joined(frags: Seq<Seq<u8>>) -> Seq<u8>
    decreases frags.len(),
{
    if frags.len() == 0 {
        Seq::empty()
    } else {
        joined(frags.drop_last()) + frags.last()
    }
}

/// An H.264 fragment of a unit of type `nal_type`, which is neither the first
/// nor the last.
pub open spec fn h264_middle(indicator: u8, nal_type: u8, frag: Seq<u8>) -> Seq<u8> {
    seq![indicator, nal_type] + frag
}

/// The state after the middle fragments `frags`, and the units that came out on
/// the way.
pub open spec fn h264_middles(
    s: H264State,
    indicator: u8,
    nal_type: u8,
    frags: Seq<Seq<u8>>,
) -> (H264State, Seq<Seq<u8>>)
    decreases frags.len(),
{
    if frags.len() == 0 {
        (s, Seq::empty())
    } else {
        let (before, units) = h264_middles(s, indicator, nal_type, frags.drop_last());
        let (after, more) = h264_fed(before, h264_middle(indicator, nal_type, frags.last()));
        (after, units + more)
    }
}

proof fn lemma_h264_middles(
    s: H264State,
    indicator: u8,
    nal_type: u8,
    frags: Seq<Seq<u8>>,
)
    requires
        indicator % 32 == 28,
        nal_type < 32,
        s.unit.len() > 0,
        s.nal_type == nal_type,
    ensures
        h264_middles(s, indicator, nal_type, frags) == (
            H264State { unit: s.unit + joined(frags), nal_type },
            Seq::<Seq<u8>>::empty(),
        ),
    decreases frags.len(),
{
    if frags.len() == 0 {
        assert(s.unit + joined(frags) =~= s.unit);
    } else {
        lemma_h264_middles(s, indicator, nal_type, frags.drop_last());
        let p = h264_middle(indicator, nal_type, frags.last());
        assert(p[0] == indicator && p[1] == nal_type);
        assert(p.subrange(2, p.len() as int) =~= frags.last());
        assert(s.unit + joined(frags) =~= s.unit + joined(frags.drop_last()) + frags.last());
    }
}

/// An H.264 unit sent as a start fragment, any number of middle fragments and
/// an end fragment is reassembled: its header, then all fragments in order. No
/// unit comes out before the end, and nothing is left over.
pub proof fn lemma_h264_fragments_rejoin(
    s: H264State,
    indicator: u8,
    nal_type: u8,
    first: Seq<u8>,
    frags: Seq<Seq<u8>>,
    last: Seq<u8>,
)
    requires
        indicator % 32 == 28,
        nal_type < 32,
    ensures
        ({
            let header = (indicator / 32 % 4 * 32 + nal_type) as u8;
            let start = h264_fed(s, seq![indicator, (128 + nal_type) as u8] + first);
            let middle = h264_middles(start.0, indicator, nal_type, frags);
            let end = h264_fed(middle.0, seq![indicator, (64 + nal_type) as u8] + last);
            &&& start.1 == Seq::<Seq<u8>>::empty()
            &&& middle.1 == Seq::<Seq<u8>>::empty()
            &&& end.1 == seq![seq![header] + first + joined(frags) + last]
            &&& end.0.unit == Seq::<u8>::empty()
        }),
{
    let header = (indicator / 32 % 4 * 32 + nal_type) as u8;
    let p = seq![indicator, (128 + nal_type) as u8] + first;
    assert(p.subrange(2, p.len() as int) =~= first);
    assert(p[1] == 128 + nal_type);
    let start = h264_fed(s, p);
    assert(start.0.unit == seq![header] + first);
    lemma_h264_middles(start.0, indicator, nal_type, frags);
    let q = seq![indicator, (64 + nal_type) as u8] + last;
    assert(q.subrange(2, q.len() as int) =~= last);
    assert(q[1] == 64 + nal_type);
}

/// An HEVC fragment, which is neither the first nor the last.
pub open spec fn hevc_middle(h0: u8, h1: u8, nal_type: u8, donl: u16, frag: Seq<u8>) -> Seq<u8> {
    seq![h0, h1, nal_type] + crate::wire::be16(donl) + frag
}

/// The state after the middle fragments `frags`, and the units that came out on
/// the way.
pub open spec fn hevc_middles(
    s: HevcState,
    h0: u8,
    h1: u8,
    nal_type: u8,
    donl: u16,
    frags: Seq<Seq<u8>>,
) -> (HevcState, Seq<Seq<u8>>)
    decreases frags.len(),
{
    if frags.len() == 0 {
        (s, Seq::empty())
    } else {
        let (before, units) = hevc_middles(s, h0, h1, nal_type, donl, frags.drop_last());
        let (after, more) = hevc_fed(before, hevc_middle(h0, h1, nal_type, donl, frags.last()));
        (after, units + more)
    }
}

proof fn lemma_hevc_middles(
    s: HevcState,
    h0: u8,
    h1: u8,
    nal_type: u8,
    donl: u16,
    frags: Seq<Seq<u8>>,
)
    requires
        h0 / 2 % 64 == 49,
        nal_type < 64,
        s.active,
        forall|i: int| 0 <= i < frags.len() ==> (#[trigger] frags[i]).len() > 0,
    ensures
        hevc_middles(s, h0, h1, nal_type, donl, frags) == (
            (HevcState { unit: s.unit + joined(frags), ..s }),
            Seq::<Seq<u8>>::empty(),
        ),
    decreases frags.len(),
{
    if frags.len() == 0 {
        assert(s.unit + joined(frags) =~= s.unit);
    } else {
        lemma_hevc_middles(s, h0, h1, nal_type, donl, frags.drop_last());
        let frag = frags[frags.len() - 1];
        let p = hevc_middle(h0, h1, nal_type, donl, frag);
        assert(p[0] == h0 && p[2] == nal_type);
        assert(p.subrange(5, p.len() as int) =~= frag);
        assert(s.unit + joined(frags) =~= s.unit + joined(frags.drop_last()) + frag);
    }
}

/// An HEVC unit sent in non-empty fragments is reassembled: the two header
/// bytes, then all fragments in order, without the decoding-order numbers. No
/// unit comes out before the end, and the number of the start fragment is
/// remembered.
pub proof fn lemma_hevc_fragments_rejoin(
    s: HevcState,
    h0: u8,
    h1: u8,
    nal_type: u8,
    donl: u16,
    first: Seq<u8>,
    frags: Seq<Seq<u8>>,
    last: Seq<u8>,
)
    requires
        h0 / 2 % 64 == 49,
        nal_type < 64,
        first.len() > 0,
        last.len() > 0,
        forall|i: int| 0 <= i < frags.len() ==> (#[trigger] frags[i]).len() > 0,
    ensures
        ({
            let header = (h0 / 128 * 128 + h0 % 2 + nal_type * 2) as u8;
            let tail = crate::wire::be16(donl);
            let start = hevc_fed(s, seq![h0, h1, (128 + nal_type) as u8] + tail + first);
            let middle = hevc_middles(start.0, h0, h1, nal_type, donl, frags);
            let end = hevc_fed(middle.0, seq![h0, h1, (64 + nal_type) as u8] + tail + last);
            &&& start.1 == Seq::<Seq<u8>>::empty()
            &&& middle.1 == Seq::<Seq<u8>>::empty()
            &&& end.1 == seq![seq![header, h1] + first + joined(frags) + last]
            &&& !end.0.active
            &&& end.0.last_donl == Some(donl)
        }),
{
    let header = (h0 / 128 * 128 + h0 % 2 + nal_type * 2) as u8;
    let tail = crate::wire::be16(donl);
    crate::wire::lemma_be16_round_trip(donl);
    let p = seq![h0, h1, (128 + nal_type) as u8] + tail + first;
    assert(p.subrange(5, p.len() as int) =~= first);
    assert(p[0] == h0 && p[1] == h1 && p[2] == 128 + nal_type);
    assert(p[3] == tail[0] && p[4] == tail[1]);
    let start = hevc_fed(s, p);
    lemma_hevc_middles(start.0, h0, h1, nal_type, donl, frags);
    let q = seq![h0, h1, (64 + nal_type) as u8] + tail + last;
    assert(q.subrange(5, q.len() as int) =~= last);
    assert(q[0] == h0 && q[2] == 64 + nal_type);
}

/// After a reset, fragments that do not start a unit yield nothing: what was
/// interrupted does not bleed into later packets.
pub proof fn lemma_reset_drops_the_partial_unit(s: DepacketizerState, payload: Seq<u8>)
    requires
        payload.len() >= 6,
        match s {
            DepacketizerState::H264(h) => payload[0] % 32 == 28 && payload[1] < 128,
            DepacketizerState::Hevc(h) => payload[0] / 2 % 64 == 49 && payload[2] < 128,
        },
    ensures
        s.reset().fed(payload).1 == Seq::<Seq<u8>>::empty(),
        s.reset().fed(payload).0 == s.reset(),
{
}

/// Units as an aggregation packet holds them: each behind its length.
pub open spec fn units_written(units: Seq<Seq<u8>>) -> Seq<u8>
    decreases units.len(),
{
    if units.len() == 0 {
        Seq::empty()
    } else {
        seq![(units[0].len() / 256) as u8, (units[0].len() % 256) as u8] + (units[0]
            + units_written(units.drop_first()))
    }
}

#[verifier::spinoff_prover]
proof fn lemma_units_read_back(payload: Seq<u8>, pos: int, units: Seq<Seq<u8>>)
    requires
        forall|i: int| 0 <= i < units.len() ==> (#[trigger] units[i]).len() <= 0xffff,
        holds(payload, pos, units_written(units)),
        payload.len() == pos + units_written(units).len(),
    ensures
        aggregated(payload, pos) == units,
    decreases units.len(),
{
    if units.len() == 0 {
        assert(aggregated(payload, pos) =~= units);
    } else {
        let unit = units[0];
        let rest = units.drop_first();
        let head = seq![(unit.len() / 256) as u8, (unit.len() % 256) as u8];
        lemma_holds_both(payload, pos, head, unit + units_written(rest));
        lemma_holds_both(payload, pos + 2, unit, units_written(rest));
        assert(payload[pos + 0] == head[0] && payload[pos + 1] == head[1]);
        assert(u16_of(payload, pos) == unit.len());
        let end = pos + 2 + unit.len();
        assert(payload.subrange(pos + 2, end) =~= unit);
        assert forall|i: int| 0 <= i < rest.len() implies (#[trigger] rest[i]).len() <= 0xffff by {
            assert(rest[i] == units[i + 1]);
        }
        lemma_units_read_back(payload, end, rest);
        assert(seq![unit] + rest =~= units);
    }
}

/// The units of an H.264 aggregation packet come out in their order, a payload
/// that is neither an aggregate nor a fragment is a unit as it stands, and
/// neither disturbs a unit that is being put together.
pub proof fn lemma_h264_units_come_out(s: H264State, head: u8, units: Seq<Seq<u8>>, unit: Seq<u8>)
    requires
        head % 32 == 24,
        forall|i: int| 0 <= i < units.len() ==> (#[trigger] units[i]).len() <= 0xffff,
        unit.len() > 0,
        unit[0] % 32 != 24,
        unit[0] % 32 != 28,
    ensures
        h264_fed(s, seq![head] + units_written(units)) == (s, units),
        h264_fed(s, unit) == (s, seq![unit]),
{
    let payload = seq![head] + units_written(units);
    assert(payload[0] == head);
    lemma_units_read_back(payload, 1, units);
}

/// The units of an HEVC aggregation packet come out in their order, and a
/// payload that is neither an aggregate nor a fragment is a unit without the
/// number behind its header; that number is kept as the last one seen.
pub proof fn lemma_hevc_units_come_out(
    s: HevcState,
    h0: u8,
    h1: u8,
    donl: u16,
    units: Seq<Seq<u8>>,
    k0: u8,
    body: Seq<u8>,
)
    requires
        h0 / 2 % 64 == 48,
        forall|i: int| 0 <= i < units.len() ==> (#[trigger] units[i]).len() <= 0xffff,
        k0 / 2 % 64 < 48,
    ensures
        ({
            let number = seq![(donl / 256) as u8, (donl % 256) as u8];
            let noted = HevcState { last_donl: Some(donl), ..s };
            &&& hevc_fed(s, seq![h0, h1] + number + units_written(units)) == (noted, units)
            &&& hevc_fed(s, seq![k0, h1] + number + body) == (noted, seq![seq![k0, h1] + body])
        }),
{
    let number = seq![(donl / 256) as u8, (donl % 256) as u8];
    let payload = seq![h0, h1] + number + units_written(units);
    assert(payload[0] == h0 && payload[2] == number[0] && payload[3] == number[1]);
    assert(u16_of(payload, 2) == donl);
    lemma_units_read_back(payload, 4, units);
    let single = seq![k0, h1] + number + body;
    assert(single[0] == k0 && single[2] == number[0] && single[3] == number[1]);
    assert(u16_of(single, 2) == donl);
    assert(single.subrange(0, 2) + single.subrange(4, single.len() as int) =~= seq![k0, h1] + body);
}

} // verus!
