//! How packets become strips, and strips the picture.

use vstd::prelude::*;

use super::canvas::lemma_strip_fills_its_rows;
use super::receiver::{
    next_u64, start_code_at, unit_kinds_from, Effect, ReceiverState, UnitKinds, WallClock,
};
use super::tiles::{GroupState, StreamState};
use crate::decoder::Codec;

verus! {

proof fn lemma_tile_found(s: ReceiverState, t: int, i: int)
    requires
        0 <= i <= t < s.group.tiles.len(),
        s.group.tiles.no_duplicates(),
    ensures
        s.tile_from(s.group.tiles[t], i) == Some(t),
    decreases t - i,
{
    if i < t {
        lemma_tile_found(s, t, i + 1);
    }
}

proof fn lemma_tile_missing(s: ReceiverState, ssrc: u32, i: int)
    requires
        0 <= i,
        !s.group.tiles.contains(ssrc),
    ensures
        s.tile_from(ssrc, i) is None,
    decreases s.group.tiles.len() - i,
{
    if i < s.group.tiles.len() {
        lemma_tile_missing(s, ssrc, i + 1);
    }
}

/// A decoded strip whose access unit came from the tile source number `t` fills
/// the rows from `t` times its height on, as far as the canvas reaches, and
/// leaves the other rows of a canvas of that size alone.
#[verifier::spinoff_prover]
pub proof fn lemma_strip_goes_to_its_tile(
    s: ReceiverState,
    pts: u64,
    t: int,
    donl: Option<u16>,
    w: u16,
    h: u16,
    rgba: Seq<u8>,
    height: int,
    now: u64,
)
    requires
        0 <= t < s.group.tiles.len() <= 4,
        s.group.tiles.no_duplicates(),
        s.au_tags.contains_key(pts),
        s.au_tags[pts] == (s.group.tiles[t], donl),
        w > 0,
        h > 0,
        rgba.len() >= w * h * 4,
        h <= s.canvas.configured.1 <= h * s.group.tiles.len() ==> height == s.canvas.configured.1,
        !(h <= s.canvas.configured.1 <= h * s.group.tiles.len()) ==> height == h
            * s.group.tiles.len(),
        w * height * 4 <= usize::MAX,
    ensures
        ({
            let after = s.decoded(pts, rgba, Some((w, h)), now).0.canvas;
            let row = w * 4;
            let same = s.canvas.width == w && s.canvas.height == height && s.canvas.pixels.len()
                == height * row;
            &&& after.width == w
            &&& after.height == height
            &&& after.pixels.len() == height * row
            &&& forall|r: int, b: int|
                0 <= r < h && t * h + r < height && 0 <= b < row ==> #[trigger] after.pixels[(t * h
                    + r) * row + b] == rgba[r * row + b]
            &&& forall|y: int, b: int|
                0 <= y < height && !(t * h <= y < t * h + h) && 0 <= b < row
                    ==> #[trigger] after.pixels[y * row + b] == if same {
                    s.canvas.pixels[y * row + b]
                } else {
                    0
                }
        }),
{
    lemma_tile_found(s, t, 0);
    lemma_strip_fills_its_rows(
        s.canvas,
        t,
        s.group.tiles.len() as int,
        w,
        h,
        rgba,
        height,
    );
}

/// A picture under a tag that is not known, or of a source that is no tile, is
/// not drawn and not acknowledged.
pub proof fn lemma_stray_picture_is_not_drawn(
    s: ReceiverState,
    pts: u64,
    rgba: Seq<u8>,
    size: Option<(u16, u16)>,
    now: u64,
)
    requires
        s.au_tags.contains_key(pts) ==> !s.group.tiles.contains(s.au_tags[pts].0),
    ensures
        s.decoded(pts, rgba, size, now).0.canvas == s.canvas,
        s.decoded(pts, rgba, size, now).0.group == s.group,
        s.decoded(pts, rgba, size, now).1.len() == 0,
{
    if s.au_tags.contains_key(pts) {
        lemma_tile_missing(s, s.au_tags[pts].0, 0);
    }
}

/// An access unit that is complete goes to the decoder as it is, under a tag
/// that leads back to the source it came from; other tags keep their meaning,
/// as long as there are not too many.
#[verifier::spinoff_prover]
pub proof fn lemma_unit_is_tagged_with_its_source(
    s: ReceiverState,
    au: Seq<u8>,
    ssrc: u32,
    donl: Option<u16>,
    other: u64,
)
    requires
        s.au_tags.dom().finite(),
        s.au_tags.dom().len() < 512,
    ensures
        ({
            let (after, effect) = s.with_unit(au, ssrc, donl);
            effect matches Effect::Decode(data, pts) && {
                &&& data == au
                &&& pts != s.p.au_counter
                &&& after.p.au_counter == pts
                &&& after.au_tags.contains_key(pts)
                &&& after.au_tags[pts] == (ssrc, donl)
                &&& other != pts && s.au_tags.contains_key(other) ==> after.au_tags.contains_key(
                    other,
                ) && after.au_tags[other] == s.au_tags[other]
            }
        }),
{
    let pts = next_u64(s.p.au_counter);
    assert(s.au_tags.insert(pts, (ssrc, donl)).dom() =~= s.au_tags.dom().insert(pts));
}

/// The first source that is heard becomes the first tile at once; others only
/// count until one has been heard three times.
#[verifier::spinoff_prover]
pub proof fn lemma_first_source_is_the_first_tile(codec: Codec, first: u32, other: u32, recent: bool)
    requires
        first != other,
    ensures
        ({
            let g = GroupState::fresh().noted(codec, first, recent).0;
            let once = g.noted(codec, other, recent).0;
            let twice = once.noted(codec, other, recent).0;
            &&& g.tiles == seq![first]
            &&& g.noted(codec, first, recent).0 == g
            &&& once.tiles == seq![first]
            &&& twice.tiles == seq![first]
        }),
{
    let g = GroupState::fresh().noted(codec, first, recent).0;
    assert(g.tiles == seq![first]);
    assert(g.tiles[0] == first);
    assert(!g.tiles.contains(other)) by {
        if g.tiles.contains(other) {
            let i = choose|i: int| 0 <= i < g.tiles.len() && g.tiles[i] == other;
            assert(i == 0);
        }
    }
    let once = g.noted(codec, other, recent).0;
    assert(once.candidates[other as u64] == 1);
    assert(once.tiles == g.tiles);
}

/// The numbers that are missing when a packet comes are those between it and the
/// one before it, in their order, where there are at most 63; a longer jump or a
/// step back is no loss.
#[verifier::spinoff_prover]
pub proof fn lemma_missing_numbers(s: StreamState, last: u16, seq: u16, x: u16)
    requires
        s.last_seq == Some(last),
    ensures
        ({
            let gap = (seq - last) % 0x1_0000;
            let lost = s.missing(seq);
            &&& lost.contains(x) <==> gap <= 64 && 0 < (x - last) % 0x1_0000 < gap
            &&& forall|i: int|
                0 <= i < lost.len() ==> (#[trigger] lost[i] - last) % 0x1_0000 == i + 1
        }),
{
    let gap = (seq - last) % 0x1_0000;
    let lost = s.missing(seq);
    let d = (x - last) % 0x1_0000;
    assert forall|i: int| 0 <= i < lost.len() implies (#[trigger] lost[i] - last) % 0x1_0000 == i
        + 1 by {
        assert(lost[i] == (last + 1 + i) % 0x1_0000);
    }
    if gap <= 64 && 0 < d < gap {
        assert(lost[d - 1] == (last + d) % 0x1_0000);
        assert(lost[d - 1] == x);
    }
}

/// Behind a gap, what there was of an access unit is dropped, so that the next
/// one holds nothing from before: the packet is taken as by a stream that has
/// nothing begun.
#[verifier::spinoff_prover]
pub proof fn lemma_gap_drops_the_unit(
    s: StreamState,
    last: u16,
    seq: u16,
    marker: bool,
    payload: Seq<u8>,
)
    requires
        s.last_seq == Some(last),
        s.au.len() > 0,
        (seq - last) % 0x1_0000 != 1,
    ensures
        ({
            let (depacketizer, units) = s.depacketizer.reset().fed(payload);
            let clean = StreamState {
                depacketizer: s.depacketizer.reset(),
                au: Seq::empty(),
                donl: None,
                last_seq: None,
            };
            &&& s.received(seq, marker, payload).0 == clean.received(seq, marker, payload).0
            &&& s.received(seq, marker, payload).1.completed == clean.received(
                seq,
                marker,
                payload,
            ).1.completed
        }),
{
}

/// One unit behind a start code is of the kind that its first byte says: in
/// H.264 the low five bits are 7 and 8 for parameter sets and 5 for a keyframe;
/// in HEVC the six bits from the second on are 32, 33 and 34, and 19 or 20.
#[verifier::spinoff_prover]
pub proof fn lemma_kind_of_a_unit(codec: Codec, first: u8, rest: Seq<u8>)
    requires
        forall|i: int| 0 <= i && i + 5 <= rest.len() ==> !#[trigger] start_code_at(rest, i),
    ensures
        ({
            let au = seq![0u8, 0u8, 0u8, 1u8, first] + rest;
            let k = unit_kinds_from(codec, au, 0, UnitKinds::nothing());
            match codec {
                Codec::H264 => {
                    let kind = first % 32;
                    !k.vps && k.sps == (kind == 7) && k.pps == (kind == 8) && k.idr == (kind == 5)
                },
                Codec::Hevc => {
                    let kind = first / 2 % 64;
                    k.vps == (kind == 32) && k.sps == (kind == 33) && k.pps == (kind == 34) && k.idr
                        == (kind == 19 || kind == 20)
                },
            }
        }),
{
    let au = seq![0u8, 0u8, 0u8, 1u8, first] + rest;
    let k = UnitKinds::nothing().with_unit(codec, first);
    assert(start_code_at(au, 0));
    assert(au[4] == first);
    lemma_no_more_units(codec, au, rest, 5, k);
}

proof fn lemma_no_more_units(codec: Codec, au: Seq<u8>, rest: Seq<u8>, i: int, k: UnitKinds)
    requires
        au.len() == rest.len() + 5,
        forall|j: int| 0 <= j < rest.len() ==> au[5 + j] == #[trigger] rest[j],
        forall|j: int| 0 <= j && j + 5 <= rest.len() ==> !#[trigger] start_code_at(rest, j),
        5 <= i,
    ensures
        unit_kinds_from(codec, au, i, k) == k,
    decreases au.len() - i,
{
    if i + 5 <= au.len() {
        let j = i - 5;
        assert(!start_code_at(rest, j));
        assert(au[5 + j] == rest[j] && au[5 + (j + 1)] == rest[j + 1] && au[5 + (j + 2)] == rest[j
            + 2] && au[5 + (j + 3)] == rest[j + 3]);
        lemma_no_more_units(codec, au, rest, i + 1, k);
    }
}

/// A round of reports is due half a second after the last; a round sends at
/// least the keepalive and the report, and a tick without one sends nothing
/// unless a keyframe was asked for and not yet requested.
pub proof fn lemma_reports_are_spaced(s: ReceiverState, now: u64, dlsr: u32, clock: WallClock)
    ensures
        now >= s.p.last_rtcp + 500_000_000 ==> s.ticked(now, dlsr, clock).1.len() >= 2 && s.ticked(
            now,
            dlsr,
            clock,
        ).0.p.last_rtcp == now,
        now < s.p.last_rtcp + 500_000_000 && !(s.p.fir_armed && s.p.fir_last_sent is None)
            ==> s.ticked(now, dlsr, clock) == (s, Seq::<Effect>::empty()),
{
    if now >= s.p.last_rtcp + 500_000_000 {
        lemma_round(s, now, dlsr, clock);
        let (s1, first) = s.periodic(now, dlsr, clock);
        lemma_request_keeps_the_time(s1, now);
    }
}

proof fn lemma_request_keeps_the_time(s: ReceiverState, now: u64)
    ensures
        s.requesting(now).0.p.last_rtcp == s.p.last_rtcp,
{
}

proof fn lemma_round(s: ReceiverState, now: u64, dlsr: u32, clock: WallClock)
    ensures
        s.periodic(now, dlsr, clock).1.len() >= 2,
        s.periodic(now, dlsr, clock).0.p.last_rtcp == now,
{
}

} // verus!
