//! How the bytes of a session are cut up on arrival does not matter.

use vstd::prelude::*;

use super::apple_rects::apple_body;
use super::rects::{
    body_outcome, chunk_body, copy_body, cursor_body, fence_body, h264_body,
    hextile_body, name_body, outcome_with, raw_body, screens_body, tight_body, StreamCalls,
};
use super::{outcome, Scene};
use crate::encodings::{encoding_of, Encoding};
use crate::hextile;
use crate::messages::{RectHeader, RECT_HEADER_LEN};
use crate::pixel_format::PixelFormat;
use crate::raster::{blank, ccolour_of, tile_at, tile_count, Tile};
use crate::rre::rre_decoded;
use crate::tight::tight_read;
use crate::trle::{palette_runs, plain_runs, run_from, tile_read, TileRead, Walk};

verus! {

/// Whether `z` starts with `s`.
pub open spec fn starts_with(z: Seq<u8>, s: Seq<u8>) -> bool {
    s.len() <= z.len() && z.take(s.len() as int) == s
}

pub(crate) proof fn lemma_parts(s: Seq<u8>, z: Seq<u8>)
    requires
        starts_with(z, s),
    ensures
        forall|i: int| 0 <= i < s.len() ==> #[trigger] z[i] == s[i],
        forall|a: int, b: int|
            0 <= a <= b <= s.len() ==> #[trigger] z.subrange(a, b) == s.subrange(a, b),
        forall|n: int| 0 <= n <= s.len() ==> starts_with(#[trigger] z.skip(n), s.skip(n)),
{
    assert forall|i: int| 0 <= i < s.len() implies #[trigger] z[i] == s[i] by {
        assert(z.take(s.len() as int)[i] == s[i]);
    }
    assert forall|a: int, b: int| 0 <= a <= b <= s.len() implies #[trigger] z.subrange(a, b)
        == s.subrange(a, b) by {
        assert(z.subrange(a, b) =~= s.subrange(a, b));
    }
    assert forall|n: int| 0 <= n <= s.len() implies starts_with(#[trigger] z.skip(n), s.skip(n)) by {
        assert(z.skip(n).take(s.len() - n) =~= s.skip(n));
    }
}

proof fn lemma_rre(s: Seq<u8>, z: Seq<u8>, w: nat, h: nat, f: PixelFormat)
    requires
        starts_with(z, s),
        !(rre_decoded(s, w, h, f) is Incomplete),
    ensures
        rre_decoded(z, w, h, f) == rre_decoded(s, w, h, f),
{
    lemma_parts(s, z);
    let len = f.pixel_len();
    let n = crate::wire::u32_of(s, 0) as nat;
    assert(n * (len + 8) >= 0) by (nonlinear_arith)
        requires
            n >= 0,
            len >= 0,
    ;
}

proof fn lemma_tile_step(
    s: Seq<u8>,
    z: Seq<u8>,
    stride: int,
    tile: Tile,
    f: PixelFormat,
    p: hextile::Progress,
)
    requires
        starts_with(z, s),
        p.pos >= 0,
        hextile::tile_step(s, stride, tile, f, p) is Some,
    ensures
        hextile::tile_step(z, stride, tile, f, p) == hextile::tile_step(s, stride, tile, f, p),
        hextile::tile_step(s, stride, tile, f, p).unwrap().pos >= 0,
{
    lemma_parts(s, z);
    let len = f.pixel_len() as int;
    let area = tile.width * tile.height;
    assert(area >= 0 && area * len >= 0) by (nonlinear_arith)
        requires
            area == tile.width * tile.height,
            len >= 0,
    ;
    let flags = s[p.pos];
    let b = if flags & hextile::BACKGROUND_SPECIFIED != 0 {
        p.pos + 1 + len
    } else {
        p.pos + 1
    };
    let c = if flags & hextile::FOREGROUND_SPECIFIED != 0 {
        b + len
    } else {
        b
    };
    let count = s[c];
    assert(count * (len + 2) >= 0) by (nonlinear_arith)
        requires
            count >= 0,
            len >= 0,
    ;
}

proof fn lemma_hextile_tiles(
    s: Seq<u8>,
    z: Seq<u8>,
    w: nat,
    h: nat,
    f: PixelFormat,
    c: hextile::HextileState,
    t: nat,
)
    requires
        starts_with(z, s),
        hextile::after_tiles(s, w, h, f, c, t) is Some,
    ensures
        hextile::after_tiles(z, w, h, f, c, t) == hextile::after_tiles(s, w, h, f, c, t),
        hextile::after_tiles(s, w, h, f, c, t).unwrap().pos >= 0,
    decreases t,
{
    if t > 0 {
        lemma_hextile_tiles(s, z, w, h, f, c, (t - 1) as nat);
        let p = hextile::after_tiles(s, w, h, f, c, (t - 1) as nat).unwrap();
        let tile = tile_at(w, h, hextile::TILE_SIZE as nat, (t - 1) as nat);
        lemma_tile_step(s, z, w as int, tile, f, p);
    }
}

proof fn lemma_run(s: Seq<u8>, z: Seq<u8>, pos: int)
    requires
        starts_with(z, s),
        run_from(s, pos) is Some,
    ensures
        run_from(z, pos) == run_from(s, pos),
        run_from(s, pos).unwrap().1 >= 0,
    decreases s.len() - pos,
{
    lemma_parts(s, z);
    if s[pos] == 255 {
        lemma_run(s, z, pos + 1);
    }
}

proof fn lemma_plain_runs(s: Seq<u8>, z: Seq<u8>, pos: int, f: PixelFormat, n: nat, done: Seq<u32>)
    requires
        starts_with(z, s),
        pos >= 0,
        done.len() <= n,
        !(plain_runs(s, pos, f, n, done) is Short),
    ensures
        plain_runs(z, pos, f, n, done) == plain_runs(s, pos, f, n, done),
        plain_runs(s, pos, f, n, done) matches TileRead::Done { pos: end, .. } ==> end >= 0,
    decreases n - done.len(),
{
    lemma_parts(s, z);
    let len = f.cpixel_len();
    if done.len() < n {
        lemma_run(s, z, pos + len);
        let (run, end) = run_from(s, pos + len).unwrap();
        if run <= n - done.len() {
            let more = blank(run, ccolour_of(f, s.subrange(pos, pos + len)));
            lemma_plain_runs(s, z, end, f, n, done + more);
        }
    }
}

proof fn lemma_palette_runs(
    s: Seq<u8>,
    z: Seq<u8>,
    pos: int,
    palette: Seq<u32>,
    n: nat,
    done: Seq<u32>,
)
    requires
        starts_with(z, s),
        pos >= 0,
        done.len() <= n,
        !(palette_runs(s, pos, palette, n, done) is Short),
    ensures
        palette_runs(z, pos, palette, n, done) == palette_runs(s, pos, palette, n, done),
        palette_runs(s, pos, palette, n, done) matches TileRead::Done { pos: end, .. } ==> end >= 0,
    decreases n - done.len(),
{
    lemma_parts(s, z);
    if done.len() < n && s[pos] % 128 < palette.len() {
        if s[pos] < 128 {
            lemma_palette_runs(s, z, pos + 1, palette, n, done.push(palette[s[pos] as int]));
        } else {
            lemma_run(s, z, pos + 1);
            let (run, end) = run_from(s, pos + 1).unwrap();
            if run <= n - done.len() {
                let more = blank(run, palette[(s[pos] % 128) as int]);
                lemma_palette_runs(s, z, end, palette, n, done + more);
            }
        }
    }
}

proof fn lemma_tile(s: Seq<u8>, z: Seq<u8>, pos: int, w: int, h: int, f: PixelFormat)
    requires
        starts_with(z, s),
        pos >= 0,
        w >= 0,
        h >= 0,
        !(tile_read(s, pos, w, h, f) is Short),
    ensures
        tile_read(z, pos, w, h, f) == tile_read(s, pos, w, h, f),
        tile_read(s, pos, w, h, f) matches TileRead::Done { pos: end, .. } ==> end >= 0,
{
    lemma_parts(s, z);
    let len = f.cpixel_len() as int;
    let n = (w * h) as nat;
    let kind = s[pos];
    let a = pos + 1;
    assert(w * h >= 0) by (nonlinear_arith)
        requires
            w >= 0,
            h >= 0,
    ;
    assert(n * len >= 0) by (nonlinear_arith)
        requires
            n >= 0,
            len >= 0,
    ;
    assert(kind * len >= 0) by (nonlinear_arith)
        requires
            kind >= 0,
            len >= 0,
    ;
    if 1 < kind <= 16 {
        let row = crate::trle::packed_row(w, crate::trle::index_bits(kind as int));
        assert(row >= 0) by {
            assert(w * crate::trle::index_bits(kind as int) >= 0) by (nonlinear_arith)
                requires
                    w >= 0,
                    crate::trle::index_bits(kind as int) >= 0,
            ;
        }
        assert(row * h >= 0) by (nonlinear_arith)
            requires
                row >= 0,
                h >= 0,
        ;
    } else if kind == 128 {
        lemma_plain_runs(s, z, a, f, n, Seq::empty());
    } else if kind > 128 {
        let size = (kind - 128) as nat;
        assert(size * len >= 0) by (nonlinear_arith)
            requires
                size >= 0,
                len >= 0,
        ;
        let palette = crate::trle::palette_at(s, a, size, f);
        lemma_palette_runs(s, z, a + size * len, palette, n, Seq::empty());
    }
}

proof fn lemma_trle_tiles(s: Seq<u8>, z: Seq<u8>, w: nat, h: nat, f: PixelFormat, t: nat)
    requires
        starts_with(z, s),
        !(crate::trle::after_tiles(s, w, h, f, t) is Short),
    ensures
        crate::trle::after_tiles(z, w, h, f, t) == crate::trle::after_tiles(s, w, h, f, t),
        crate::trle::after_tiles(s, w, h, f, t) matches Walk::At { pos, .. } ==> pos >= 0,
    decreases t,
{
    if t > 0 {
        lemma_trle_tiles(s, z, w, h, f, (t - 1) as nat);
        if let Walk::At { raster, pos } = crate::trle::after_tiles(s, w, h, f, (t - 1) as nat) {
            let tile = tile_at(w, h, crate::trle::TILE_SIZE as nat, (t - 1) as nat);
            lemma_tile(s, z, pos, tile.width as int, tile.height as int, f);
        }
    }
}

proof fn lemma_tight(s: Seq<u8>, z: Seq<u8>, w: nat, h: nat, f: PixelFormat)
    requires
        starts_with(z, s),
        !(tight_read(s, w, h, f) is Short),
    ensures
        tight_read(z, w, h, f) == tight_read(s, w, h, f),
{
    lemma_parts(s, z);
    let len = f.cpixel_len() as int;
    let size = s[2];
    assert((size + 1) * len >= 0) by (nonlinear_arith)
        requires
            size >= 0,
            len >= 0,
    ;
}

proof fn lemma_raw(s: Scene, h: RectHeader, b: Seq<u8>, z: Seq<u8>)
    requires
        starts_with(z, b),
        !(raw_body(s, h, b) is Short),
    ensures
        raw_body(s, h, z) == raw_body(s, h, b),
{
    lemma_parts(b, z);
    let n = h.width * h.height * s.format.pixel_len();
    assert(n >= 0) by (nonlinear_arith)
        requires
            n == h.width * h.height * s.format.pixel_len(),
            s.format.pixel_len() >= 0,
    ;
    assert(z.take(n) =~= b.take(n));
}

proof fn lemma_copy(s: Scene, h: RectHeader, b: Seq<u8>, z: Seq<u8>)
    requires
        starts_with(z, b),
        !(copy_body(s, h, b) is Short),
    ensures
        copy_body(s, h, z) == copy_body(s, h, b),
{
    lemma_parts(b, z);
}

proof fn lemma_hextile(s: Scene, h: RectHeader, b: Seq<u8>, z: Seq<u8>)
    requires
        starts_with(z, b),
        !(hextile_body(s, h, b) is Short),
    ensures
        hextile_body(s, h, z) == hextile_body(s, h, b),
{
    lemma_parts(b, z);
    let (w, t) = (h.width as nat, h.height as nat);
    let n = tile_count(w, t, hextile::TILE_SIZE as nat);
    lemma_hextile_tiles(b, z, w, t, s.format, s.hextile, n);
}

proof fn lemma_chunk(s: Scene, b: Seq<u8>, z: Seq<u8>, tiles: bool)
    requires
        starts_with(z, b),
        !(chunk_body(s, b, tiles) is Short),
    ensures
        chunk_body(s, z, tiles) == chunk_body(s, b, tiles),
{
    lemma_parts(b, z);
}

proof fn lemma_tight_body(s: Scene, h: RectHeader, b: Seq<u8>, z: Seq<u8>)
    requires
        starts_with(z, b),
        !(tight_body(s, h, b) is Short),
    ensures
        tight_body(s, h, z) == tight_body(s, h, b),
{
    lemma_parts(b, z);
    lemma_tight(b, z, h.width as nat, h.height as nat, s.format);
}

proof fn lemma_h264(s: Scene, h: RectHeader, b: Seq<u8>, z: Seq<u8>)
    requires
        starts_with(z, b),
        !(h264_body(s, h, b) is Short),
    ensures
        h264_body(s, h, z) == h264_body(s, h, b),
{
    lemma_parts(b, z);
}

proof fn lemma_cursor(s: Scene, h: RectHeader, b: Seq<u8>, z: Seq<u8>)
    requires
        starts_with(z, b),
        !(cursor_body(s, h, b) is Short),
    ensures
        cursor_body(s, h, z) == cursor_body(s, h, b),
{
    lemma_parts(b, z);
    let n = crate::cursor::shape_len(h.width as nat, h.height as nat, s.format);
    assert(z.take(n as int) =~= b.take(n as int));
}

proof fn lemma_name(s: Scene, b: Seq<u8>, z: Seq<u8>)
    requires
        starts_with(z, b),
        !(name_body(s, b) is Short),
    ensures
        name_body(s, z) == name_body(s, b),
{
    lemma_parts(b, z);
}

proof fn lemma_screens(s: Scene, h: RectHeader, b: Seq<u8>, z: Seq<u8>)
    requires
        starts_with(z, b),
        !(screens_body(s, h, b) is Short),
    ensures
        screens_body(s, h, z) == screens_body(s, h, b),
{
    lemma_parts(b, z);
    assert(crate::messages::screen_list(z) =~= crate::messages::screen_list(b));
}

proof fn lemma_fence(s: Scene, b: Seq<u8>, z: Seq<u8>)
    requires
        starts_with(z, b),
        !(fence_body(s, b) is Short),
    ensures
        fence_body(s, z) == fence_body(s, b),
{
    lemma_parts(b, z);
}

proof fn lemma_body(s: Scene, h: RectHeader, b: Seq<u8>, z: Seq<u8>, ends: Seq<usize>)
    requires
        starts_with(z, b),
        !(body_outcome(s, h, b, ends) is Short),
    ensures
        body_outcome(s, h, z, ends) == body_outcome(s, h, b, ends),
{
    let (w, t) = (h.width as nat, h.height as nat);
    match encoding_of(h.encoding) {
        Some(Encoding::Raw) => lemma_raw(s, h, b, z),
        Some(Encoding::CopyRect) => lemma_copy(s, h, b, z),
        Some(Encoding::Rre) => lemma_rre(b, z, w, t, s.format),
        Some(Encoding::Hextile) => lemma_hextile(s, h, b, z),
        Some(Encoding::Zlib) => lemma_chunk(s, b, z, false),
        Some(Encoding::Tight) => lemma_tight_body(s, h, b, z),
        Some(Encoding::Trle) => {
            let n = tile_count(w, t, crate::trle::TILE_SIZE as nat);
            lemma_trle_tiles(b, z, w, t, s.format, n);
        },
        Some(Encoding::Zrle) => lemma_chunk(s, b, z, true),
        Some(Encoding::OpenH264) => lemma_h264(s, h, b, z),
        Some(Encoding::Cursor) => lemma_cursor(s, h, b, z),
        Some(Encoding::DesktopName) => lemma_name(s, b, z),
        Some(Encoding::ExtendedDesktopSize) => lemma_screens(s, h, b, z),
        Some(Encoding::Fence) => lemma_fence(s, b, z),
        Some(Encoding::AppleHp(value)) => lemma_apple(s, h, value, b, z, ends),
        _ => {},
    }
}

proof fn lemma_apple(
    s: Scene,
    h: RectHeader,
    value: i32,
    b: Seq<u8>,
    z: Seq<u8>,
    ends: Seq<usize>,
)
    requires
        starts_with(z, b),
        !(apple_body(s, h, value, b, ends) is Short),
    ensures
        apple_body(s, h, value, z, ends) == apple_body(s, h, value, b, ends),
{
    lemma_parts(b, z);
    assert forall|n: int| 0 <= n <= b.len() implies #[trigger] z.take(n) == b.take(n) by {
        assert(z.subrange(0, n) == b.subrange(0, n));
    }
    super::invariants::lemma_record_end(ends, 12, 0);
}

/// Once the bytes received say what comes next, more bytes behind them do
/// not change it. The session is the same however its bytes are cut up.
pub proof fn lemma_more_input_changes_nothing(
    s: Scene,
    input: Seq<u8>,
    more: Seq<u8>,
    ends: Seq<usize>,
)
    requires
        !(outcome(s, input, ends) is Short),
    ensures
        outcome(s, input + more, ends) == outcome(s, input, ends),
{
    let z = input + more;
    assert(z.take(input.len() as int) =~= input);
    lemma_parts(input, z);
    if s.pending > 0 {
        let h = RectHeader::read(input);
        let n = RECT_HEADER_LEN as int;
        assert(RectHeader::read(z) == h);
        if crate::messages::size_ok(h.width as u32, h.height as u32) {
            lemma_body(s.rect_opened(h), h, input.skip(n), z.skip(n), ends);
        }
    }
}

/// With the zlib streams of the session at hand, too, more bytes do not change
/// what the bytes received come to.
pub proof fn lemma_more_input_changes_nothing_inflated(
    s: Scene,
    input: Seq<u8>,
    more: Seq<u8>,
    ends: Seq<usize>,
    t: StreamCalls,
)
    requires
        !(outcome_with(s, input, ends, t) is Short),
    ensures
        outcome_with(s, input + more, ends, t) == outcome_with(s, input, ends, t),
{
    lemma_more_input_changes_nothing(s, input, more, ends);
}

} // verus!
