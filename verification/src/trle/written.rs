//! Tiles as a server writes them, and how they are read back.

use vstd::arithmetic::power2::{lemma2_to64, pow2};
use vstd::prelude::*;

use super::{
    after_tiles, index_in, packed_index, palette_at, palette_runs, plain_runs, run_from, tile_read,
    tiles_decoded, TileRead, Walk,
};
use crate::pixel_format::PixelFormat;
use crate::raster::{
    blank, ccolour_of, lemma_place, lemma_place_in, lemma_tile_inside, tile_at, tile_count, Decoded,
};
use crate::wire::{holds, lemma_holds_both, lemma_joined, lemma_joined_part};

verus! {

/// A run of `length` pixels in the colour with the number `index`. One pixel can
/// be written in a single byte.
pub struct Run {
    pub index: int,
    pub length: nat,
    pub single: bool,
}

/// The length of a run: one less than it, as a sum of bytes of which all but the
/// last are 255.
pub open spec fn length_bytes(n: nat) -> Seq<u8>
    decreases n,
{
    if n > 255 {
        seq![255u8] + length_bytes((n - 255) as nat)
    } else {
        seq![(n - 1) as u8]
    }
}

/// A run of a palette colour.
pub open spec fn run_bytes(run: Run) -> Seq<u8> {
    if run.single {
        seq![run.index as u8]
    } else {
        seq![(run.index + 128) as u8] + length_bytes(run.length)
    }
}

/// Runs of palette colours, one after the other.
pub open spec fn runs_bytes(runs: Seq<Run>) -> Seq<u8>
    decreases runs.len(),
{
    if runs.len() == 0 {
        Seq::empty()
    } else {
        run_bytes(runs[0]) + runs_bytes(runs.drop_first())
    }
}

/// The pixels of runs: each colour as often as its run is long, in order.
pub open spec fn runs_shown(palette: Seq<u32>, runs: Seq<Run>) -> Seq<u32>
    decreases runs.len(),
{
    if runs.len() == 0 {
        Seq::empty()
    } else {
        Seq::new(runs[0].length, |i: int| palette[runs[0].index]) + runs_shown(
            palette,
            runs.drop_first(),
        )
    }
}

/// Whether runs can be written for a palette of `size` colours.
pub open spec fn runs_valid(runs: Seq<Run>, size: int) -> bool {
    forall|i: int|
        0 <= i < runs.len() ==> 0 <= (#[trigger] runs[i]).index < size && runs[i].length > 0 && (
        runs[i].single ==> runs[i].length == 1)
}

/// The length of a run reads back as written.
pub proof fn lemma_length_reads_back(s: Seq<u8>, pos: int, n: nat)
    requires
        n > 0,
        holds(s, pos, length_bytes(n)),
    ensures
        run_from(s, pos) == Some((n, pos + length_bytes(n).len())),
    decreases n,
{
    assert(s[pos] == length_bytes(n)[0]);
    if n > 255 {
        lemma_holds_both(s, pos, seq![255u8], length_bytes((n - 255) as nat));
        lemma_length_reads_back(s, pos + 1, (n - 255) as nat);
    }
}

/// Runs of palette colours read back as written: each run is its colour of the
/// palette, as often as the run is long, in order.
#[verifier::spinoff_prover]
pub proof fn lemma_palette_runs_read_back(
    s: Seq<u8>,
    pos: int,
    palette: Seq<u32>,
    runs: Seq<Run>,
    n: nat,
    done: Seq<u32>,
)
    requires
        palette.len() < 128,
        runs_valid(runs, palette.len() as int),
        holds(s, pos, runs_bytes(runs)),
        done.len() + runs_shown(palette, runs).len() == n,
    ensures
        palette_runs(s, pos, palette, n, done) == (TileRead::Done {
            colours: done + runs_shown(palette, runs),
            pos: pos + runs_bytes(runs).len(),
        }),
    decreases runs.len(),
{
    if runs.len() == 0 {
        assert(done + runs_shown(palette, runs) =~= done);
    } else {
        let run = runs[0];
        let rest = runs.drop_first();
        let shown = Seq::new(run.length, |i: int| palette[run.index]);
        assert forall|i: int| 0 <= i < rest.len() implies 0 <= (#[trigger] rest[i]).index
            < palette.len() && rest[i].length > 0 && (rest[i].single ==> rest[i].length == 1) by {
            assert(rest[i] == runs[i + 1]);
        }
        lemma_holds_both(s, pos, run_bytes(run), runs_bytes(rest));
        assert(runs_shown(palette, runs) == shown + runs_shown(palette, rest));
        let more = done + shown;
        let end = pos + run_bytes(run).len();
        lemma_palette_runs_read_back(s, end, palette, rest, n, more);
        assert(more + runs_shown(palette, rest) =~= done + runs_shown(palette, runs));
        assert(s[pos] == run_bytes(run)[0]);
        if run.single {
            assert(more =~= done.push(palette[run.index]));
        } else {
            lemma_holds_both(s, pos, seq![(run.index + 128) as u8], length_bytes(run.length));
            lemma_length_reads_back(s, pos + 1, run.length);
            assert(s[pos] == run.index + 128);
            assert(s[pos] % 128 == run.index);
            assert(more =~= done + blank(run.length, palette[run.index]));
        }
    }
}

#[verifier::spinoff_prover]
proof fn lemma_run_pixels(
    palette: Seq<u32>,
    runs: Seq<Run>,
    starts: Seq<int>,
    base: int,
    i: int,
    j: int,
)
    requires
        starts.len() == runs.len() + 1,
        starts[0] == base,
        forall|k: int|
            0 <= k < runs.len() ==> #[trigger] starts[k + 1] == starts[k] + runs[k].length,
        0 <= i < runs.len(),
        0 <= j < runs[i].length,
    ensures
        runs_shown(palette, runs).len() == starts.last() - base,
        0 <= starts[i] - base,
        starts[i] - base + j < runs_shown(palette, runs).len(),
        runs_shown(palette, runs)[starts[i] - base + j] == palette[runs[i].index],
    decreases runs.len(),
{
    let rest = runs.drop_first();
    let later = starts.drop_first();
    let first = Seq::new(runs[0].length, |n: int| palette[runs[0].index]);
    let z: int = 0;
    assert(starts[z + 1] == starts[z] + runs[0].length);
    assert forall|k: int| 0 <= k < rest.len() implies #[trigger] later[k + 1] == later[k]
        + rest[k].length by {
        assert(starts[(k + 1) + 1] == starts[k + 1] + runs[k + 1].length);
    }
    assert(runs_shown(palette, runs) == first + runs_shown(palette, rest));
    lemma_runs_len(palette, rest, later, later[0]);
    if i > 0 {
        assert(starts[(i - 1) + 1] == starts[i - 1] + runs[i - 1].length);
        lemma_run_pixels(palette, rest, later, later[0], i - 1, j);
    }
}

#[verifier::spinoff_prover]
proof fn lemma_runs_len(palette: Seq<u32>, runs: Seq<Run>, starts: Seq<int>, base: int)
    requires
        starts.len() == runs.len() + 1,
        starts[0] == base,
        forall|k: int|
            0 <= k < runs.len() ==> #[trigger] starts[k + 1] == starts[k] + runs[k].length,
    ensures
        runs_shown(palette, runs).len() == starts.last() - base,
    decreases runs.len(),
{
    if runs.len() > 0 {
        let rest = runs.drop_first();
        let later = starts.drop_first();
        let z: int = 0;
        assert(starts[z + 1] == starts[z] + runs[0].length);
        assert forall|k: int| 0 <= k < rest.len() implies #[trigger] later[k + 1] == later[k]
            + rest[k].length by {
            assert(starts[(k + 1) + 1] == starts[k + 1] + runs[k + 1].length);
        }
        lemma_runs_len(palette, rest, later, later[0]);
    }
}

/// Where runs of palette colours fill a tile, every pixel from the start of a
/// run to its end has the colour that the run names in the palette.
pub proof fn lemma_each_run_has_its_colour(
    s: Seq<u8>,
    pos: int,
    palette: Seq<u32>,
    runs: Seq<Run>,
    starts: Seq<int>,
    n: nat,
    i: int,
    j: int,
)
    requires
        palette.len() < 128,
        runs_valid(runs, palette.len() as int),
        holds(s, pos, runs_bytes(runs)),
        starts.len() == runs.len() + 1,
        starts[0] == 0,
        forall|k: int|
            0 <= k < runs.len() ==> #[trigger] starts[k + 1] == starts[k] + runs[k].length,
        starts.last() == n,
        0 <= i < runs.len(),
        0 <= j < runs[i].length,
    ensures
        palette_runs(s, pos, palette, n, Seq::empty()) matches TileRead::Done { colours, pos: end }
            && end == pos + runs_bytes(runs).len() && colours.len() == n && colours[starts[i] + j]
            == palette[runs[i].index],
{
    lemma_runs_len(palette, runs, starts, 0);
    lemma_palette_runs_read_back(s, pos, palette, runs, n, Seq::empty());
    let shown = runs_shown(palette, runs);
    assert(Seq::empty() + shown =~= shown);
    lemma_run_pixels(palette, runs, starts, 0, i, j);
}

/// A tile as a server writes it. Pixels are given by their bytes.
pub enum WrittenTile {
    /// Every pixel.
    Raw { pixels: Seq<Seq<u8>> },
    /// One pixel for all.
    Solid { pixel: Seq<u8> },
    /// Two to sixteen pixels, and a number for each place of the tile, packed
    /// into `body`.
    Packed { palette: Seq<Seq<u8>>, numbers: Seq<int>, body: Seq<u8> },
    /// Pixels, each with how often it comes.
    Plain { runs: Seq<(Seq<u8>, nat)> },
    /// Pixels, and runs of them.
    Palette { palette: Seq<Seq<u8>>, runs: Seq<Run> },
}

/// The colours of pixels.
pub open spec fn shades(format: PixelFormat, pixels: Seq<Seq<u8>>) -> Seq<u32> {
    Seq::new(pixels.len(), |i: int| ccolour_of(format, pixels[i]))
}

/// Whether each pixel has the bytes that the format asks for.
pub open spec fn pixels_valid(format: PixelFormat, pixels: Seq<Seq<u8>>) -> bool {
    forall|i: int| 0 <= i < pixels.len() ==> (#[trigger] pixels[i]).len() == format.cpixel_len()
}

/// Pixels with how often each comes, one after the other.
pub open spec fn plain_bytes(runs: Seq<(Seq<u8>, nat)>) -> Seq<u8>
    decreases runs.len(),
{
    if runs.len() == 0 {
        Seq::empty()
    } else {
        runs[0].0 + length_bytes(runs[0].1) + plain_bytes(runs.drop_first())
    }
}

/// The pixels of such a list, in order.
pub open spec fn plain_shown(format: PixelFormat, runs: Seq<(Seq<u8>, nat)>) -> Seq<u32>
    decreases runs.len(),
{
    if runs.len() == 0 {
        Seq::empty()
    } else {
        Seq::new(runs[0].1, |i: int| ccolour_of(format, runs[0].0)) + plain_shown(
            format,
            runs.drop_first(),
        )
    }
}

/// Whether such a list can be written.
pub open spec fn plain_valid(format: PixelFormat, runs: Seq<(Seq<u8>, nat)>) -> bool {
    forall|i: int|
        0 <= i < runs.len() ==> (#[trigger] runs[i]).0.len() == format.cpixel_len() && runs[i].1
            > 0
}

/// How many bits a packed number takes, in a tile of `size` colours: as few of
/// one, two and four as tell the colours apart.
pub open spec fn number_bits(size: int) -> int {
    if size == 2 {
        1
    } else if size <= 4 {
        2
    } else {
        4
    }
}

/// Whether `body` holds the numbers of a tile of `w` by `h` places: each row
/// starts at a byte, and each number follows the one on its left without a gap,
/// from the high bits of a byte to the low ones.
pub open spec fn packs(body: Seq<u8>, numbers: Seq<int>, bits: int, w: int, h: int) -> bool {
    let row = (w * bits + 7) / 8;
    &&& body.len() == row * h
    &&& numbers.len() == w * h
    &&& forall|i: int, j: int|
        0 <= i < w && 0 <= j < h ==> body[j * row + i * bits / 8] as int / pow2(
            (8 - bits - i * bits % 8) as nat,
        ) as int % pow2(bits as nat) as int == #[trigger] numbers[j * w + i]
}

impl WrittenTile {
    /// Whether this can be written for a tile of `w` by `h` pixels.
    pub open spec fn valid(self, format: PixelFormat, w: int, h: int) -> bool {
        match self {
            WrittenTile::Raw { pixels } => pixels_valid(format, pixels) && pixels.len() == w * h,
            WrittenTile::Solid { pixel } => pixel.len() == format.cpixel_len(),
            WrittenTile::Packed { palette, numbers, body } => {
                &&& 2 <= palette.len() <= 16
                &&& pixels_valid(format, palette)
                &&& packs(body, numbers, number_bits(palette.len() as int), w, h)
                &&& forall|k: int|
                    0 <= k < numbers.len() ==> 0 <= #[trigger] numbers[k] < palette.len()
            },
            WrittenTile::Plain { runs } => plain_valid(format, runs) && plain_shown(
                format,
                runs,
            ).len() == w * h,
            WrittenTile::Palette { palette, runs } => {
                &&& 1 <= palette.len() <= 127
                &&& pixels_valid(format, palette)
                &&& runs_valid(runs, palette.len() as int)
                &&& runs_shown(shades(format, palette), runs).len() == w * h
            },
        }
    }

    /// The bytes of the tile.
    pub open spec fn bytes(self) -> Seq<u8> {
        match self {
            WrittenTile::Raw { pixels } => seq![0u8] + pixels.flatten(),
            WrittenTile::Solid { pixel } => seq![1u8] + pixel,
            WrittenTile::Packed { palette, numbers, body } => seq![palette.len() as u8]
                + palette.flatten() + body,
            WrittenTile::Plain { runs } => seq![128u8] + plain_bytes(runs),
            WrittenTile::Palette { palette, runs } => seq![(palette.len() + 128) as u8]
                + palette.flatten() + runs_bytes(runs),
        }
    }

    /// The colours of the tile's `n` places, row by row.
    pub open spec fn shown(self, format: PixelFormat, n: nat) -> Seq<u32> {
        match self {
            WrittenTile::Raw { pixels } => shades(format, pixels),
            WrittenTile::Solid { pixel } => Seq::new(n, |i: int| ccolour_of(format, pixel)),
            WrittenTile::Packed { palette, numbers, body } => Seq::new(
                n,
                |i: int| ccolour_of(format, palette[numbers[i]]),
            ),
            WrittenTile::Plain { runs } => plain_shown(format, runs),
            WrittenTile::Palette { palette, runs } => runs_shown(shades(format, palette), runs),
        }
    }
}

pub(crate) proof fn lemma_palette_reads_back(
    s: Seq<u8>,
    pos: int,
    format: PixelFormat,
    pixels: Seq<Seq<u8>>,
)
    requires
        pixels_valid(format, pixels),
        holds(s, pos, pixels.flatten()),
    ensures
        pixels.flatten().len() == pixels.len() * format.cpixel_len(),
        palette_at(s, pos, pixels.len(), format) == shades(format, pixels),
{
    let len = format.cpixel_len() as int;
    let n = pixels.len();
    lemma_joined(pixels, len);
    let body = s.subrange(pos, pos + n * len);
    assert(body =~= pixels.flatten());
    let read = palette_at(s, pos, n, format);
    assert forall|k: int| 0 <= k < n implies #[trigger] read[k] == shades(format, pixels)[k] by {
        lemma_joined_part(pixels, len, k);
    }
    assert(read =~= shades(format, pixels));
}

/// Runs of any colour read back as written.
#[verifier::spinoff_prover]
pub proof fn lemma_plain_runs_read_back(
    s: Seq<u8>,
    pos: int,
    format: PixelFormat,
    runs: Seq<(Seq<u8>, nat)>,
    n: nat,
    done: Seq<u32>,
)
    requires
        plain_valid(format, runs),
        holds(s, pos, plain_bytes(runs)),
        done.len() + plain_shown(format, runs).len() == n,
    ensures
        plain_runs(s, pos, format, n, done) == (TileRead::Done {
            colours: done + plain_shown(format, runs),
            pos: pos + plain_bytes(runs).len(),
        }),
    decreases runs.len(),
{
    if runs.len() == 0 {
        assert(done + plain_shown(format, runs) =~= done);
    } else {
        let (px, length) = runs[0];
        let rest = runs.drop_first();
        let colour = ccolour_of(format, px);
        let shown = Seq::new(length, |i: int| ccolour_of(format, runs[0].0));
        assert forall|i: int| 0 <= i < rest.len() implies (#[trigger] rest[i]).0.len()
            == format.cpixel_len() && rest[i].1 > 0 by {
            assert(rest[i] == runs[i + 1]);
        }
        assert(runs[0].1 == length && length > 0);
        assert(plain_bytes(runs) =~= px + (length_bytes(length) + plain_bytes(rest)));
        lemma_holds_both(s, pos, px, length_bytes(length) + plain_bytes(rest));
        lemma_holds_both(s, pos + px.len(), length_bytes(length), plain_bytes(rest));
        lemma_length_reads_back(s, pos + px.len(), length);
        let more = done + shown;
        let end = pos + px.len() + length_bytes(length).len();
        lemma_plain_runs_read_back(s, end, format, rest, n, more);
        assert(more + plain_shown(format, rest) =~= done + plain_shown(format, runs));
        assert(s.subrange(pos, pos + px.len()) =~= px);
        assert(more =~= done + blank(length, colour));
    }
}

#[verifier::spinoff_prover]
pub(crate) proof fn lemma_number_in(byte: u8, bits: int, i: int)
    requires
        bits == 1 || bits == 2 || bits == 4,
        0 <= i,
    ensures
        i * bits / 8 == i / (8int / bits),
        index_in(byte, bits, i % (8int / bits)) == byte as int / pow2(
            (8 - bits - i * bits % 8) as nat,
        ) as int % pow2(bits as nat) as int,
{
    lemma2_to64();
    if bits == 1 {
        assert((byte >> 7u8) & 1 == byte / 128 % 2 && (byte >> 6u8) & 1 == byte / 64 % 2 && (byte
            >> 5u8) & 1 == byte / 32 % 2 && (byte >> 4u8) & 1 == byte / 16 % 2 && (byte >> 3u8) & 1
            == byte / 8 % 2 && (byte >> 2u8) & 1 == byte / 4 % 2 && (byte >> 1u8) & 1 == byte / 2
            % 2 && (byte >> 0u8) & 1 == byte / 1 % 2) by (bit_vector);
        assert(i * bits == i);
        assert(0 <= i % 8 < 8);
    } else if bits == 2 {
        assert((byte >> 6u8) & 3 == byte / 64 % 4 && (byte >> 4u8) & 3 == byte / 16 % 4 && (byte
            >> 2u8) & 3 == byte / 4 % 4 && (byte >> 0u8) & 3 == byte / 1 % 4) by (bit_vector);
        assert(i * bits == 2 * i);
        assert(2 * i % 8 == 2 * (i % 4));
        assert(0 <= i % 4 < 4);
    } else {
        assert((byte >> 4u8) & 15 == byte / 16 % 16 && (byte >> 0u8) & 15 == byte / 1 % 16) by (
        bit_vector);
        assert(i * bits == 4 * i);
        assert(4 * i % 8 == 4 * (i % 2));
        assert(0 <= i % 2 < 2);
    }
}

pub(crate) proof fn lemma_packed_reads_back(
    body: Seq<u8>,
    numbers: Seq<int>,
    bits: int,
    w: int,
    h: int,
    k: int,
)
    requires
        bits == 1 || bits == 2 || bits == 4,
        0 < w,
        packs(body, numbers, bits, w, h),
        0 <= k < w * h,
    ensures
        packed_index(body, w, bits, k) == numbers[k],
{
    lemma_place_in(k, w, h);
    let (j, i) = (k / w, k % w);
    let row = (w * bits + 7) / 8;
    assert(numbers[j * w + i] == numbers[k]);
    lemma_number_in(body[j * row + i * bits / 8], bits, i);
}

/// Whatever form a tile is written in, it is read as the colours that were
/// written, and up to the byte where it ends.
#[verifier::rlimit(30)]
#[verifier::spinoff_prover]
pub proof fn lemma_tile_reads_back(
    s: Seq<u8>,
    pos: int,
    tile: WrittenTile,
    format: PixelFormat,
    w: int,
    h: int,
)
    requires
        0 < w,
        0 < h,
        tile.valid(format, w, h),
        holds(s, pos, tile.bytes()),
    ensures
        tile.shown(format, (w * h) as nat).len() == w * h,
        tile_read(s, pos, w, h, format) == (TileRead::Done {
            colours: tile.shown(format, (w * h) as nat),
            pos: pos + tile.bytes().len(),
        }),
{
    let n = (w * h) as nat;
    let len = format.cpixel_len() as int;
    assert(w * h > 0) by (nonlinear_arith)
        requires
            0 < w,
            0 < h,
    ;
    assert(s[pos] == tile.bytes()[0]);
    match tile {
        WrittenTile::Raw { pixels } => {
            lemma_holds_both(s, pos, seq![0u8], pixels.flatten());
            lemma_palette_reads_back(s, pos + 1, format, pixels);
        },
        WrittenTile::Solid { pixel } => {
            lemma_holds_both(s, pos, seq![1u8], pixel);
            assert(s.subrange(pos + 1, pos + 1 + len) =~= pixel);
            assert(blank(n, ccolour_of(format, pixel)) =~= tile.shown(format, n));
        },
        WrittenTile::Packed { palette, numbers, body } => {
            let size = palette.len();
            let bits = number_bits(size as int);
            let first = seq![size as u8];
            lemma_holds_both(s, pos, first + palette.flatten(), body);
            lemma_holds_both(s, pos, first, palette.flatten());
            lemma_palette_reads_back(s, pos + 1, format, palette);
            let b = pos + 1 + size * len;
            assert(s.subrange(b, b + body.len()) =~= body);
            assert forall|k: int| 0 <= k < n implies #[trigger] packed_index(body, w, bits, k)
                == numbers[k] && 0 <= numbers[k] < size by {
                lemma_packed_reads_back(body, numbers, bits, w, h, k);
            }
            let colours = Seq::new(
                n,
                |k: int| shades(format, palette)[packed_index(body, w, bits, k)],
            );
            assert(colours =~= tile.shown(format, n));
        },
        WrittenTile::Plain { runs } => {
            lemma_holds_both(s, pos, seq![128u8], plain_bytes(runs));
            lemma_plain_runs_read_back(s, pos + 1, format, runs, n, Seq::empty());
            assert(Seq::empty() + plain_shown(format, runs) =~= plain_shown(format, runs));
        },
        WrittenTile::Palette { palette, runs } => {
            let first = seq![(palette.len() + 128) as u8];
            lemma_holds_both(s, pos, first + palette.flatten(), runs_bytes(runs));
            lemma_holds_both(s, pos, first, palette.flatten());
            lemma_palette_reads_back(s, pos + 1, format, palette);
            let a = pos + 1 + palette.len() * len;
            lemma_palette_runs_read_back(
                s,
                a,
                shades(format, palette),
                runs,
                n,
                Seq::empty(),
            );
            let shown = runs_shown(shades(format, palette), runs);
            assert(Seq::empty() + shown =~= shown);
        },
    }
}

/// A run whose colour is not in the palette, or that is longer than what is left
/// of its tile, is refused.
pub proof fn lemma_wrong_runs_are_refused(
    s: Seq<u8>,
    pos: int,
    palette: Seq<u32>,
    n: nat,
    done: Seq<u32>,
    run: Run,
)
    requires
        palette.len() < 128,
        done.len() < n,
        0 <= run.index < 128,
        run.length > 0,
        run.single ==> run.length == 1,
        holds(s, pos, run_bytes(run)),
        run.index >= palette.len() || run.length > n - done.len(),
    ensures
        palette_runs(s, pos, palette, n, done) is Bad,
{
    assert(s[pos + 0] == run_bytes(run)[0]);
    if !run.single {
        lemma_holds_both(s, pos, seq![(run.index + 128) as u8], length_bytes(run.length));
        lemma_length_reads_back(s, pos + 1, run.length);
        assert(s[pos] % 128 == run.index);
    }
}

/// A run of any colour that is longer than what is left of its tile is refused.
pub proof fn lemma_long_plain_run_is_refused(
    s: Seq<u8>,
    pos: int,
    format: PixelFormat,
    pixel: Seq<u8>,
    length: nat,
    n: nat,
    done: Seq<u32>,
)
    requires
        done.len() < n,
        pixel.len() == format.cpixel_len(),
        length > n - done.len(),
        holds(s, pos, pixel + length_bytes(length)),
    ensures
        plain_runs(s, pos, format, n, done) is Bad,
{
    lemma_holds_both(s, pos, pixel, length_bytes(length));
    lemma_length_reads_back(s, pos + pixel.len(), length);
}

/// A tile of a kind that there is not is refused, and so is a packed tile with a
/// number that the palette does not have.
#[verifier::spinoff_prover]
pub proof fn lemma_wrong_tiles_are_refused(
    s: Seq<u8>,
    pos: int,
    format: PixelFormat,
    w: int,
    h: int,
    palette: Seq<Seq<u8>>,
    numbers: Seq<int>,
    body: Seq<u8>,
    k: int,
)
    requires
        0 < w,
        0 < h,
        0 <= pos < s.len(),
        17 <= s[pos] <= 127 || {
            &&& 2 <= palette.len() <= 16
            &&& pixels_valid(format, palette)
            &&& packs(body, numbers, number_bits(palette.len() as int), w, h)
            &&& holds(s, pos, seq![palette.len() as u8] + palette.flatten() + body)
            &&& 0 <= k < w * h
            &&& numbers[k] >= palette.len()
        },
    ensures
        tile_read(s, pos, w, h, format) is Bad,
{
    if !(17 <= s[pos] <= 127) {
        let size = palette.len();
        let bits = number_bits(size as int);
        let first = seq![size as u8];
        lemma_holds_both(s, pos, first + palette.flatten(), body);
        lemma_holds_both(s, pos, first, palette.flatten());
        assert(s[pos + 0] == first[0]);
        lemma_palette_reads_back(s, pos + 1, format, palette);
        let b = pos + 1 + size * format.cpixel_len();
        assert(s.subrange(b as int, b + body.len()) =~= body);
        lemma_packed_reads_back(body, numbers, bits, w, h, k);
        assert(packed_index(body, w, bits, k) >= size);
    }
}

/// Tiles one after the other.
pub open spec fn tiles_bytes(tiles: Seq<WrittenTile>) -> Seq<u8>
    decreases tiles.len(),
{
    if tiles.len() == 0 {
        Seq::empty()
    } else {
        tiles_bytes(tiles.drop_last()) + tiles.last().bytes()
    }
}

/// The lesser of two numbers.
pub open spec fn lesser(a: int, b: int) -> int {
    if a <= b {
        a
    } else {
        b
    }
}

/// Whether a written tile shows the part of a picture of `stride` pixels per row
/// that starts at `(x, y)` and has `w` by `h` pixels.
pub open spec fn tile_shows(
    tile: WrittenTile,
    format: PixelFormat,
    picture: Seq<u32>,
    stride: int,
    x: int,
    y: int,
    w: int,
    h: int,
) -> bool {
    &&& tile.valid(format, w, h)
    &&& forall|i: int, j: int|
        0 <= i < w && 0 <= j < h ==> #[trigger] tile.shown(format, (w * h) as nat)[j * w + i]
            == picture[(y + j) * stride + (x + i)]
}

/// Whether written tiles show a picture: it is cut into squares of 64 pixels,
/// from left to right and from top to bottom, and those at the right and at the
/// bottom are as large as what is left.
pub open spec fn tiles_show(
    tiles: Seq<WrittenTile>,
    format: PixelFormat,
    picture: Seq<u32>,
    w: int,
    h: int,
) -> bool {
    let across = (w + 63) / 64;
    &&& tiles.len() == across * ((h + 63) / 64)
    &&& forall|t: int|
        0 <= t < tiles.len() ==> tile_shows(
            #[trigger] tiles[t],
            format,
            picture,
            w,
            t % across * 64,
            t / across * 64,
            lesser(64, w - t % across * 64),
            lesser(64, h - t / across * 64),
        )
}

/// The tile that a pixel belongs to, where a picture of `w` pixels per row is cut
/// into squares.
pub(crate) open spec fn owner(p: int, w: int, side: int) -> int {
    (p / w / side) * ((w + side - 1) / side) + (p % w) / side
}

#[verifier::spinoff_prover]
pub(crate) proof fn lemma_owner(p: int, w: int, h: int, side: int, t: int)
    requires
        0 < w,
        0 <= p < w * h,
        0 <= t,
        side == 16 || side == 64,
    ensures
        ({
            let across = (w + side - 1) / side;
            let (x, y) = (t % across * side, t / across * side);
            &&& across > 0
            &&& 0 <= owner(p, w, side) < across * ((h + side - 1) / side)
            &&& owner(p, w, side) == t <==> x <= p % w < x + side && y <= p / w < y + side
        }),
{
    let across = (w + side - 1) / side;
    lemma_place_in(p, w, h);
    let (a, b) = ((p % w) / side, (p / w) / side);
    let down = (h + side - 1) / side;
    if side == 16 {
        assert(0 <= (p % w) / 16 < (w + 15) / 16);
        assert(0 <= (p / w) / 16 < (h + 15) / 16);
    } else {
        assert(0 <= (p % w) / 64 < (w + 63) / 64);
        assert(0 <= (p / w) / 64 < (h + 63) / 64);
    }
    assert(0 <= a < across && 0 <= b < down);
    lemma_place(a, b, across);
    vstd::arithmetic::div_mod::lemma_fundamental_div_mod(t, across);
    assert(0 <= b * across + a < across * down) by (nonlinear_arith)
        requires
            0 <= a < across,
            0 <= b < down,
    ;
    let (q, m) = (t / across, t % across);
    if owner(p, w, side) == t {
        assert(q == b && m == a);
        if side == 16 {
            assert((p % w) / 16 * 16 <= p % w < (p % w) / 16 * 16 + 16);
            assert((p / w) / 16 * 16 <= p / w < (p / w) / 16 * 16 + 16);
        } else {
            assert((p % w) / 64 * 64 <= p % w < (p % w) / 64 * 64 + 64);
            assert((p / w) / 64 * 64 <= p / w < (p / w) / 64 * 64 + 64);
        }
    }
    if m * side <= p % w < m * side + side && q * side <= p / w < q * side + side {
        if side == 16 {
            assert(m == (p % w) / 16 && q == (p / w) / 16);
        } else {
            assert(m == (p % w) / 64 && q == (p / w) / 64);
        }
        assert(t == b * across + a) by (nonlinear_arith)
            requires
                t == across * q + m,
                q == b,
                m == a,
        ;
    }
}

#[verifier::rlimit(30)]
#[verifier::spinoff_prover]
proof fn lemma_first_tiles_read_back(
    s: Seq<u8>,
    tiles: Seq<WrittenTile>,
    format: PixelFormat,
    picture: Seq<u32>,
    w: nat,
    h: nat,
    n: nat,
)
    requires
        0 < w <= usize::MAX,
        h <= usize::MAX,
        picture.len() == w * h,
        tiles_show(tiles, format, picture, w as int, h as int),
        n <= tiles.len(),
        holds(s, 0, tiles_bytes(tiles.take(n as int))),
    ensures
        after_tiles(s, w, h, format, n) matches Walk::At { raster, pos } && {
            &&& pos == tiles_bytes(tiles.take(n as int)).len()
            &&& raster.len() == w * h
            &&& forall|p: int|
                0 <= p < w * h && owner(p, w as int, 64) < n ==> #[trigger] raster[p] == picture[p]
        },
    decreases n,
{
    if n == 0 {
        assert forall|p: int| 0 <= p < w * h implies owner(p, w as int, 64) >= 0 by {
            lemma_owner(p, w as int, h as int, 64, 0);
        }
    } else {
        let t = n - 1;
        let part = tiles.take(n as int);
        assert(part.drop_last() =~= tiles.take(t));
        assert(part.last() == tiles[t]);
        let start = tiles_bytes(tiles.take(t)).len() as int;
        lemma_holds_both(s, 0, tiles_bytes(tiles.take(t)), tiles[t].bytes());
        lemma_first_tiles_read_back(s, tiles, format, picture, w, h, t as nat);
        let tile = tile_at(w, h, 64, t as nat);
        lemma_tile_inside(w, h, 64, t as nat);
        let (tw, th) = (tile.width as int, tile.height as int);
        let across = (w as int + 63) / 64;
        assert(tile_shows(
            tiles[t],
            format,
            picture,
            w as int,
            t % across * 64,
            t / across * 64,
            lesser(64, w - t % across * 64),
            lesser(64, h - t / across * 64),
        ));
        lemma_tile_reads_back(s, start, tiles[t], format, tw, th);
        let shown = tiles[t].shown(format, (tw * th) as nat);
        let before = after_tiles(s, w, h, format, t as nat)->raster;
        let after = after_tiles(s, w, h, format, n)->raster;
        assert forall|p: int| 0 <= p < w * h && owner(p, w as int, 64) < n implies #[trigger] after[p]
            == picture[p] by {
            lemma_owner(p, w as int, h as int, 64, t);
            lemma_place_in(p, w as int, h as int);
            if owner(p, w as int, 64) == t {
                let (i, j) = (p % (w as int) - tile.x, p / (w as int) - tile.y);
                assert(after[p] == shown[j * tw + i]);
                assert((tile.y + j) * w + (tile.x + i) == p);
            } else {
                assert(after[p] == before[p]);
            }
        }
    }
}

proof fn lemma_all_owned(raster: Seq<u32>, picture: Seq<u32>, w: nat, h: nat, n: nat)
    requires
        0 < w,
        raster.len() == w * h,
        picture.len() == w * h,
        n == (w + 63) / 64 * ((h + 63) / 64),
        forall|p: int|
            0 <= p < w * h && owner(p, w as int, 64) < n ==> #[trigger] raster[p] == picture[p],
    ensures
        raster == picture,
{
    assert forall|p: int| 0 <= p < w * h implies raster[p] == picture[p] by {
        lemma_owner(p, w as int, h as int, 64, 0);
    }
    assert(raster =~= picture);
}

/// A picture that was written as tiles, each in whatever form, is read back as
/// the picture, up to the byte where it ends.
#[verifier::rlimit(30)]
pub proof fn lemma_picture_reads_back(
    s: Seq<u8>,
    tiles: Seq<WrittenTile>,
    format: PixelFormat,
    picture: Seq<u32>,
    w: nat,
    h: nat,
)
    requires
        0 < w <= usize::MAX,
        h <= usize::MAX,
        picture.len() == w * h,
        tiles_show(tiles, format, picture, w as int, h as int),
        holds(s, 0, tiles_bytes(tiles)),
    ensures
        tiles_decoded(s, w, h, format) == (Decoded::Done {
            raster: picture,
            used: tiles_bytes(tiles).len(),
        }),
{
    let n = tiles.len();
    assert(tiles.take(n as int) =~= tiles);
    lemma_first_tiles_read_back(s, tiles, format, picture, w, h, n);
    lemma_all_owned(after_tiles(s, w, h, format, n)->raster, picture, w, h, n);
    assert(tile_count(w, h, 64) == n);
}

} // verus!
