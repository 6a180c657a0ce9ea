//! TRLE (Tiled Run-Length Encoding) decoder, encoding type 15.
//!
//! TRLE uses exactly the same 64x64 tile format as ZRLE (subencodings 0 raw,
//! 1 solid, 2..=16 packed palette, 128 plain RLE, 129..=255 palette RLE); the
//! only difference is the transport: TRLE tiles are read directly from the
//! stream, while ZRLE wraps the tile stream in a zlib stream with a 4-byte
//! length prefix per rectangle.

pub mod written;

use vstd::prelude::*;

use crate::error::{protocol_error, Failure, VncError};
use crate::framebuffer::Framebuffer;
use crate::pixel_format::PixelFormat;
use crate::raster::{
    blank, blank_raster, ccolour, ccolour_of, count_along, nth_tile, paint, painted, reports,
    set_tile, tile_at, tile_count, tiles_along, with_tile, Decoded,
};
use crate::text::{concat_text, decimal, decimal_text};
use crate::wire::slice;

verus! {

/// Pixels along the side of a tile.
pub const TILE_SIZE: usize = 64;

/// What the bytes of one tile say.
pub enum TileRead {
    /// More bytes are needed.
    Short,
    /// The bytes are not a tile.
    Bad(Failure),
    /// The colours of the tile, row by row, and the position behind it.
    Done { colours: Seq<u32>, pos: int },
}

/// The colours of `n` pixels in the tiled encodings.
pub open spec fn ccolours_of(format: PixelFormat, body: Seq<u8>, n: nat) -> Seq<u32> {
    let len = format.cpixel_len();
    Seq::new(n, |k: int| ccolour_of(format, body.subrange(k * len, k * len + len)))
}

/// The length of the run whose length bytes start at `pos`, and the position
/// behind them: one more than the sum of the bytes, of which all but the last
/// are 255.
pub open spec fn run_from(s: Seq<u8>, pos: int) -> Option<(nat, int)>
    decreases s.len() - pos,
{
    if pos < 0 || pos >= s.len() {
        None
    } else if s[pos] == 255 {
        match run_from(s, pos + 1) {
            None => None,
            Some((n, end)) => Some((n + 255, end)),
        }
    } else {
        Some(((s[pos] + 1) as nat, pos + 1))
    }
}

/// A run that is longer than what is left of its tile.
pub open spec fn overlong() -> Failure {
    Failure::Protocol("ZRLE run exceeds its tile"@)
}

/// A palette index without a colour.
pub open spec fn unknown_index() -> Failure {
    Failure::Protocol("ZRLE palette index out of range"@)
}

/// Runs of any colour, until the tile has `n` pixels.
pub open spec fn plain_runs(
    s: Seq<u8>,
    pos: int,
    format: PixelFormat,
    n: nat,
    done: Seq<u32>,
) -> TileRead
    decreases n - done.len(),
    when done.len() <= n
{
    let len = format.cpixel_len();
    if done.len() == n {
        TileRead::Done { colours: done, pos }
    } else if pos + len > s.len() {
        TileRead::Short
    } else {
        match run_from(s, pos + len) {
            None => TileRead::Short,
            Some((run, end)) => if run > n - done.len() {
                TileRead::Bad(overlong())
            } else if run == 0 {
                TileRead::Short
            } else {
                plain_runs(
                    s,
                    end,
                    format,
                    n,
                    done + blank(run, ccolour_of(format, s.subrange(pos, pos + len))),
                )
            },
        }
    }
}

/// Runs of palette colours, until the tile has `n` pixels. An index below 128
/// stands for one pixel, any other is followed by the length of its run.
pub open spec fn palette_runs(
    s: Seq<u8>,
    pos: int,
    palette: Seq<u32>,
    n: nat,
    done: Seq<u32>,
) -> TileRead
    decreases n - done.len(),
    when done.len() <= n
{
    if done.len() == n {
        TileRead::Done { colours: done, pos }
    } else if pos >= s.len() {
        TileRead::Short
    } else if s[pos] % 128 >= palette.len() {
        TileRead::Bad(unknown_index())
    } else if s[pos] < 128 {
        palette_runs(s, pos + 1, palette, n, done.push(palette[s[pos] as int]))
    } else {
        match run_from(s, pos + 1) {
            None => TileRead::Short,
            Some((run, end)) => if run > n - done.len() {
                TileRead::Bad(overlong())
            } else if run == 0 {
                TileRead::Short
            } else {
                palette_runs(s, end, palette, n, done + blank(run, palette[(s[pos] % 128) as int]))
            },
        }
    }
}

/// Bits of one index in a packed tile with `size` colours.
pub open spec fn index_bits(size: int) -> int {
    if size <= 2 {
        1
    } else if size <= 4 {
        2
    } else {
        4
    }
}

/// Bytes of one row of a packed tile: rows end on a byte.
pub open spec fn packed_row(width: int, bits: int) -> int {
    (width * bits + 7) / 8
}

/// The highest index of so many bits.
pub open spec fn index_mask(bits: int) -> u8 {
    if bits == 1 {
        1
    } else if bits == 2 {
        3
    } else {
        15
    }
}

/// The index at slot `slot` of a byte; the first slot holds the highest bits.
pub open spec fn index_in(byte: u8, bits: int, slot: int) -> int {
    ((byte >> ((8 - bits * (slot + 1)) as u8)) & index_mask(bits)) as int
}

/// The index of the `k`-th pixel of a packed tile.
pub open spec fn packed_index(body: Seq<u8>, width: int, bits: int, k: int) -> int {
    let col = k % width;
    let per = 8int / bits;
    index_in(body[(k / width) * packed_row(width, bits) + col / per], bits, col % per)
}

/// The pixels of a packed tile.
pub open spec fn packed_pixels(
    body: Seq<u8>,
    width: int,
    height: int,
    palette: Seq<u32>,
    pos: int,
) -> TileRead {
    let bits = index_bits(palette.len() as int);
    let n = (width * height) as nat;
    if exists|k: int| 0 <= k < n && #[trigger] packed_index(body, width, bits, k) >= palette.len() {
        TileRead::Bad(unknown_index())
    } else {
        TileRead::Done {
            colours: Seq::new(n, |k: int| palette[packed_index(body, width, bits, k)]),
            pos,
        }
    }
}

/// The palette of `size` colours at `pos`.
pub open spec fn palette_at(s: Seq<u8>, pos: int, size: nat, format: PixelFormat) -> Seq<u32> {
    ccolours_of(format, s.subrange(pos, pos + size * format.cpixel_len()), size)
}

/// What the bytes at `pos` say about a tile.
pub open spec fn tile_read(
    s: Seq<u8>,
    pos: int,
    width: int,
    height: int,
    format: PixelFormat,
) -> TileRead {
    let len = format.cpixel_len() as int;
    let n = (width * height) as nat;
    if pos >= s.len() {
        TileRead::Short
    } else {
        let kind = s[pos];
        let a = pos + 1;
        if kind == 0 {
            if a + n * len > s.len() {
                TileRead::Short
            } else {
                TileRead::Done {
                    colours: ccolours_of(format, s.subrange(a, a + n * len), n),
                    pos: a + n * len,
                }
            }
        } else if kind == 1 {
            if a + len > s.len() {
                TileRead::Short
            } else {
                TileRead::Done {
                    colours: blank(n, ccolour_of(format, s.subrange(a, a + len))),
                    pos: a + len,
                }
            }
        } else if kind <= 16 {
            let b = a + kind * len;
            let size = packed_row(width, index_bits(kind as int)) * height;
            if b + size > s.len() {
                TileRead::Short
            } else {
                packed_pixels(
                    s.subrange(b, b + size),
                    width,
                    height,
                    palette_at(s, a, kind as nat, format),
                    b + size,
                )
            }
        } else if kind < 128 {
            TileRead::Bad(
                Failure::Protocol("Invalid ZRLE subencoding: "@ + decimal_text(kind as nat)),
            )
        } else if kind == 128 {
            plain_runs(s, a, format, n, Seq::empty())
        } else {
            let size = (kind - 128) as nat;
            if a + size * len > s.len() {
                TileRead::Short
            } else {
                palette_runs(
                    s,
                    a + size * len,
                    palette_at(s, a, size, format),
                    n,
                    Seq::empty(),
                )
            }
        }
    }
}

/// Where decoding stands.
pub enum Walk {
    Short,
    Bad(Failure),
    At { raster: Seq<u32>, pos: int },
}

/// Where decoding stands after `t` tiles.
pub open spec fn after_tiles(
    s: Seq<u8>,
    width: nat,
    height: nat,
    format: PixelFormat,
    t: nat,
) -> Walk
    decreases t,
{
    if t == 0 {
        Walk::At { raster: blank(width * height, 0), pos: 0 }
    } else {
        match after_tiles(s, width, height, format, (t - 1) as nat) {
            Walk::Short => Walk::Short,
            Walk::Bad(e) => Walk::Bad(e),
            Walk::At { raster, pos } => {
                let tile = tile_at(width, height, TILE_SIZE as nat, (t - 1) as nat);
                match tile_read(s, pos, tile.width as int, tile.height as int, format) {
                    TileRead::Short => Walk::Short,
                    TileRead::Bad(e) => Walk::Bad(e),
                    TileRead::Done { colours, pos: end } => Walk::At {
                        raster: with_tile(
                            raster,
                            width as int,
                            tile.x as int,
                            tile.y as int,
                            tile.width as int,
                            tile.height as int,
                            colours,
                        ),
                        pos: end,
                    },
                }
            },
        }
    }
}

/// What the bytes `s` say about a rectangle of tiles.
pub open spec fn tiles_decoded(s: Seq<u8>, width: nat, height: nat, format: PixelFormat) -> Decoded {
    match after_tiles(s, width, height, format, tile_count(width, height, TILE_SIZE as nat)) {
        Walk::Short => Decoded::Incomplete,
        Walk::Bad(e) => Decoded::Refused(e),
        Walk::At { raster, pos } => Decoded::Done { raster, used: pos as nat },
    }
}

proof fn lemma_stays_stopped(
    s: Seq<u8>,
    width: nat,
    height: nat,
    format: PixelFormat,
    t: nat,
    n: nat,
)
    requires
        t <= n,
        !(after_tiles(s, width, height, format, t) is At),
    ensures
        after_tiles(s, width, height, format, n) == after_tiles(s, width, height, format, t),
    decreases n - t,
{
    if t < n {
        lemma_stays_stopped(s, width, height, format, t + 1, n);
    }
}

/// An outcome of reading a tile: `Ok(None)` asks for more bytes.
pub open spec fn tile_reports(r: Result<Option<(Vec<u32>, usize)>, VncError>, t: TileRead) -> bool {
    match r {
        Ok(None) => t is Short,
        Ok(Some((colours, pos))) => t == (TileRead::Done { colours: colours@, pos: pos as int }),
        Err(e) => t == TileRead::Bad(e@),
    }
}

/// Reads the colours of `n` pixels in the tiled encodings.
pub fn read_ccolours(format: &PixelFormat, body: &[u8], n: usize) -> (r: Vec<u32>)
    requires
        body@.len() == n * format.cpixel_len(),
    ensures
        r@ == ccolours_of(*format, body@, n as nat),
{
    let len: usize = format.bytes_per_cpixel();
    let mut out: Vec<u32> = Vec::new();
    let mut k: usize = 0;
    let mut at: usize = 0;
    while k < n
        invariant
            k <= n,
            len == format.cpixel_len(),
            at == k * len,
            body@.len() == n * len,
            out@ == ccolours_of(*format, body@, k as nat),
        decreases n - k,
    {
        assert(at + len <= n * len && (k + 1) * len == at + len) by (nonlinear_arith)
            requires
                k < n,
                at == k * len,
                len >= 0,
        ;
        assert(body@.len() == body.len());
        out.push(ccolour(format, slice(body, at, at + len)));
        at = at + len;
        k = k + 1;
        assert(out@ =~= ccolours_of(*format, body@, k as nat));
    }
    out
}

fn read_run(input: &[u8], pos: usize) -> (r: Option<(u128, usize)>)
    requires
        pos <= input@.len(),
    ensures
        match r {
            None => run_from(input@, pos as int) is None,
            Some((n, end)) => run_from(input@, pos as int) == Some((n as nat, end as int)) && 1 <= n
                && pos < end <= input@.len(),
        },
{
    let mut total: u128 = 1;
    let mut at: usize = pos;
    assert(input@.len() == input.len());
    while at < input.len()
        invariant
            pos <= at <= input@.len(),
                input@.len() == input.len(),
            total == 1 + 255 * (at - pos),
            match run_from(input@, at as int) {
                None => run_from(input@, pos as int) is None,
                Some((n, end)) => run_from(input@, pos as int) == Some(
                    ((n + 255 * (at - pos)) as nat, end),
                ),
            },
        decreases input@.len() - at,
    {
        let b: u8 = input[at];
        if b != 255 {
            return Some((total + b as u128, at + 1));
        }
        at = at + 1;
        total = total + 255;
    }
    None
}

fn push_run(out: &mut Vec<u32>, colour: u32, n: usize)
    ensures
        final(out)@ == old(out)@ + blank(n as nat, colour),
{
    let ghost before = out@;
    let mut i: usize = 0;
    while i < n
        invariant
            i <= n,
            out@ == before + blank(i as nat, colour),
        decreases n - i,
    {
        out.push(colour);
        i = i + 1;
        assert(out@ =~= before + blank(i as nat, colour));
    }
    assert(out@ =~= before + blank(n as nat, colour));
}

fn read_plain_runs(input: &[u8], from: usize, format: &PixelFormat, n: usize) -> (r: Result<
    Option<(Vec<u32>, usize)>,
    VncError,
>)
    requires
        from <= input@.len(),
    ensures
        tile_reports(r, plain_runs(input@, from as int, *format, n as nat, Seq::empty())),
        r matches Ok(Some((colours, pos))) ==> colours@.len() == n && pos <= input@.len(),
{
    let len: usize = format.bytes_per_cpixel();
    let mut out: Vec<u32> = Vec::new();
    let mut pos: usize = from;
    assert(out@ =~= Seq::<u32>::empty());
    while out.len() < n
        invariant
            len == format.cpixel_len(),
            out@.len() <= n,
            pos <= input@.len(),
                plain_runs(input@, from as int, *format, n as nat, Seq::empty()) == plain_runs(
                input@,
                pos as int,
                *format,
                n as nat,
                out@,
            ),
        decreases n - out@.len(),
    {
        assert(input@.len() == input.len());
        if input.len() - pos < len {
            return Ok(None);
        }
        match read_run(input, pos + len) {
            None => {
                return Ok(None);
            },
            Some((run, end)) => {
                if run > (n - out.len()) as u128 {
                    return Err(protocol_error("ZRLE run exceeds its tile"));
                }
                let c: u32 = ccolour(format, slice(input, pos, pos + len));
                push_run(&mut out, c, run as usize);
                pos = end;
            },
        }
    }
    Ok(Some((out, pos)))
}

fn read_palette_runs(input: &[u8], from: usize, palette: &[u32], n: usize) -> (r: Result<
    Option<(Vec<u32>, usize)>,
    VncError,
>)
    requires
        from <= input@.len(),
    ensures
        tile_reports(r, palette_runs(input@, from as int, palette@, n as nat, Seq::empty())),
        r matches Ok(Some((colours, pos))) ==> colours@.len() == n && pos <= input@.len(),
{
    let mut out: Vec<u32> = Vec::new();
    let mut pos: usize = from;
    assert(out@ =~= Seq::<u32>::empty());
    while out.len() < n
        invariant
            out@.len() <= n,
            pos <= input@.len(),
                palette_runs(input@, from as int, palette@, n as nat, Seq::empty()) == palette_runs(
                input@,
                pos as int,
                palette@,
                n as nat,
                out@,
            ),
        decreases n - out@.len(),
    {
        if pos >= input.len() {
            return Ok(None);
        }
        let b: u8 = input[pos];
        let index: usize = (b % 128) as usize;
        if index >= palette.len() {
            return Err(protocol_error("ZRLE palette index out of range"));
        }
        if b < 128 {
            out.push(palette[index]);
            pos = pos + 1;
        } else {
            match read_run(input, pos + 1) {
                None => {
                    return Ok(None);
                },
                Some((run, end)) => {
                    if run > (n - out.len()) as u128 {
                        return Err(protocol_error("ZRLE run exceeds its tile"));
                    }
                    push_run(&mut out, palette[index], run as usize);
                    pos = end;
                },
            }
        }
    }
    Ok(Some((out, pos)))
}

/// The bits of a packed index lie inside the rows of the tile.
pub proof fn lemma_packed_place(k: int, width: int, height: int, bits: int)
    requires
        0 < width,
        0 <= k < width * height,
        bits == 1 || bits == 2 || bits == 4,
    ensures
        0 <= k / width < height,
        0 <= k % width < width,
        0 <= (k / width) * packed_row(width, bits) + (k % width) / (8int / bits) < packed_row(
            width,
            bits,
        ) * height,
        0 <= (k / width) * packed_row(width, bits),
        0 <= bits * ((k % width) % (8int / bits) + 1) <= 8,
        0 <= (k % width) / (8int / bits),
{
    crate::raster::lemma_place_in(k, width, height);
    let row = packed_row(width, bits);
    let (y, x) = (k / width, k % width);
    let per = 8int / bits;
    if bits == 1 {
        assert(row == (width + 7) / 8 && x / 8 < row);
    } else if bits == 2 {
        assert(row == (width * 2 + 7) / 8 && x / 4 < row);
    } else {
        assert(row == (width * 4 + 7) / 8 && x / 2 < row);
    }
    assert(0 <= y * row && y * row + row <= row * height) by (nonlinear_arith)
        requires
            0 <= y < height,
            row >= 0,
    ;
}

fn read_packed(body: &[u8], width: usize, height: usize, palette: &[u32]) -> (r: Option<Vec<u32>>)
    requires
        0 < width <= TILE_SIZE,
        0 < height <= TILE_SIZE,
        2 <= palette@.len() <= 16,
        body@.len() == packed_row(width as int, index_bits(palette@.len() as int)) * height,
    ensures
        forall|pos: int|
            #![trigger packed_pixels(body@, width as int, height as int, palette@, pos)]
            packed_pixels(body@, width as int, height as int, palette@, pos) == match r {
                None => TileRead::Bad(unknown_index()),
                Some(colours) => TileRead::Done { colours: colours@, pos },
            },
        r matches Some(colours) ==> colours@.len() == width * height,
{
    let size: usize = palette.len();
    let bits: usize = if size <= 2 {
        1
    } else if size <= 4 {
        2
    } else {
        4
    };
    let mask: u8 = if bits == 1 {
        1
    } else if bits == 2 {
        3
    } else {
        15
    };
    let per: usize = 8 / bits;
    assert(width * bits <= 256) by (nonlinear_arith)
        requires
            width <= 64,
            bits <= 4,
    ;
    let row: usize = (width * bits + 7) / 8;
    assert(0 <= width * height <= 4096) by (nonlinear_arith)
        requires
            0 <= width <= 64,
            0 <= height <= 64,
    ;
    let n: usize = width * height;
    let mut out: Vec<u32> = Vec::new();
    let mut k: usize = 0;
    while k < n
        invariant
            k <= n,
            n == width * height,
            n <= 4096,
            0 < width <= TILE_SIZE,
            bits == index_bits(palette@.len() as int),
            bits == 1 || bits == 2 || bits == 4,
            mask == index_mask(bits as int),
            per == 8int / bits as int,
            row == packed_row(width as int, bits as int),
            body@.len() == row * height,
            out@.len() == k,
            forall|j: int|
                #![trigger packed_index(body@, width as int, bits as int, j)]
                0 <= j < k ==> packed_index(body@, width as int, bits as int, j) < palette@.len()
                    && out@[j] == palette@[packed_index(body@, width as int, bits as int, j)],
        decreases n - k,
    {
        proof {
            lemma_packed_place(k as int, width as int, height as int, bits as int);
            assert(body@.len() == body.len());
        }
        let col: usize = k % width;
        let byte: u8 = body[(k / width) * row + col / per];
        let shift: u8 = (8 - bits * (col % per + 1)) as u8;
        let index: usize = ((byte >> shift) & mask) as usize;
        assert(index == packed_index(body@, width as int, bits as int, k as int));
        if index >= palette.len() {
            return None;
        }
        out.push(palette[index]);
        k = k + 1;
    }
    assert(out@ =~= Seq::new(
        n as nat,
        |j: int| palette@[packed_index(body@, width as int, bits as int, j)],
    ));
    Some(out)
}

fn read_tile(
    input: &[u8],
    pos: usize,
    width: usize,
    height: usize,
    format: &PixelFormat,
) -> (r: Result<Option<(Vec<u32>, usize)>, VncError>)
    requires
        pos <= input@.len(),
        0 < width <= TILE_SIZE,
        0 < height <= TILE_SIZE,
    ensures
        tile_reports(
            r,
            tile_read(input@, pos as int, width as int, height as int, *format),
        ),
        r matches Ok(Some((colours, end))) ==> colours@.len() == width * height && end
            <= input@.len(),
{
    assert(0 <= width * height <= 4096) by (nonlinear_arith)
        requires
            0 <= width <= 64,
            0 <= height <= 64,
    ;
    let n: usize = width * height;
    let len: usize = format.bytes_per_cpixel();
    let total: usize = input.len();
    if pos >= total {
        return Ok(None);
    }
    let kind: u8 = input[pos];
    let a: usize = pos + 1;
    if kind == 0 {
        assert(0 <= n * len <= 4096 * 31) by (nonlinear_arith)
            requires
                0 <= n <= 4096,
                0 <= len <= 31,
        ;
        let size: usize = n * len;
        if total - a < size {
            return Ok(None);
        }
        let colours = read_ccolours(format, slice(input, a, a + size), n);
        return Ok(Some((colours, a + size)));
    }
    if kind == 1 {
        if total - a < len {
            return Ok(None);
        }
        let c: u32 = ccolour(format, slice(input, a, a + len));
        return Ok(Some((blank_raster(n, c), a + len)));
    }
    if kind <= 16 {
        assert(0 <= kind * len <= 16 * 31) by (nonlinear_arith)
            requires
                0 <= kind <= 16,
                0 <= len <= 31,
        ;
        let colours_len: usize = kind as usize * len;
        let bits: usize = if kind <= 2 {
            1
        } else if kind <= 4 {
            2
        } else {
            4
        };
        assert(0 <= width * bits <= 256) by (nonlinear_arith)
            requires
                0 <= width <= 64,
                0 <= bits <= 4,
        ;
        let row: usize = (width * bits + 7) / 8;
        assert(0 <= row * height <= 33 * 64) by (nonlinear_arith)
            requires
                0 <= row <= 33,
                0 <= height <= 64,
        ;
        let size: usize = row * height;
        if total - a < colours_len + size {
            return Ok(None);
        }
        let b: usize = a + colours_len;
        let palette = read_ccolours(format, slice(input, a, b), kind as usize);
        assert(palette@ == palette_at(input@, a as int, kind as nat, *format));
        return match read_packed(slice(input, b, b + size), width, height, &palette) {
            None => Err(protocol_error("ZRLE palette index out of range")),
            Some(colours) => Ok(Some((colours, b + size))),
        };
    }
    if kind < 128 {
        return Err(
            VncError::Protocol(
                concat_text("Invalid ZRLE subencoding: ", decimal(kind as u64).as_str()),
            ),
        );
    }
    if kind == 128 {
        return read_plain_runs(input, a, format, n);
    }
    let colours: usize = (kind - 128) as usize;
    assert(0 <= colours * len <= 127 * 31) by (nonlinear_arith)
        requires
            0 <= colours <= 127,
            0 <= len <= 31,
    ;
    let size: usize = colours * len;
    if total - a < size {
        return Ok(None);
    }
    let palette = read_ccolours(format, slice(input, a, a + size), colours);
    assert(palette@ == palette_at(input@, a as int, colours as nat, *format));
    read_palette_runs(input, a + size, &palette, n)
}

/// Decodes a rectangle of tiles.
pub fn decode_tiles(input: &[u8], width: usize, height: usize, format: &PixelFormat) -> (r: Result<
    Option<(Vec<u32>, usize)>,
    VncError,
>)
    requires
        width * height <= usize::MAX,
    ensures
        reports(r, tiles_decoded(input@, width as nat, height as nat, *format)),
        r matches Ok(Some((raster, used))) ==> raster@.len() == width * height && used
            <= input@.len(),
{
    let across: usize = count_along(width, TILE_SIZE);
    let down: usize = count_along(height, TILE_SIZE);
    assert(across * down <= width * height && 0 <= across * down) by (nonlinear_arith)
        requires
            0 <= across <= width,
            0 <= down <= height,
    ;
    let tiles: usize = across * down;
    let mut raster: Vec<u32> = blank_raster(width * height, 0);
    let mut pos: usize = 0;
    let mut t: usize = 0;
    while t < tiles
        invariant
            t <= tiles,
            width * height <= usize::MAX,
            across == tiles_along(width as nat, TILE_SIZE as nat),
            tiles == tile_count(width as nat, height as nat, TILE_SIZE as nat),
            raster@.len() == width * height,
            pos <= input@.len(),
            after_tiles(input@, width as nat, height as nat, *format, t as nat) == (Walk::At {
                raster: raster@,
                pos: pos as int,
            }),
        decreases tiles - t,
    {
        let tile = nth_tile(width, height, TILE_SIZE, across, t);
        match read_tile(input, pos, tile.width, tile.height, format) {
            Ok(Some((colours, end))) => {
                set_tile(
                    &mut raster,
                    width,
                    height,
                    tile.x,
                    tile.y,
                    tile.width,
                    tile.height,
                    &colours,
                );
                pos = end;
            },
            Ok(None) => {
                proof {
                    lemma_stays_stopped(
                        input@,
                        width as nat,
                        height as nat,
                        *format,
                        (t + 1) as nat,
                        tiles as nat,
                    );
                }
                return Ok(None);
            },
            Err(e) => {
                proof {
                    lemma_stays_stopped(
                        input@,
                        width as nat,
                        height as nat,
                        *format,
                        (t + 1) as nat,
                        tiles as nat,
                    );
                }
                return Err(e);
            },
        }
        t = t + 1;
    }
    Ok(Some((raster, pos)))
}

/// Decode a TRLE rectangle into the framebuffer. `None` asks for more bytes,
/// and then nothing has been painted.
pub fn decode(
    input: &[u8],
    framebuffer: &mut Framebuffer,
    x: usize,
    y: usize,
    width: usize,
    height: usize,
    pixel_format: &PixelFormat,
) -> (r: Result<Option<usize>, VncError>)
    requires
        width * height <= usize::MAX,
        old(framebuffer).addressable(x, y, width, height),
    ensures
        r matches Ok(Some(used)) ==> used <= input@.len(),
        painted(
            r,
            old(framebuffer)@,
            final(framebuffer)@,
            tiles_decoded(input@, width as nat, height as nat, *pixel_format),
            x as int,
            y as int,
            width as int,
            height as int,
        ),
{
    match decode_tiles(input, width, height, pixel_format) {
        Ok(None) => Ok(None),
        Ok(Some((raster, used))) => {
            paint(framebuffer, x, y, width, height, &raster);
            Ok(Some(used))
        },
        Err(e) => Err(e),
    }
}

} // verus!
