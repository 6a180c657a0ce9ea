//! A rectangle of colours while it is being decoded.
//!
//! A colour is a packed number: its bytes, most significant first, are red,
//! green, blue and alpha.

use vstd::prelude::*;

use crate::error::{Failure, VncError};
use crate::framebuffer::{Framebuffer, Image};
use crate::pixel_format::PixelFormat;
use crate::wire::{be32, push_u32, slice, u32_at, u32_of};

verus! {

/// The colour of a pixel.
pub open spec fn colour_of(format: PixelFormat, px: Seq<u8>) -> u32 {
    u32_of(format.rgba_of(px), 0)
}

/// The colour of a pixel in the tiled encodings.
pub open spec fn ccolour_of(format: PixelFormat, px: Seq<u8>) -> u32 {
    u32_of(format.crgba_of(px), 0)
}

/// `n` pixels of one colour.
pub open spec fn blank(n: nat, colour: u32) -> Seq<u32> {
    Seq::new(n, |i: int| colour)
}

/// A raster of `stride` pixels per row with a rectangle painted in one colour.
/// What lies outside the raster is left out.
pub open spec fn filled(
    raster: Seq<u32>,
    stride: int,
    x: int,
    y: int,
    width: int,
    height: int,
    colour: u32,
) -> Seq<u32> {
    Seq::new(
        raster.len(),
        |p: int|
            if x <= p % stride < x + width && y <= p / stride < y + height {
                colour
            } else {
                raster[p]
            },
    )
}

/// A raster as bytes.
pub open spec fn raster_bytes(raster: Seq<u32>) -> Seq<u8> {
    Seq::new(4 * raster.len(), |i: int| be32(raster[i / 4])[i % 4])
}

/// Reads the colour of a pixel.
pub fn colour(format: &PixelFormat, px: &[u8]) -> (r: u32)
    ensures
        r == colour_of(*format, px@),
{
    let rgba = format.to_rgba(px);
    u32_at(rgba.as_slice(), 0)
}

/// Reads the colour of a pixel in the tiled encodings.
pub fn ccolour(format: &PixelFormat, px: &[u8]) -> (r: u32)
    ensures
        r == ccolour_of(*format, px@),
{
    let rgba = format.cpixel_to_rgba(px);
    u32_at(rgba.as_slice(), 0)
}

/// Makes `n` pixels of one colour.
pub fn blank_raster(n: usize, colour: u32) -> (r: Vec<u32>)
    ensures
        r@ == blank(n as nat, colour),
{
    let r = vec![colour; n];
    assert(r@ =~= blank(n as nat, colour));
    r
}

/// A pixel's place in the raster gives its column and its row back.
pub proof fn lemma_place(x: int, y: int, stride: int)
    requires
        0 <= x < stride,
        0 <= y,
    ensures
        (y * stride + x) / stride == y,
        (y * stride + x) % stride == x,
        y * stride >= 0,
{
    vstd::arithmetic::div_mod::lemma_fundamental_div_mod_converse(y * stride + x, stride, y, x);
    assert(y * stride >= 0) by (nonlinear_arith)
        requires
            y >= 0,
            stride >= 0,
    ;
}

/// A place inside a raster of whole rows lies in one of the rows.
pub proof fn lemma_place_in(p: int, stride: int, rows: int)
    requires
        0 <= p < stride * rows,
        0 < stride,
    ensures
        0 <= p / stride < rows,
        0 <= p % stride < stride,
        p == (p / stride) * stride + p % stride,
{
    vstd::arithmetic::div_mod::lemma_fundamental_div_mod(p, stride);
    vstd::arithmetic::div_mod::lemma_mod_division_less_than_divisor(p, stride);
    assert(0 <= p / stride < rows) by (nonlinear_arith)
        requires
            p == stride * (p / stride) + p % stride,
            0 <= p % stride < stride,
            0 <= p < stride * rows,
    ;
    assert(stride * (p / stride) == (p / stride) * stride) by (nonlinear_arith);
}

/// Paints a rectangle in one colour.
pub fn fill(
    raster: &mut Vec<u32>,
    stride: usize,
    rows: usize,
    x: usize,
    y: usize,
    width: usize,
    height: usize,
    colour: u32,
)
    requires
        old(raster)@.len() == stride * rows,
    ensures
        final(raster)@ == filled(
            old(raster)@,
            stride as int,
            x as int,
            y as int,
            width as int,
            height as int,
            colour,
        ),
{
    let ghost before = raster@;
    if x < stride && y < rows {
        let right: usize = if width < stride - x {
            x + width
        } else {
            stride
        };
        let bottom: usize = if height < rows - y {
            y + height
        } else {
            rows
        };
        let mut row: usize = y;
        while row < bottom
            invariant
                y <= row <= bottom <= rows,
                x <= right <= stride,
                x < stride,
                raster@.len() == before.len(),
                before.len() == stride * rows,
                forall|p: int|
                    0 <= p < before.len() ==> #[trigger] raster@[p] == if x <= p % (stride as int)
                        < right && y <= p / (stride as int) < row {
                        colour
                    } else {
                        before[p]
                    },
            decreases bottom - row,
        {
            let mut col: usize = x;
            while col < right
                invariant
                    y <= row < bottom <= rows,
                    x <= col <= right <= stride,
                    x < stride,
                    raster@.len() == before.len(),
                    before.len() == stride * rows,
                    forall|p: int|
                        0 <= p < before.len() ==> #[trigger] raster@[p] == if x <= p % (
                        stride as int) < right && y <= p / (stride as int) && (p / (stride as int)
                            < row || (p / (stride as int) == row && p % (stride as int) < col)) {
                            colour
                        } else {
                            before[p]
                        },
                decreases right - col,
            {
                proof {
                    lemma_place(col as int, row as int, stride as int);
                    assert(row * stride + col < stride * rows) by (nonlinear_arith)
                        requires
                            row < rows,
                            col < stride,
                    ;
                    assert(raster@.len() == raster.len());
                }
                let at: usize = row * stride + col;
                let ghost prior = raster@;
                raster[at] = colour;
                proof {
                    assert forall|p: int| 0 <= p < before.len() implies #[trigger] raster@[p] == if x
                        <= p % (stride as int) < right && y <= p / (stride as int) && (p / (
                    stride as int) < row || (p / (stride as int) == row && p % (stride as int)
                        < col + 1)) {
                        colour
                    } else {
                        before[p]
                    } by {
                        lemma_place_in(p, stride as int, rows as int);
                        if p != at {
                            assert(raster@[p] == prior[p]);
                        }
                    }
                }
                col = col + 1;
            }
            row = row + 1;
        }
        proof {
            assert forall|p: int| 0 <= p < before.len() implies raster@[p] == filled(
                before,
                stride as int,
                x as int,
                y as int,
                width as int,
                height as int,
                colour,
            )[p] by {
                lemma_place_in(p, stride as int, rows as int);
            }
        }
    } else {
        proof {
            assert forall|p: int| 0 <= p < before.len() implies before[p] == filled(
                before,
                stride as int,
                x as int,
                y as int,
                width as int,
                height as int,
                colour,
            )[p] by {
                assert(stride > 0) by (nonlinear_arith)
                    requires
                        0 <= p < stride * rows,
                        stride >= 0,
                ;
                lemma_place_in(p, stride as int, rows as int);
            }
        }
    }
    assert(raster@ =~= filled(
        before,
        stride as int,
        x as int,
        y as int,
        width as int,
        height as int,
        colour,
    ));
}

/// Writes a raster as bytes.
pub fn to_bytes(raster: &[u32]) -> (r: Vec<u8>)
    ensures
        r@ == raster_bytes(raster@),
{
    let mut out: Vec<u8> = Vec::new();
    let n: usize = raster.len();
    let mut i: usize = 0;
    while i < n
        invariant
            n == raster@.len(),
            i <= n,
            out@ == raster_bytes(raster@.take(i as int)),
        decreases n - i,
    {
        push_u32(&mut out, raster[i]);
        i = i + 1;
        assert(out@ =~= raster_bytes(raster@.take(i as int)));
    }
    assert(raster@.take(n as int) =~= raster@);
    out
}

/// What the bytes received so far say about an encoded rectangle.
pub enum Decoded {
    /// More bytes are needed.
    Incomplete,
    /// The bytes are not a rectangle in this encoding.
    Refused(Failure),
    /// The rectangle, and how many bytes it took.
    Done { raster: Seq<u32>, used: nat },
}

/// Whether an outcome reports what `d` says.
pub open spec fn reports(r: Result<Option<(Vec<u32>, usize)>, VncError>, d: Decoded) -> bool {
    match r {
        Ok(None) => d is Incomplete,
        Ok(Some((raster, used))) => d == (Decoded::Done { raster: raster@, used: used as nat }),
        Err(e) => d == Decoded::Refused(e@),
    }
}

impl Image {
    /// The image with a raster painted at `(x, y)`.
    pub open spec fn with_raster(
        self,
        x: int,
        y: int,
        width: int,
        height: int,
        raster: Seq<u32>,
    ) -> Image {
        self.with_region(x, y, width, height, raster_bytes(raster), PixelFormat::rgba())
    }
}

/// Paints a raster at `(x, y)`.
pub fn paint(
    fb: &mut Framebuffer,
    x: usize,
    y: usize,
    width: usize,
    height: usize,
    raster: &[u32],
)
    requires
        old(fb).addressable(x, y, width, height),
        raster@.len() == width * height,
    ensures
        final(fb)@ == old(fb)@.with_raster(
            x as int,
            y as int,
            width as int,
            height as int,
            raster@,
        ),
        final(fb)@.data.len() == old(fb)@.data.len(),
{
    let bytes = to_bytes(raster);
    assert(height > 0 ==> (height - 1) * (width * 4) <= width * height * 4) by (nonlinear_arith)
        requires
            width >= 0,
            height >= 0,
    ;
    fb.write_region(x, y, width, height, &bytes, &PixelFormat::rgba32());
}

/// Whether a decoder's outcome and the image it leaves follow from what the
/// bytes say: a rectangle is painted, anything else leaves the image alone.
pub open spec fn painted(
    r: Result<Option<usize>, VncError>,
    before: Image,
    after: Image,
    d: Decoded,
    x: int,
    y: int,
    width: int,
    height: int,
) -> bool {
    match d {
        Decoded::Incomplete => r matches Ok(None) && after == before,
        Decoded::Refused(e) => r matches Err(f) && f@ == e && after == before,
        Decoded::Done { raster, used } => r matches Ok(Some(n)) && n == used && after
            == before.with_raster(x, y, width, height, raster),
    }
}

/// A raster with the colours of a tile, row by row, at `(x, y)`.
pub open spec fn with_tile(
    raster: Seq<u32>,
    stride: int,
    x: int,
    y: int,
    width: int,
    height: int,
    colours: Seq<u32>,
) -> Seq<u32> {
    Seq::new(
        raster.len(),
        |p: int|
            if x <= p % stride < x + width && y <= p / stride < y + height {
                colours[(p / stride - y) * width + (p % stride - x)]
            } else {
                raster[p]
            },
    )
}

/// Puts the colours of a tile into a raster.
pub fn set_tile(
    raster: &mut Vec<u32>,
    stride: usize,
    rows: usize,
    x: usize,
    y: usize,
    width: usize,
    height: usize,
    colours: &[u32],
)
    requires
        old(raster)@.len() == stride * rows,
        x + width <= stride,
        y + height <= rows,
        colours@.len() == width * height,
        width > 0,
    ensures
        final(raster)@ == with_tile(
            old(raster)@,
            stride as int,
            x as int,
            y as int,
            width as int,
            height as int,
            colours@,
        ),
{
    let ghost before = raster@;
    let mut row: usize = 0;
    while row < height
        invariant
            row <= height,
            x + width <= stride,
            y + height <= rows,
            width > 0,
            colours@.len() == width * height,
            raster@.len() == before.len(),
            before.len() == stride * rows,
            forall|p: int|
                0 <= p < before.len() ==> #[trigger] raster@[p] == if x <= p % (stride as int) < x
                    + width && y <= p / (stride as int) < y + row {
                    colours@[(p / (stride as int) - y) * width + (p % (stride as int) - x)]
                } else {
                    before[p]
                },
        decreases height - row,
    {
        let mut col: usize = 0;
        while col < width
            invariant
                row < height,
                col <= width,
                x + width <= stride,
                y + height <= rows,
                width > 0,
                colours@.len() == width * height,
                raster@.len() == before.len(),
                before.len() == stride * rows,
                forall|p: int|
                    0 <= p < before.len() ==> #[trigger] raster@[p] == if x <= p % (stride as int)
                        < x + width && y <= p / (stride as int) && (p / (stride as int) < y + row
                        || (p / (stride as int) == y + row && p % (stride as int) < x + col)) {
                        colours@[(p / (stride as int) - y) * width + (p % (stride as int) - x)]
                    } else {
                        before[p]
                    },
            decreases width - col,
        {
            proof {
                lemma_place((x + col) as int, (y + row) as int, stride as int);
                assert((y + row) * stride + (x + col) < stride * rows) by (nonlinear_arith)
                    requires
                        y + row < rows,
                        x + col < stride,
                ;
                assert(0 <= row * width && row * width + col < width * height) by (nonlinear_arith)
                    requires
                        0 <= row < height,
                        0 <= col < width,
                ;
                assert(raster@.len() == raster.len());
                assert(colours@.len() == colours.len());
            }
            let at: usize = (y + row) * stride + (x + col);
            let ghost prior = raster@;
            raster[at] = colours[row * width + col];
            proof {
                assert forall|p: int| 0 <= p < before.len() implies #[trigger] raster@[p] == if x
                    <= p % (stride as int) < x + width && y <= p / (stride as int) && (p / (
                stride as int) < y + row || (p / (stride as int) == y + row && p % (stride as int)
                    < x + col + 1)) {
                    colours@[(p / (stride as int) - y) * width + (p % (stride as int) - x)]
                } else {
                    before[p]
                } by {
                    lemma_place_in(p, stride as int, rows as int);
                    if p != at {
                        assert(raster@[p] == prior[p]);
                    }
                }
            }
            col = col + 1;
        }
        row = row + 1;
    }
    assert(raster@ =~= with_tile(
        before,
        stride as int,
        x as int,
        y as int,
        width as int,
        height as int,
        colours@,
    ));
}

/// The colours of `n` pixels.
pub open spec fn colours_of(format: PixelFormat, body: Seq<u8>, n: nat) -> Seq<u32> {
    let len = format.pixel_len();
    Seq::new(n, |k: int| colour_of(format, body.subrange(k * len, k * len + len)))
}

/// Reads the colours of `n` pixels.
pub fn read_colours(format: &PixelFormat, body: &[u8], n: usize) -> (r: Vec<u32>)
    requires
        body@.len() == n * format.pixel_len(),
    ensures
        r@ == colours_of(*format, body@, n as nat),
{
    let len: usize = format.bytes_per_pixel();
    let mut out: Vec<u32> = Vec::new();
    let mut k: usize = 0;
    let mut at: usize = 0;
    while k < n
        invariant
            k <= n,
            len == format.pixel_len(),
            at == k * len,
            body@.len() == n * len,
            out@ == colours_of(*format, body@, k as nat),
        decreases n - k,
    {
        assert(at + len <= n * len && (k + 1) * len == at + len) by (nonlinear_arith)
            requires
                k < n,
                at == k * len,
                len >= 0,
        ;
        assert(body@.len() == body.len());
        out.push(colour(format, slice(body, at, at + len)));
        at = at + len;
        k = k + 1;
        assert(out@ =~= colours_of(*format, body@, k as nat));
    }
    out
}

/// One tile of a rectangle that is cut into squares, row by row.
pub struct Tile {
    pub x: usize,
    pub y: usize,
    pub width: usize,
    pub height: usize,
}

/// How many squares of `side` pixels a length takes.
pub open spec fn tiles_along(length: nat, side: nat) -> nat {
    (length + side - 1) as nat / side
}

/// How many tiles a rectangle is cut into.
pub open spec fn tile_count(width: nat, height: nat, side: nat) -> nat {
    tiles_along(width, side) * tiles_along(height, side)
}

/// The `t`-th tile of a rectangle.
pub open spec fn tile_at(width: nat, height: nat, side: nat, t: nat) -> Tile {
    let across = tiles_along(width, side);
    let x = (t % across) * side;
    let y = (t / across) * side;
    Tile {
        x: x as usize,
        y: y as usize,
        width: (if x + side <= width {
            side as int
        } else {
            width - x
        }) as usize,
        height: (if y + side <= height {
            side as int
        } else {
            height - y
        }) as usize,
    }
}

proof fn lemma_last_tile(length: int, side: int, k: int)
    requires
        0 <= length,
        0 < side,
        0 <= k < (length + side - 1) / side,
    ensures
        0 <= k * side < length,
{
    let n = (length + side - 1) / side;
    vstd::arithmetic::div_mod::lemma_fundamental_div_mod(length + side - 1, side);
    vstd::arithmetic::div_mod::lemma_mod_division_less_than_divisor(length + side - 1, side);
    assert(0 <= k * side < length) by (nonlinear_arith)
        requires
            0 <= k < n,
            0 < side,
            length + side - 1 == side * n + (length + side - 1) % side,
            0 <= (length + side - 1) % side < side,
    ;
}

/// Every tile lies inside the rectangle and has at least one pixel.
pub proof fn lemma_tile_inside(width: nat, height: nat, side: nat, t: nat)
    requires
        0 < side,
        t < tile_count(width, height, side),
        width <= usize::MAX,
        height <= usize::MAX,
    ensures
        ({
            let tile = tile_at(width, height, side, t);
            &&& 0 < tile.width <= side
            &&& 0 < tile.height <= side
            &&& tile.x + tile.width <= width
            &&& tile.y + tile.height <= height
            &&& tile.x == (t % tiles_along(width, side)) * side
            &&& tile.y == (t / tiles_along(width, side)) * side
            &&& tile.width == if tile.x + side <= width { side as int } else { width - tile.x }
            &&& tile.height == if tile.y + side <= height { side as int } else { height - tile.y }
        }),
{
    let across = tiles_along(width, side);
    let down = tiles_along(height, side);
    assert(across > 0) by (nonlinear_arith)
        requires
            t < across * down,
            t >= 0,
            across >= 0,
    ;
    lemma_place_in(t as int, across as int, down as int);
    lemma_last_tile(width as int, side as int, (t % across) as int);
    lemma_last_tile(height as int, side as int, (t / across) as int);
}

/// Counts the tiles along a length.
pub fn count_along(length: usize, side: usize) -> (r: usize)
    requires
        0 < side <= 64,
    ensures
        r == tiles_along(length as nat, side as nat),
        r <= length,
{
    proof {
        vstd::arithmetic::div_mod::lemma_fundamental_div_mod(length + side - 1, side as int);
        vstd::arithmetic::div_mod::lemma_fundamental_div_mod(length as int, side as int);
        let (q, m) = (length as int / side as int, length as int % side as int);
        assert((q + 1) * side == side * q + side && q * side == side * q) by (nonlinear_arith);
        if m == 0 {
            vstd::arithmetic::div_mod::lemma_fundamental_div_mod_converse(
                length + side - 1,
                side as int,
                q,
                side - 1,
            );
        } else {
            vstd::arithmetic::div_mod::lemma_fundamental_div_mod_converse(
                length + side - 1,
                side as int,
                q + 1,
                m - 1,
            );
        }
        assert(q <= length && (m > 0 ==> q + 1 <= length)) by (nonlinear_arith)
            requires
                length == side * q + m,
                side >= 1,
                m >= 0,
                q >= 0,
        ;
    }
    if length % side == 0 {
        length / side
    } else {
        length / side + 1
    }
}

/// Finds the `t`-th tile.
pub fn nth_tile(width: usize, height: usize, side: usize, across: usize, t: usize) -> (r: Tile)
    requires
        0 < side <= 64,
        across == tiles_along(width as nat, side as nat),
        t < tile_count(width as nat, height as nat, side as nat),
    ensures
        r == tile_at(width as nat, height as nat, side as nat, t as nat),
        0 < r.width <= side,
        0 < r.height <= side,
        r.x + r.width <= width,
        r.y + r.height <= height,
{
    proof {
        lemma_tile_inside(width as nat, height as nat, side as nat, t as nat);
        assert(across > 0) by (nonlinear_arith)
            requires
                t < across * tiles_along(height as nat, side as nat),
                t >= 0,
                across >= 0,
        ;
    }
    let x: usize = (t % across) * side;
    let y: usize = (t / across) * side;
    Tile {
        x,
        y,
        width: if side <= width - x {
            side
        } else {
            width - x
        },
        height: if side <= height - y {
            side
        } else {
            height - y
        },
    }
}

} // verus!
