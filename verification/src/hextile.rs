//! Hextile decoder, encoding type 5.
//!
//! Hextile divides the rectangle into 16x16 tiles. A tile is raw, or a
//! background with rectangles on it; the two colours carry over from tile to
//! tile, and from rectangle to rectangle.

pub mod written;

use vstd::prelude::*;

use crate::error::VncError;
use crate::framebuffer::Framebuffer;
use crate::pixel_format::PixelFormat;
use crate::raster::{
    blank, blank_raster, colour, colour_of, colours_of, count_along, fill, filled, nth_tile, paint,
    painted, read_colours, set_tile, tile_at, tile_count, tiles_along, with_tile, Decoded, Tile,
};
use crate::wire::slice;

verus! {

/// The tile is a list of pixels.
pub const RAW: u8 = 1;

/// The tile has a background colour of its own.
pub const BACKGROUND_SPECIFIED: u8 = 2;

/// The tile has a foreground colour of its own.
pub const FOREGROUND_SPECIFIED: u8 = 4;

/// There are rectangles on the background.
pub const ANY_SUBRECTS: u8 = 8;

/// Each rectangle has a colour of its own.
pub const SUBRECTS_COLOURED: u8 = 16;

/// Pixels along the side of a tile.
pub const TILE_SIZE: usize = 16;

/// The colours that carry over.
#[derive(Debug, Clone, Copy, PartialEq, Eq, Structural)]
pub struct HextileState {
    pub background: u32,
    pub foreground: u32,
}

impl HextileState {
    /// Opaque black, before any tile.
    pub fn new() -> (r: Self)
        ensures
            r == (HextileState { background: 0xff, foreground: 0xff }),
    {
        HextileState { background: 0xff, foreground: 0xff }
    }
}

/// Where decoding stands: the raster so far, the colours, and the position in
/// the input.
pub struct Progress {
    pub raster: Seq<u32>,
    pub colours: HextileState,
    pub pos: int,
}

/// The raster after `n` rectangles on a tile. Each takes a colour, if they are
/// coloured, and two bytes for its position and size.
pub open spec fn after_subrects(
    raster: Seq<u32>,
    stride: int,
    tile: Tile,
    format: PixelFormat,
    foreground: u32,
    coloured: bool,
    body: Seq<u8>,
    n: nat,
) -> Seq<u32>
    decreases n,
{
    if n == 0 {
        raster
    } else {
        let len: int = if coloured {
            format.pixel_len() as int
        } else {
            0
        };
        let at = (n - 1) * (len + 2);
        let c = if coloured {
            colour_of(format, body.subrange(at, at + len))
        } else {
            foreground
        };
        let xy = body[at + len];
        let wh = body[at + len + 1];
        filled(
            after_subrects(
                raster,
                stride,
                tile,
                format,
                foreground,
                coloured,
                body,
                (n - 1) as nat,
            ),
            stride,
            tile.x + xy / 16,
            tile.y + xy % 16,
            wh / 16 + 1,
            wh % 16 + 1,
            c,
        )
    }
}

/// What one tile makes of the progress so far; `None` where bytes are missing.
pub open spec fn tile_step(
    s: Seq<u8>,
    stride: int,
    tile: Tile,
    format: PixelFormat,
    p: Progress,
) -> Option<Progress> {
    let len = format.pixel_len() as int;
    if p.pos >= s.len() {
        None
    } else if s[p.pos] & RAW != 0 {
        let end = p.pos + 1 + tile.width * tile.height * len;
        if end > s.len() {
            None
        } else {
            Some(
                Progress {
                    raster: with_tile(
                        p.raster,
                        stride,
                        tile.x as int,
                        tile.y as int,
                        tile.width as int,
                        tile.height as int,
                        colours_of(
                            format,
                            s.subrange(p.pos + 1, end),
                            (tile.width * tile.height) as nat,
                        ),
                    ),
                    colours: p.colours,
                    pos: end,
                },
            )
        }
    } else {
        let flags = s[p.pos];
        let own_back = flags & BACKGROUND_SPECIFIED != 0;
        let own_fore = flags & FOREGROUND_SPECIFIED != 0;
        let a = p.pos + 1;
        let b = if own_back {
            a + len
        } else {
            a
        };
        let c = if own_fore {
            b + len
        } else {
            b
        };
        if c > s.len() {
            None
        } else {
            let colours = HextileState {
                background: if own_back {
                    colour_of(format, s.subrange(a, b))
                } else {
                    p.colours.background
                },
                foreground: if own_fore {
                    colour_of(format, s.subrange(b, c))
                } else {
                    p.colours.foreground
                },
            };
            let raster = filled(
                p.raster,
                stride,
                tile.x as int,
                tile.y as int,
                tile.width as int,
                tile.height as int,
                colours.background,
            );
            if flags & ANY_SUBRECTS == 0 {
                Some(Progress { raster, colours, pos: c })
            } else if c >= s.len() {
                None
            } else {
                let coloured = flags & SUBRECTS_COLOURED != 0;
                let each = if coloured {
                    len + 2
                } else {
                    2
                };
                let end = c + 1 + s[c] * each;
                if end > s.len() {
                    None
                } else {
                    Some(
                        Progress {
                            raster: after_subrects(
                                raster,
                                stride,
                                tile,
                                format,
                                colours.foreground,
                                coloured,
                                s.subrange(c + 1, end),
                                s[c] as nat,
                            ),
                            colours,
                            pos: end,
                        },
                    )
                }
            }
        }
    }
}

/// Where decoding stands after `t` tiles; `None` where bytes are missing.
pub open spec fn after_tiles(
    s: Seq<u8>,
    width: nat,
    height: nat,
    format: PixelFormat,
    colours: HextileState,
    t: nat,
) -> Option<Progress>
    decreases t,
{
    if t == 0 {
        Some(Progress { raster: blank(width * height, 0), colours, pos: 0 })
    } else {
        match after_tiles(s, width, height, format, colours, (t - 1) as nat) {
            None => None,
            Some(p) => tile_step(
                s,
                width as int,
                tile_at(width, height, TILE_SIZE as nat, (t - 1) as nat),
                format,
                p,
            ),
        }
    }
}

/// Where decoding stands after the whole rectangle.
pub open spec fn after_all(
    s: Seq<u8>,
    width: nat,
    height: nat,
    format: PixelFormat,
    colours: HextileState,
) -> Option<Progress> {
    after_tiles(s, width, height, format, colours, tile_count(width, height, TILE_SIZE as nat))
}

/// What the bytes `s` say about a rectangle in this encoding.
pub open spec fn hextile_decoded(
    s: Seq<u8>,
    width: nat,
    height: nat,
    format: PixelFormat,
    colours: HextileState,
) -> Decoded {
    match after_all(s, width, height, format, colours) {
        None => Decoded::Incomplete,
        Some(p) => Decoded::Done { raster: p.raster, used: p.pos as nat },
    }
}

proof fn lemma_stays_short(
    s: Seq<u8>,
    width: nat,
    height: nat,
    format: PixelFormat,
    colours: HextileState,
    t: nat,
    n: nat,
)
    requires
        t <= n,
        after_tiles(s, width, height, format, colours, t) is None,
    ensures
        after_tiles(s, width, height, format, colours, n) is None,
    decreases n - t,
{
    if t < n {
        lemma_stays_short(s, width, height, format, colours, t + 1, n);
    }
}

fn decode_subrects(
    raster: &mut Vec<u32>,
    width: usize,
    height: usize,
    tile: &Tile,
    format: &PixelFormat,
    foreground: u32,
    coloured: bool,
    body: &[u8],
    n: u8,
)
    requires
        old(raster)@.len() == width * height,
        tile.x < width,
        tile.y < height,
        width <= 0xffff,
        height <= 0xffff,
        body@.len() == n * (if coloured {
            format.pixel_len() + 2
        } else {
            2
        }),
    ensures
        final(raster)@ == after_subrects(
            old(raster)@,
            width as int,
            *tile,
            *format,
            foreground,
            coloured,
            body@,
            n as nat,
        ),
        final(raster)@.len() == old(raster)@.len(),
{
    let ghost start = raster@;
    let len: usize = if coloured {
        format.bytes_per_pixel()
    } else {
        0
    };
    let mut i: u8 = 0;
    let mut at: usize = 0;
    while i < n
        invariant
            i <= n,
            len == if coloured {
                format.pixel_len() as int
            } else {
                0
            },
            at == i * (len + 2),
            body@.len() == n * (len + 2),
            tile.x < width,
            tile.y < height,
            width <= 0xffff,
            height <= 0xffff,
            raster@.len() == width * height,
            raster@.len() == start.len(),
            raster@ == after_subrects(
                start,
                width as int,
                *tile,
                *format,
                foreground,
                coloured,
                body@,
                i as nat,
            ),
        decreases n - i,
    {
        assert(at + (len + 2) <= n * (len + 2) && (i + 1) * (len + 2) == at + len + 2) by (
        nonlinear_arith)
            requires
                i < n,
                at == i * (len + 2),
                len >= 0,
        ;
        assert(body@.len() == body.len());
        let c: u32 = if coloured {
            colour(format, slice(body, at, at + len))
        } else {
            foreground
        };
        let xy: u8 = body[at + len];
        let wh: u8 = body[at + len + 1];
        fill(
            raster,
            width,
            height,
            tile.x + (xy / 16) as usize,
            tile.y + (xy % 16) as usize,
            (wh / 16) as usize + 1,
            (wh % 16) as usize + 1,
            c,
        );
        at = at + len + 2;
        i = i + 1;
    }
}

fn decode_tile(
    input: &[u8],
    raster: &mut Vec<u32>,
    width: usize,
    height: usize,
    tile: &Tile,
    format: &PixelFormat,
    colours: HextileState,
    pos: usize,
) -> (r: Option<(HextileState, usize)>)
    requires
        old(raster)@.len() == width * height,
        width <= 0xffff,
        height <= 0xffff,
        0 < tile.width <= TILE_SIZE,
        0 < tile.height <= TILE_SIZE,
        tile.x + tile.width <= width,
        tile.y + tile.height <= height,
        pos <= input@.len(),
    ensures
        ({
            let step = tile_step(
                input@,
                width as int,
                *tile,
                *format,
                Progress { raster: old(raster)@, colours, pos: pos as int },
            );
            match r {
                None => step is None,
                Some((next, end)) => step == Some(
                    Progress { raster: final(raster)@, colours: next, pos: end as int },
                ) && end <= input@.len() && final(raster)@.len() == old(raster)@.len(),
            }
        }),
{
    let n: usize = input.len();
    let len: usize = format.bytes_per_pixel();
    if pos >= n {
        return None;
    }
    let flags: u8 = input[pos];
    if flags & RAW != 0 {
        assert(0 <= tile.width * tile.height <= 256 && 0 <= tile.width * tile.height * len <= 256
            * 31) by (nonlinear_arith)
            requires
                0 <= tile.width <= 16,
                0 <= tile.height <= 16,
                0 <= len <= 31,
        ;
        let size: usize = tile.width * tile.height * len;
        if n - pos - 1 < size {
            return None;
        }
        let body = slice(input, pos + 1, pos + 1 + size);
        let px = read_colours(format, body, tile.width * tile.height);
        set_tile(raster, width, height, tile.x, tile.y, tile.width, tile.height, &px);
        return Some((colours, pos + 1 + size));
    }
    let a: usize = pos + 1;
    let own_back: bool = flags & BACKGROUND_SPECIFIED != 0;
    let own_fore: bool = flags & FOREGROUND_SPECIFIED != 0;
    let need: usize = (if own_back {
        len
    } else {
        0
    }) + (if own_fore {
        len
    } else {
        0
    });
    if n - a < need {
        return None;
    }
    let b: usize = if own_back {
        a + len
    } else {
        a
    };
    let c: usize = a + need;
    let next = HextileState {
        background: if own_back {
            colour(format, slice(input, a, b))
        } else {
            colours.background
        },
        foreground: if own_fore {
            colour(format, slice(input, b, c))
        } else {
            colours.foreground
        },
    };
    if flags & ANY_SUBRECTS == 0 {
        fill(
            raster,
            width,
            height,
            tile.x,
            tile.y,
            tile.width,
            tile.height,
            next.background,
        );
        return Some((next, c));
    }
    if c >= n {
        return None;
    }
    let count: u8 = input[c];
    let coloured: bool = flags & SUBRECTS_COLOURED != 0;
    let each: usize = if coloured {
        len + 2
    } else {
        2
    };
    assert(0 <= count * each <= 255 * 33) by (nonlinear_arith)
        requires
            0 <= count <= 255,
            0 <= each <= 33,
    ;
    let size: usize = count as usize * each;
    if n - c - 1 < size {
        return None;
    }
    fill(raster, width, height, tile.x, tile.y, tile.width, tile.height, next.background);
    decode_subrects(
        raster,
        width,
        height,
        tile,
        format,
        next.foreground,
        coloured,
        slice(input, c + 1, c + 1 + size),
        count,
    );
    Some((next, c + 1 + size))
}

/// Decodes a rectangle, and the colours that carry over to the next one.
pub fn decode_raster(
    input: &[u8],
    width: usize,
    height: usize,
    format: &PixelFormat,
    state: HextileState,
) -> (r: Option<(Vec<u32>, HextileState, usize)>)
    requires
        width <= 0xffff,
        height <= 0xffff,
        width * height <= usize::MAX,
    ensures
        ({
            let d = after_all(input@, width as nat, height as nat, *format, state);
            match r {
                None => d is None,
                Some((raster, colours, used)) => d == Some(
                    Progress { raster: raster@, colours, pos: used as int },
                ) && raster@.len() == width * height && used <= input@.len(),
            }
        }),
{
    let across: usize = count_along(width, TILE_SIZE);
    let down: usize = count_along(height, TILE_SIZE);
    assert(across * down <= width * height && 0 <= across * down) by (nonlinear_arith)
        requires
            0 <= across <= width,
            0 <= down <= height,
    ;
    let tiles: usize = across * down;
    let mut raster: Vec<u32> = blank_raster(width * height, 0);
    let mut colours: HextileState = state;
    let mut pos: usize = 0;
    let mut t: usize = 0;
    while t < tiles
        invariant
            t <= tiles,
            width <= 0xffff,
            height <= 0xffff,
            width * height <= usize::MAX,
            across == tiles_along(width as nat, TILE_SIZE as nat),
            tiles == tile_count(width as nat, height as nat, TILE_SIZE as nat),
            raster@.len() == width * height,
            pos <= input@.len(),
            after_tiles(input@, width as nat, height as nat, *format, state, t as nat) == Some(
                Progress { raster: raster@, colours, pos: pos as int },
            ),
        decreases tiles - t,
    {
        let tile = nth_tile(width, height, TILE_SIZE, across, t);
        match decode_tile(input, &mut raster, width, height, &tile, format, colours, pos) {
            None => {
                proof {
                    assert(after_tiles(
                        input@,
                        width as nat,
                        height as nat,
                        *format,
                        state,
                        (t + 1) as nat,
                    ) is None);
                    lemma_stays_short(
                        input@,
                        width as nat,
                        height as nat,
                        *format,
                        state,
                        (t + 1) as nat,
                        tiles as nat,
                    );
                }
                return None;
            },
            Some((next, end)) => {
                colours = next;
                pos = end;
            },
        }
        t = t + 1;
    }
    Some((raster, colours, pos))
}

/// Decode a Hextile-encoded rectangle into the framebuffer. `None` asks for
/// more bytes, and then nothing has been painted and no colour has changed.
pub fn decode(
    input: &[u8],
    fb: &mut Framebuffer,
    rect_x: usize,
    rect_y: usize,
    rect_w: usize,
    rect_h: usize,
    pixel_format: &PixelFormat,
    state: &mut HextileState,
) -> (r: Result<Option<usize>, VncError>)
    requires
        rect_w <= 0xffff,
        rect_h <= 0xffff,
        rect_w * rect_h <= usize::MAX,
        old(fb).addressable(rect_x, rect_y, rect_w, rect_h),
    ensures
        r matches Ok(Some(used)) ==> used <= input@.len(),
        painted(
            r,
            old(fb)@,
            final(fb)@,
            hextile_decoded(input@, rect_w as nat, rect_h as nat, *pixel_format, *old(state)),
            rect_x as int,
            rect_y as int,
            rect_w as int,
            rect_h as int,
        ),
        *final(state) == match after_all(
            input@,
            rect_w as nat,
            rect_h as nat,
            *pixel_format,
            *old(state),
        ) {
            Some(p) => p.colours,
            None => *old(state),
        },
{
    match decode_raster(input, rect_w, rect_h, pixel_format, *state) {
        None => Ok(None),
        Some((raster, colours, used)) => {
            paint(fb, rect_x, rect_y, rect_w, rect_h, &raster);
            *state = colours;
            Ok(Some(used))
        },
    }
}

} // verus!
