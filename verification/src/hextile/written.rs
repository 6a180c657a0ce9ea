//! Tiles as a server writes them, and how they are read back.

use vstd::prelude::*;

use super::{
    after_all, after_subrects, after_tiles, hextile_decoded, tile_step, HextileState, Progress,
};
use crate::pixel_format::PixelFormat;
use crate::raster::{
    colour_of, colours_of, lemma_place, lemma_place_in, lemma_tile_inside, tile_at, tile_count,
    Decoded, Tile,
};
use crate::trle::written::{lemma_owner, lesser, owner};
use crate::wire::{holds, lemma_holds_both, lemma_joined, lemma_joined_part};

verus! {

/// A rectangle on the background of a tile, placed from the tile's corner. Its
/// pixel counts only where each rectangle has a colour of its own.
pub struct Patch {
    pub x: int,
    pub y: int,
    pub width: int,
    pub height: int,
    pub pixel: Seq<u8>,
}

impl Patch {
    /// Whether the patch covers a place of the tile.
    pub open spec fn covers(self, i: int, j: int) -> bool {
        self.x <= i < self.x + self.width && self.y <= j < self.y + self.height
    }

    /// Whether the patch lies inside a tile of `w` by `h` pixels.
    pub open spec fn fits(self, w: int, h: int) -> bool {
        &&& 0 <= self.x
        &&& 0 <= self.y
        &&& 1 <= self.width
        &&& 1 <= self.height
        &&& self.x + self.width <= w <= 16
        &&& self.y + self.height <= h <= 16
    }

    /// The patch on the wire: its pixel, if each has one, column and row in one
    /// byte, and one less than width and height in another.
    pub open spec fn bytes(self, coloured: bool) -> Seq<u8> {
        (if coloured {
            self.pixel
        } else {
            Seq::empty()
        }) + seq![
            (self.x * 16 + self.y) as u8,
            ((self.width - 1) * 16 + (self.height - 1)) as u8,
        ]
    }
}

/// A tile as a server writes it. Pixels are given by their bytes.
pub enum WrittenTile {
    /// Every pixel.
    Raw { pixels: Seq<Seq<u8>> },
    /// A background with patches on it. A colour that is left out is the one
    /// that the tile before had.
    Painted {
        background: Option<Seq<u8>>,
        foreground: Option<Seq<u8>>,
        patches: Option<Seq<Patch>>,
        coloured: bool,
    },
}

/// A pixel that may be left out.
pub open spec fn optional(pixel: Option<Seq<u8>>) -> Seq<u8> {
    match pixel {
        Some(px) => px,
        None => Seq::empty(),
    }
}

/// The patches on the wire, each on its own.
pub open spec fn patch_parts(patches: Seq<Patch>, coloured: bool) -> Seq<Seq<u8>> {
    Seq::new(patches.len(), |i: int| patches[i].bytes(coloured))
}

/// The patches on the wire, behind their number.
pub open spec fn patches_bytes(patches: Option<Seq<Patch>>, coloured: bool) -> Seq<u8> {
    match patches {
        Some(list) => seq![list.len() as u8] + patch_parts(list, coloured).flatten(),
        None => Seq::empty(),
    }
}

/// The first byte of a tile that is not raw.
pub open spec fn flags_of(back: bool, fore: bool, any: bool, coloured: bool) -> u8 {
    ((if back {
        2int
    } else {
        0
    }) + (if fore {
        4int
    } else {
        0
    }) + (if any {
        8int
    } else {
        0
    }) + (if coloured {
        16int
    } else {
        0
    })) as u8
}

/// The colour of a place under the first `n` patches: that of the last patch
/// that covers it, or what lies below.
pub open spec fn patched(
    patches: Seq<Patch>,
    n: nat,
    format: PixelFormat,
    coloured: bool,
    foreground: u32,
    i: int,
    j: int,
    below: u32,
) -> u32
    decreases n,
{
    if n == 0 {
        below
    } else if patches[n - 1].covers(i, j) {
        if coloured {
            colour_of(format, patches[n - 1].pixel)
        } else {
            foreground
        }
    } else {
        patched(patches, (n - 1) as nat, format, coloured, foreground, i, j, below)
    }
}

impl WrittenTile {
    /// Whether this can be written for a tile of `w` by `h` pixels.
    pub open spec fn valid(self, format: PixelFormat, w: int, h: int) -> bool {
        let len = format.pixel_len();
        match self {
            WrittenTile::Raw { pixels } => pixels.len() == w * h && forall|i: int|
                0 <= i < pixels.len() ==> (#[trigger] pixels[i]).len() == len,
            WrittenTile::Painted { background, foreground, patches, coloured } => {
                &&& background matches Some(px) ==> px.len() == len
                &&& foreground matches Some(px) ==> px.len() == len
                &&& patches matches Some(list) ==> list.len() <= 255 && forall|i: int|
                    0 <= i < list.len() ==> (#[trigger] list[i]).fits(w, h) && list[i].pixel.len()
                        == len
            },
        }
    }

    /// The bytes of the tile.
    pub open spec fn bytes(self) -> Seq<u8> {
        match self {
            WrittenTile::Raw { pixels } => seq![1u8] + pixels.flatten(),
            WrittenTile::Painted { background, foreground, patches, coloured } => seq![
                flags_of(background is Some, foreground is Some, patches is Some, coloured),
            ] + optional(background) + optional(foreground) + patches_bytes(patches, coloured),
        }
    }

    /// The colours that the next tile inherits: each is the tile's own where it
    /// names one, and otherwise the one that it has inherited itself.
    pub open spec fn passes_on(self, format: PixelFormat, inherited: HextileState) -> HextileState {
        match self {
            WrittenTile::Raw { pixels } => inherited,
            WrittenTile::Painted { background, foreground, patches, coloured } => HextileState {
                background: match background {
                    Some(px) => colour_of(format, px),
                    None => inherited.background,
                },
                foreground: match foreground {
                    Some(px) => colour_of(format, px),
                    None => inherited.foreground,
                },
            },
        }
    }

    /// The colour of a place of the tile, which has `w` pixels per row.
    pub open spec fn shown(
        self,
        format: PixelFormat,
        inherited: HextileState,
        w: int,
        i: int,
        j: int,
    ) -> u32 {
        match self {
            WrittenTile::Raw { pixels } => colour_of(format, pixels[j * w + i]),
            WrittenTile::Painted { background, foreground, patches, coloured } => {
                let own = self.passes_on(format, inherited);
                match patches {
                    Some(list) => patched(
                        list,
                        list.len(),
                        format,
                        coloured,
                        own.foreground,
                        i,
                        j,
                        own.background,
                    ),
                    None => own.background,
                }
            },
        }
    }
}

proof fn lemma_flags(back: bool, fore: bool, any: bool, coloured: bool)
    ensures
        ({
            let f = flags_of(back, fore, any, coloured);
            &&& f & 1 == 0
            &&& (f & 2 != 0) == back
            &&& (f & 4 != 0) == fore
            &&& (f & 8 != 0) == any
            &&& (f & 16 != 0) == coloured
        }),
{
    let f = flags_of(back, fore, any, coloured);
    assert(f & 1 == f % 2 && ((f & 2 != 0) == (f / 2 % 2 == 1)) && ((f & 4 != 0) == (f / 4 % 2
        == 1)) && ((f & 8 != 0) == (f / 8 % 2 == 1)) && ((f & 16 != 0) == (f / 16 % 2 == 1)))
        by (bit_vector);
}

#[verifier::spinoff_prover]
proof fn lemma_patch_at(
    patches: Seq<Patch>,
    coloured: bool,
    format: PixelFormat,
    tile: Tile,
    k: int,
    len: int,
)
    requires
        0 <= k < patches.len(),
        forall|i: int|
            0 <= i < patches.len() ==> (#[trigger] patches[i]).fits(
                tile.width as int,
                tile.height as int,
            ) && patches[i].pixel.len() == format.pixel_len(),
        len == if coloured {
            format.pixel_len() as int
        } else {
            0
        },
    ensures
        ({
            let body = patch_parts(patches, coloured).flatten();
            let at = k * (len + 2);
            &&& coloured ==> body.subrange(at, at + len) == patches[k].pixel
            &&& body[at + len] / 16 == patches[k].x
            &&& body[at + len] % 16 == patches[k].y
            &&& body[at + len + 1] / 16 + 1 == patches[k].width
            &&& body[at + len + 1] % 16 + 1 == patches[k].height
        }),
{
    let parts = patch_parts(patches, coloured);
    let body = parts.flatten();
    assert forall|i: int| 0 <= i < parts.len() implies (#[trigger] parts[i]).len() == len + 2 by {
        assert(patches[i].fits(tile.width as int, tile.height as int));
    }
    lemma_joined_part(parts, len + 2, k);
    let at = k * (len + 2);
    let patch = patches[k];
    let part = body.subrange(at, at + (len + 2));
    assert(part == patch.bytes(coloured));
    assert(patch.fits(tile.width as int, tile.height as int));
    assert(body[at + len] == part[len] && body[at + len + 1] == part[len + 1]);
    assert(part[len] == (patch.x * 16 + patch.y) as u8);
    assert(part[len + 1] == ((patch.width - 1) * 16 + (patch.height - 1)) as u8);
    if coloured {
        assert(body.subrange(at, at + len) =~= patch.pixel);
    }
}

#[verifier::spinoff_prover]
proof fn lemma_patches_read_back(
    raster: Seq<u32>,
    stride: int,
    rows: int,
    tile: Tile,
    format: PixelFormat,
    foreground: u32,
    coloured: bool,
    patches: Seq<Patch>,
    n: nat,
    p: int,
)
    requires
        0 < stride,
        raster.len() == stride * rows,
        0 <= p < raster.len(),
        n <= patches.len(),
        forall|i: int|
            0 <= i < patches.len() ==> (#[trigger] patches[i]).fits(
                tile.width as int,
                tile.height as int,
            ) && patches[i].pixel.len() == format.pixel_len(),
    ensures
        ({
            let body = patch_parts(patches, coloured).flatten();
            let after = after_subrects(
                raster,
                stride,
                tile,
                format,
                foreground,
                coloured,
                body,
                n,
            );
            &&& after.len() == raster.len()
            &&& after[p] == patched(
                patches,
                n,
                format,
                coloured,
                foreground,
                p % stride - tile.x,
                p / stride - tile.y,
                raster[p],
            )
        }),
    decreases n,
{
    if n > 0 {
        let k = n - 1;
        let len: int = if coloured {
            format.pixel_len() as int
        } else {
            0
        };
        lemma_patches_read_back(
            raster,
            stride,
            rows,
            tile,
            format,
            foreground,
            coloured,
            patches,
            k as nat,
            p,
        );
        lemma_patch_at(patches, coloured, format, tile, k, len);
    }
}

#[verifier::spinoff_prover]
proof fn lemma_raw_tile_reads_back(
    s: Seq<u8>,
    stride: int,
    rows: int,
    tile: Tile,
    format: PixelFormat,
    p: Progress,
    pixels: Seq<Seq<u8>>,
)
    requires
        0 < stride,
        p.raster.len() == stride * rows,
        0 < tile.width,
        (WrittenTile::Raw { pixels }).valid(format, tile.width as int, tile.height as int),
        holds(s, p.pos, (WrittenTile::Raw { pixels }).bytes()),
    ensures
        tile_step(s, stride, tile, format, p) matches Some(q) && {
            &&& q.pos == p.pos + (WrittenTile::Raw { pixels }).bytes().len()
            &&& q.colours == p.colours
            &&& q.raster.len() == p.raster.len()
            &&& forall|at: int|
                0 <= at < p.raster.len() ==> #[trigger] q.raster[at] == if tile.x <= at % stride
                    < tile.x + tile.width && tile.y <= at / stride < tile.y + tile.height {
                    colour_of(
                        format,
                        pixels[(at / stride - tile.y) * tile.width + (at % stride - tile.x)],
                    )
                } else {
                    p.raster[at]
                }
        },
{
    let len = format.pixel_len() as int;
    let n = tile.width * tile.height;
    lemma_holds_both(s, p.pos, seq![1u8], pixels.flatten());
    lemma_joined(pixels, len);
    assert(s[p.pos] == (WrittenTile::Raw { pixels }).bytes()[0]);
    assert(1u8 & 1 != 0) by (bit_vector);
    let a = p.pos + 1;
    let body = s.subrange(a, a + n * len);
    assert(body =~= pixels.flatten());
    let colours = colours_of(format, body, n as nat);
    assert forall|k: int| 0 <= k < n implies #[trigger] colours[k] == colour_of(format, pixels[k])
        by {
        lemma_joined_part(pixels, len, k);
    }
    let q = tile_step(s, stride, tile, format, p)->0;
    assert forall|at: int| 0 <= at < p.raster.len() implies #[trigger] q.raster[at] == if tile.x
        <= at % stride < tile.x + tile.width && tile.y <= at / stride < tile.y + tile.height {
        colour_of(format, pixels[(at / stride - tile.y) * tile.width + (at % stride - tile.x)])
    } else {
        p.raster[at]
    } by {
        let (i, j) = (at % stride - tile.x, at / stride - tile.y);
        if 0 <= i < tile.width && 0 <= j < tile.height {
            assert(0 <= j * tile.width + i < n) by (nonlinear_arith)
                requires
                    0 <= i < tile.width,
                    0 <= j < tile.height,
                    n == tile.width * tile.height,
            ;
            assert(colours[j * tile.width + i] == colour_of(format, pixels[j * tile.width + i]));
        }
    }
}

#[verifier::rlimit(30)]
#[verifier::spinoff_prover]
proof fn lemma_painted_tile_reads_back(
    s: Seq<u8>,
    stride: int,
    rows: int,
    tile: Tile,
    format: PixelFormat,
    p: Progress,
    background: Option<Seq<u8>>,
    foreground: Option<Seq<u8>>,
    patches: Option<Seq<Patch>>,
    coloured: bool,
)
    requires
        0 < stride,
        p.raster.len() == stride * rows,
        0 < tile.width,
        (WrittenTile::Painted { background, foreground, patches, coloured }).valid(
            format,
            tile.width as int,
            tile.height as int,
        ),
        holds(
            s,
            p.pos,
            (WrittenTile::Painted { background, foreground, patches, coloured }).bytes(),
        ),
    ensures
        ({
            let w = WrittenTile::Painted { background, foreground, patches, coloured };
            tile_step(s, stride, tile, format, p) matches Some(q) && {
                &&& q.pos == p.pos + w.bytes().len()
                &&& q.colours == w.passes_on(format, p.colours)
                &&& q.raster.len() == p.raster.len()
                &&& forall|at: int|
                    0 <= at < p.raster.len() ==> #[trigger] q.raster[at] == if tile.x <= at % stride
                        < tile.x + tile.width && tile.y <= at / stride < tile.y + tile.height {
                        w.shown(
                            format,
                            p.colours,
                            tile.width as int,
                            at % stride - tile.x,
                            at / stride - tile.y,
                        )
                    } else {
                        p.raster[at]
                    }
            }
        }),
{
    let w = WrittenTile::Painted { background, foreground, patches, coloured };
    let len = format.pixel_len() as int;
    let flags = flags_of(background is Some, foreground is Some, patches is Some, coloured);
    lemma_flags(background is Some, foreground is Some, patches is Some, coloured);
    let (f, g, t) = (optional(background), optional(foreground), patches_bytes(patches, coloured));
    let first = seq![flags];
    lemma_holds_both(s, p.pos, first + f + g, t);
    lemma_holds_both(s, p.pos, first + f, g);
    lemma_holds_both(s, p.pos, first, f);
    assert(s[p.pos] == first[0]);
    let a = p.pos + 1;
    let b = a + f.len();
    let c = b + g.len();
    if background is Some {
        assert(s.subrange(a, b) =~= f);
    }
    if foreground is Some {
        assert(s.subrange(b, c) =~= g);
    }
    let own = w.passes_on(format, p.colours);
    if let Some(list) = patches {
        let parts = patch_parts(list, coloured);
        let each: int = if coloured {
            len + 2
        } else {
            2
        };
        assert forall|i: int| 0 <= i < parts.len() implies (#[trigger] parts[i]).len() == each by {
            assert(list[i].fits(tile.width as int, tile.height as int));
        }
        lemma_joined(parts, each);
        lemma_holds_both(s, c, seq![list.len() as u8], parts.flatten());
        assert(s[c] == t[0]);
        let end = c + 1 + list.len() * each;
        assert(s.subrange(c + 1, end) =~= parts.flatten());
        let raster = crate::raster::filled(
            p.raster,
            stride,
            tile.x as int,
            tile.y as int,
            tile.width as int,
            tile.height as int,
            own.background,
        );
        let q = tile_step(s, stride, tile, format, p)->0;
        assert forall|at: int| 0 <= at < p.raster.len() implies #[trigger] q.raster[at] == if tile.x
            <= at % stride < tile.x + tile.width && tile.y <= at / stride < tile.y + tile.height {
            w.shown(
                format,
                p.colours,
                tile.width as int,
                at % stride - tile.x,
                at / stride - tile.y,
            )
        } else {
            p.raster[at]
        } by {
            lemma_patches_read_back(
                raster,
                stride,
                rows,
                tile,
                format,
                own.foreground,
                coloured,
                list,
                list.len(),
                at,
            );
            let (i, j) = (at % stride - tile.x, at / stride - tile.y);
            if !(0 <= i < tile.width && 0 <= j < tile.height) {
                lemma_patches_stay(
                    list,
                    list.len(),
                    format,
                    coloured,
                    own.foreground,
                    i,
                    j,
                    raster[at],
                    tile,
                );
            }
        }
        if list.len() == 0 {
            assert(q.raster.len() == p.raster.len());
        } else if p.raster.len() > 0 {
            lemma_patches_read_back(
                raster,
                stride,
                rows,
                tile,
                format,
                own.foreground,
                coloured,
                list,
                list.len(),
                0,
            );
        }
        lemma_patches_len(
            raster,
            stride,
            tile,
            format,
            own.foreground,
            coloured,
            parts.flatten(),
            list.len(),
        );
    }
}

#[verifier::spinoff_prover]
proof fn lemma_patches_len(
    raster: Seq<u32>,
    stride: int,
    tile: Tile,
    format: PixelFormat,
    foreground: u32,
    coloured: bool,
    body: Seq<u8>,
    n: nat,
)
    ensures
        after_subrects(raster, stride, tile, format, foreground, coloured, body, n).len()
            == raster.len(),
    decreases n,
{
    if n > 0 {
        lemma_patches_len(
            raster,
            stride,
            tile,
            format,
            foreground,
            coloured,
            body,
            (n - 1) as nat,
        );
    }
}

#[verifier::spinoff_prover]
proof fn lemma_patches_stay(
    patches: Seq<Patch>,
    n: nat,
    format: PixelFormat,
    coloured: bool,
    foreground: u32,
    i: int,
    j: int,
    below: u32,
    tile: Tile,
)
    requires
        n <= patches.len(),
        !(0 <= i < tile.width && 0 <= j < tile.height),
        forall|k: int|
            0 <= k < patches.len() ==> (#[trigger] patches[k]).fits(
                tile.width as int,
                tile.height as int,
            ),
    ensures
        patched(patches, n, format, coloured, foreground, i, j, below) == below,
    decreases n,
{
    if n > 0 {
        assert(patches[n - 1].fits(tile.width as int, tile.height as int));
        lemma_patches_stay(
            patches,
            (n - 1) as nat,
            format,
            coloured,
            foreground,
            i,
            j,
            below,
            tile,
        );
    }
}

/// A tile is read as it was written, and up to the byte where it ends: every
/// place of it gets its colour, every pixel outside stays, and the colours that
/// it names, and no others, replace the inherited ones.
#[verifier::spinoff_prover]
pub proof fn lemma_tile_reads_back(
    s: Seq<u8>,
    stride: int,
    rows: int,
    tile: Tile,
    format: PixelFormat,
    p: Progress,
    written: WrittenTile,
)
    requires
        0 < stride,
        p.raster.len() == stride * rows,
        0 < tile.width,
        written.valid(format, tile.width as int, tile.height as int),
        holds(s, p.pos, written.bytes()),
    ensures
        tile_step(s, stride, tile, format, p) matches Some(q) && {
            &&& q.pos == p.pos + written.bytes().len()
            &&& q.colours == written.passes_on(format, p.colours)
            &&& q.raster.len() == p.raster.len()
            &&& forall|at: int|
                0 <= at < p.raster.len() ==> #[trigger] q.raster[at] == if tile.x <= at % stride
                    < tile.x + tile.width && tile.y <= at / stride < tile.y + tile.height {
                    written.shown(
                        format,
                        p.colours,
                        tile.width as int,
                        at % stride - tile.x,
                        at / stride - tile.y,
                    )
                } else {
                    p.raster[at]
                }
        },
{
    match written {
        WrittenTile::Raw { pixels } => {
            lemma_raw_tile_reads_back(s, stride, rows, tile, format, p, pixels);
        },
        WrittenTile::Painted { background, foreground, patches, coloured } => {
            lemma_painted_tile_reads_back(
                s,
                stride,
                rows,
                tile,
                format,
                p,
                background,
                foreground,
                patches,
                coloured,
            );
        },
    }
}

/// A colour that a tile leaves out is the one that was named last: reading the
/// tile gives the picture and the colours that the same tile gives with the
/// inherited background or foreground written out.
#[verifier::spinoff_prover]
pub proof fn lemma_left_out_colours_are_inherited(
    s: Seq<u8>,
    full: Seq<u8>,
    stride: int,
    rows: int,
    tile: Tile,
    format: PixelFormat,
    p: Progress,
    background: Option<Seq<u8>>,
    foreground: Option<Seq<u8>>,
    patches: Option<Seq<Patch>>,
    coloured: bool,
    back: Seq<u8>,
    fore: Seq<u8>,
)
    requires
        0 < stride,
        p.raster.len() == stride * rows,
        0 < tile.width,
        (WrittenTile::Painted { background, foreground, patches, coloured }).valid(
            format,
            tile.width as int,
            tile.height as int,
        ),
        holds(
            s,
            p.pos,
            (WrittenTile::Painted { background, foreground, patches, coloured }).bytes(),
        ),
        back.len() == format.pixel_len(),
        fore.len() == format.pixel_len(),
        match background {
            Some(px) => back == px,
            None => colour_of(format, back) == p.colours.background,
        },
        match foreground {
            Some(px) => fore == px,
            None => colour_of(format, fore) == p.colours.foreground,
        },
        holds(
            full,
            p.pos,
            (WrittenTile::Painted {
                background: Some(back),
                foreground: Some(fore),
                patches,
                coloured,
            }).bytes(),
        ),
    ensures
        tile_step(s, stride, tile, format, p) matches Some(a) && tile_step(
            full,
            stride,
            tile,
            format,
            p,
        ) matches Some(b) && {
            &&& a.raster == b.raster
            &&& a.colours == b.colours
            &&& background is None ==> a.colours.background == p.colours.background
            &&& foreground is None ==> a.colours.foreground == p.colours.foreground
        },
{
    lemma_painted_tile_reads_back(
        s,
        stride,
        rows,
        tile,
        format,
        p,
        background,
        foreground,
        patches,
        coloured,
    );
    lemma_painted_tile_reads_back(
        full,
        stride,
        rows,
        tile,
        format,
        p,
        Some(back),
        Some(fore),
        patches,
        coloured,
    );
    let a = tile_step(s, stride, tile, format, p)->0;
    let b = tile_step(full, stride, tile, format, p)->0;
    assert(a.raster =~= b.raster);
}

proof fn lemma_covered_place(
    patches: Seq<Patch>,
    n: nat,
    format: PixelFormat,
    foreground: u32,
    i: int,
    j: int,
    below: u32,
)
    requires
        n <= patches.len(),
    ensures
        (exists|k: int| 0 <= k < n && (#[trigger] patches[k]).covers(i, j)) ==> patched(
            patches,
            n,
            format,
            false,
            foreground,
            i,
            j,
            below,
        ) == foreground,
        (forall|k: int| 0 <= k < n ==> !(#[trigger] patches[k]).covers(i, j)) ==> patched(
            patches,
            n,
            format,
            false,
            foreground,
            i,
            j,
            below,
        ) == below,
    decreases n,
{
    if n > 0 {
        lemma_covered_place(patches, (n - 1) as nat, format, foreground, i, j, below);
    }
}

/// In a tile that names no colours, and whose patches have none of their own,
/// every place that a patch covers has the foreground that was named last, and
/// every other place the background that was named last. Both stay what they
/// were.
#[verifier::spinoff_prover]
pub proof fn lemma_inherited_colours_are_painted(
    s: Seq<u8>,
    stride: int,
    rows: int,
    tile: Tile,
    format: PixelFormat,
    p: Progress,
    patches: Seq<Patch>,
    i: int,
    j: int,
)
    requires
        p.raster.len() == stride * rows,
        tile.x + tile.width <= stride,
        tile.y + tile.height <= rows,
        0 <= i < tile.width,
        0 <= j < tile.height,
        patches.len() <= 255,
        forall|k: int|
            0 <= k < patches.len() ==> (#[trigger] patches[k]).fits(
                tile.width as int,
                tile.height as int,
            ) && patches[k].pixel.len() == format.pixel_len(),
        holds(
            s,
            p.pos,
            seq![8u8, patches.len() as u8] + patch_parts(patches, false).flatten(),
        ),
    ensures
        tile_step(s, stride, tile, format, p) matches Some(q) && {
            let at = (tile.y + j) * stride + (tile.x + i);
            let covered = exists|k: int|
                0 <= k < patches.len() && (#[trigger] patches[k]).covers(i, j);
            &&& q.colours == p.colours
            &&& covered ==> q.raster[at] == p.colours.foreground
            &&& !covered ==> q.raster[at] == p.colours.background
        },
{
    let w = WrittenTile::Painted {
        background: None,
        foreground: None,
        patches: Some(patches),
        coloured: false,
    };
    let parts = patch_parts(patches, false).flatten();
    assert(w.bytes() =~= seq![8u8, patches.len() as u8] + parts);
    lemma_painted_tile_reads_back(
        s,
        stride,
        rows,
        tile,
        format,
        p,
        None,
        None,
        Some(patches),
        false,
    );
    let (x, y) = (tile.x + i, tile.y + j);
    let at = y * stride + x;
    lemma_place(x, y, stride);
    assert(0 <= at < stride * rows) by (nonlinear_arith)
        requires
            at == y * stride + x,
            0 <= x < stride,
            0 <= y < rows,
    ;
    lemma_covered_place(
        patches,
        patches.len(),
        format,
        p.colours.foreground,
        i,
        j,
        p.colours.background,
    );
}

/// Tiles one after the other.
pub open spec fn tiles_bytes(tiles: Seq<WrittenTile>) -> Seq<u8>
    decreases tiles.len(),
{
    if tiles.len() == 0 {
        Seq::empty()
    } else {
        tiles_bytes(tiles.drop_last()) + tiles.last().bytes()
    }
}

/// The colours that the tile behind the given ones inherits.
pub open spec fn inherited(
    tiles: Seq<WrittenTile>,
    format: PixelFormat,
    start: HextileState,
) -> HextileState
    decreases tiles.len(),
{
    if tiles.len() == 0 {
        start
    } else {
        tiles.last().passes_on(format, inherited(tiles.drop_last(), format, start))
    }
}

/// Whether written tiles show a picture: it is cut into squares of 16 pixels,
/// from left to right and from top to bottom, and those at the right and at the
/// bottom are as large as what is left.
pub open spec fn tiles_show(
    tiles: Seq<WrittenTile>,
    format: PixelFormat,
    start: HextileState,
    picture: Seq<u32>,
    w: int,
    h: int,
) -> bool {
    let across = (w + 15) / 16;
    &&& tiles.len() == across * ((h + 15) / 16)
    &&& forall|t: int|
        0 <= t < tiles.len() ==> tile_shows(
            #[trigger] tiles[t],
            format,
            inherited(tiles.take(t), format, start),
            picture,
            w,
            t % across * 16,
            t / across * 16,
            lesser(16, w - t % across * 16),
            lesser(16, h - t / across * 16),
        )
}

/// Whether a written tile shows the part of a picture of `stride` pixels per row
/// that starts at `(x, y)` and has `w` by `h` pixels.
pub open spec fn tile_shows(
    tile: WrittenTile,
    format: PixelFormat,
    start: HextileState,
    picture: Seq<u32>,
    stride: int,
    x: int,
    y: int,
    w: int,
    h: int,
) -> bool {
    &&& tile.valid(format, w, h)
    &&& forall|i: int, j: int|
        0 <= i < w && 0 <= j < h ==> #[trigger] tile.shown(format, start, w, i, j) == picture[(y
            + j) * stride + (x + i)]
}

#[verifier::rlimit(30)]
#[verifier::spinoff_prover]
proof fn lemma_first_tiles_read_back(
    s: Seq<u8>,
    tiles: Seq<WrittenTile>,
    format: PixelFormat,
    start: HextileState,
    picture: Seq<u32>,
    w: nat,
    h: nat,
    n: nat,
)
    requires
        0 < w <= usize::MAX,
        h <= usize::MAX,
        picture.len() == w * h,
        tiles_show(tiles, format, start, picture, w as int, h as int),
        n <= tiles.len(),
        holds(s, 0, tiles_bytes(tiles.take(n as int))),
    ensures
        after_tiles(s, w, h, format, start, n) matches Some(q) && {
            &&& q.pos == tiles_bytes(tiles.take(n as int)).len()
            &&& q.colours == inherited(tiles.take(n as int), format, start)
            &&& q.raster.len() == w * h
            &&& forall|p: int|
                0 <= p < w * h && owner(p, w as int, 16) < n ==> #[trigger] q.raster[p]
                    == picture[p]
        },
    decreases n,
{
    if n == 0 {
        assert forall|p: int| 0 <= p < w * h implies owner(p, w as int, 16) >= 0 by {
            lemma_owner(p, w as int, h as int, 16, 0);
        }
    } else {
        let t = n - 1;
        let part = tiles.take(n as int);
        assert(part.drop_last() =~= tiles.take(t));
        assert(part.last() == tiles[t]);
        lemma_holds_both(s, 0, tiles_bytes(tiles.take(t)), tiles[t].bytes());
        lemma_first_tiles_read_back(s, tiles, format, start, picture, w, h, t as nat);
        let tile = tile_at(w, h, 16, t as nat);
        lemma_tile_inside(w, h, 16, t as nat);
        let across = (w as int + 15) / 16;
        let colours = inherited(tiles.take(t), format, start);
        assert(tile_shows(
            tiles[t],
            format,
            colours,
            picture,
            w as int,
            t % across * 16,
            t / across * 16,
            lesser(16, w - t % across * 16),
            lesser(16, h - t / across * 16),
        ));
        let before = after_tiles(s, w, h, format, start, t as nat)->0;
        lemma_tile_reads_back(s, w as int, h as int, tile, format, before, tiles[t]);
        let after = after_tiles(s, w, h, format, start, n)->0;
        assert forall|p: int|
            0 <= p < w * h && owner(p, w as int, 16) < n implies #[trigger] after.raster[p]
            == picture[p] by {
            lemma_owner(p, w as int, h as int, 16, t);
            lemma_place_in(p, w as int, h as int);
            if owner(p, w as int, 16) == t {
                let (i, j) = (p % (w as int) - tile.x, p / (w as int) - tile.y);
                assert(after.raster[p] == tiles[t].shown(
                    format,
                    colours,
                    tile.width as int,
                    i,
                    j,
                ));
                assert((tile.y + j) * w + (tile.x + i) == p);
            } else {
                assert(after.raster[p] == before.raster[p]);
            }
        }
    }
}

proof fn lemma_all_owned(raster: Seq<u32>, picture: Seq<u32>, w: nat, h: nat, n: nat)
    requires
        0 < w,
        raster.len() == w * h,
        picture.len() == w * h,
        n == (w + 15) / 16 * ((h + 15) / 16),
        forall|p: int|
            0 <= p < w * h && owner(p, w as int, 16) < n ==> #[trigger] raster[p] == picture[p],
    ensures
        raster == picture,
{
    assert forall|p: int| 0 <= p < w * h implies raster[p] == picture[p] by {
        lemma_owner(p, w as int, h as int, 16, 0);
    }
    assert(raster =~= picture);
}

/// A picture that was written as tiles, with colours named or left out, is read
/// back as the picture, up to the byte where it ends, and the next rectangle
/// inherits the colours that were named last.
#[verifier::rlimit(30)]
pub proof fn lemma_picture_reads_back(
    s: Seq<u8>,
    tiles: Seq<WrittenTile>,
    format: PixelFormat,
    start: HextileState,
    picture: Seq<u32>,
    w: nat,
    h: nat,
)
    requires
        0 < w <= usize::MAX,
        h <= usize::MAX,
        picture.len() == w * h,
        tiles_show(tiles, format, start, picture, w as int, h as int),
        holds(s, 0, tiles_bytes(tiles)),
    ensures
        hextile_decoded(s, w, h, format, start) == (Decoded::Done {
            raster: picture,
            used: tiles_bytes(tiles).len(),
        }),
        after_all(s, w, h, format, start) matches Some(q) && q.colours == inherited(
            tiles,
            format,
            start,
        ),
{
    let n = tiles.len();
    assert(tiles.take(n as int) =~= tiles);
    lemma_first_tiles_read_back(s, tiles, format, start, picture, w, h, n);
    lemma_all_owned(after_tiles(s, w, h, format, start, n)->0.raster, picture, w, h, n);
    assert(tile_count(w, h, 16) == n);
}

} // verus!
