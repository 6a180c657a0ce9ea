//! Composition of decoded tile strips into a full picture.

use vstd::prelude::*;

use crate::wire::{be32, lemma_joined, push_all, push_u32, push_zeros, to_vec, zeros};

verus! {

/// The composition canvas.
pub struct CanvasState {
    pub width: u32,
    pub height: u32,
    /// RGBA pixels, row by row.
    pub pixels: Seq<u8>,
    /// Whether something was drawn since the last picture was handed out.
    pub dirty: bool,
    /// The dimensions announced by the caller.
    pub configured: (u16, u16),
}

/// The height of the canvas for strips of height `strip`: that of all tiles
/// stacked, or the configured height where it lies between one strip and all.
pub open spec fn canvas_height(strip: int, tiles: int, configured: int) -> int {
    if strip <= configured <= strip * tiles {
        configured
    } else {
        strip * tiles
    }
}

impl CanvasState {
    /// No canvas yet.
    pub open spec fn fresh() -> CanvasState {
        CanvasState {
            width: 0,
            height: 0,
            pixels: Seq::empty(),
            dirty: false,
            configured: (0, 0),
        }
    }

    /// The canvas without a picture.
    pub open spec fn cleared(self) -> CanvasState {
        CanvasState { width: 0, height: 0, pixels: Seq::empty(), dirty: false, ..self }
    }

    /// The canvas with the given dimensions: unchanged where it has them, blank
    /// otherwise.
    pub open spec fn sized(self, width: int, height: int) -> CanvasState {
        if self.width == width && self.height == height && self.pixels.len() == width * height * 4 {
            self
        } else {
            CanvasState {
                width: width as u32,
                height: height as u32,
                pixels: zeros((width * height * 4) as nat),
                ..self
            }
        }
    }

    /// The canvas after strip number `tile` of `tiles` was decoded. Strips are
    /// stacked from the top; what reaches below the canvas is cropped. A strip
    /// of unknown or empty size, or with too few pixels, changes nothing.
    pub open spec fn composited(
        self,
        tile: int,
        tiles: int,
        size: Option<(u16, u16)>,
        rgba: Seq<u8>,
    ) -> CanvasState {
        match size {
            None => self,
            Some((w, h)) => {
                let height = canvas_height(h as int, tiles, self.configured.1 as int);
                if w == 0 || h == 0 || rgba.len() < w * h * 4 || w * height * 4 > usize::MAX {
                    self
                } else {
                    let c = self.sized(w as int, height);
                    let top = tile * h;
                    if top >= height {
                        c
                    } else {
                        let rows = if h < height - top {
                            h as int
                        } else {
                            height - top
                        };
                        let from = w * top * 4;
                        let to = w * (top + rows) * 4;
                        CanvasState {
                            pixels: c.pixels.take(from) + rgba.take(to - from) + c.pixels.skip(to),
                            dirty: true,
                            ..c
                        }
                    }
                }
            },
        }
    }
}

/// The composition canvas.
pub struct Canvas {
    width: u32,
    height: u32,
    pixels: Vec<u8>,
    dirty: bool,
    configured: (u16, u16),
}

impl View for Canvas {
    type V = CanvasState;

    closed spec fn view(&self) -> CanvasState {
        CanvasState {
            width: self.width,
            height: self.height,
            pixels: self.pixels@,
            dirty: self.dirty,
            configured: self.configured,
        }
    }
}

impl Canvas {
    /// No canvas yet.
    pub fn new() -> (r: Canvas)
        ensures
            r@ == CanvasState::fresh(),
    {
        Canvas { width: 0, height: 0, pixels: Vec::new(), dirty: false, configured: (0, 0) }
    }

    /// Notes the dimensions announced by the caller. Empty ones are ignored.
    pub fn configure(&mut self, width: u16, height: u16) -> (noted: bool)
        ensures
            noted == (width != 0 && height != 0),
            final(self)@ == if width != 0 && height != 0 {
                CanvasState { configured: (width, height), ..old(self)@ }
            } else {
                old(self)@
            },
    {
        if width != 0 && height != 0 {
            self.configured = (width, height);
            true
        } else {
            false
        }
    }

    /// The dimensions announced by the caller.
    pub fn configured(&self) -> (r: (u16, u16))
        ensures
            r == self@.configured,
    {
        self.configured
    }

    /// Drops the picture.
    pub fn clear(&mut self)
        ensures
            final(self)@ == old(self)@.cleared(),
    {
        self.width = 0;
        self.height = 0;
        self.pixels = Vec::new();
        self.dirty = false;
    }

    fn resize(&mut self, width: u32, height: u32, bytes: usize)
        requires
            bytes == width * height * 4,
        ensures
            final(self)@ == old(self)@.sized(width as int, height as int),
    {
        if self.width != width || self.height != height || self.pixels.len() != bytes {
            let mut pixels: Vec<u8> = Vec::new();
            push_zeros(&mut pixels, bytes);
            assert(pixels@ =~= zeros(bytes as nat));
            self.width = width;
            self.height = height;
            self.pixels = pixels;
        }
    }

    /// Writes a decoded tile strip into the canvas.
    pub fn composite_strip(
        &mut self,
        tile: usize,
        tiles: usize,
        size: Option<(u16, u16)>,
        rgba: &[u8],
    )
        requires
            tile < 4,
            1 <= tiles <= 4,
        ensures
            final(self)@ == old(self)@.composited(tile as int, tiles as int, size, rgba@),
    {
        let (w, h) = match size {
            None => {
                return;
            },
            Some(s) => s,
        };
        if w == 0 || h == 0 {
            return;
        }
        let wide: u64 = w as u64;
        let high: u64 = h as u64;
        proof {
            lemma_strip_bounds(wide as int, high as int, tiles as int);
        }
        let natural: u64 = high * tiles as u64;
        let cfg: u64 = self.configured.1 as u64;
        let height: u64 = if high <= cfg && cfg <= natural {
            cfg
        } else {
            natural
        };
        proof {
            lemma_area_bounds(wide as int, height as int);
        }
        if (rgba.len() as u64) < wide * high * 4 || wide * height * 4 > usize::MAX as u64 {
            return;
        }
        let bytes: usize = (wide * height * 4) as usize;
        self.resize(w as u32, height as u32, bytes);
        let ghost c = self@;
        proof {
            assert(0 <= tile * high <= 4 * 0xffff) by (nonlinear_arith)
                requires
                    0 <= tile < 4,
                    0 < high <= 0xffff,
            ;
        }
        let top: u64 = tile as u64 * high;
        if top >= height {
            return;
        }
        let rows: u64 = if high < height - top {
            high
        } else {
            height - top
        };
        proof {
            lemma_rows(wide as int, top as int, rows as int, high as int, height as int);
        }
        let from: usize = (wide * top * 4) as usize;
        let count: usize = (wide * rows * 4) as usize;
        let mut i: usize = 0;
        while i < count
            invariant
                i <= count,
                count <= rgba@.len(),
                from + count <= bytes,
                self.pixels@.len() == bytes,
                c.pixels.len() == bytes,
                self.width == c.width,
                self.height == c.height,
                self.dirty == c.dirty,
                self.configured == c.configured,
                forall|p: int|
                    0 <= p < bytes ==> #[trigger] self.pixels@[p] == if from <= p < from + i {
                        rgba@[p - from]
                    } else {
                        c.pixels[p]
                    },
            decreases count - i,
        {
            self.pixels[from + i] = rgba[i];
            i = i + 1;
        }
        self.dirty = true;
        proof {
            let to = wide * (top + rows) * 4;
            assert(to == from + count);
            assert(self.pixels@ =~= c.pixels.take(from as int) + rgba@.take(count as int)
                + c.pixels.skip(to));
        }
    }

    /// The picture, if something was drawn since the last one.
    pub fn take_picture(&mut self) -> (r: Option<(u16, u16, Vec<u8>)>)
        ensures
            match r {
                Some((w, h, rgba)) => {
                    &&& old(self)@.dirty && old(self)@.pixels.len() > 0
                    &&& w == (old(self)@.width % 0x1_0000) as u16
                    &&& h == (old(self)@.height % 0x1_0000) as u16
                    &&& rgba@ == old(self)@.pixels
                    &&& final(self)@ == (CanvasState { dirty: false, ..old(self)@ })
                },
                None => !(old(self)@.dirty && old(self)@.pixels.len() > 0) && final(self)@
                    == old(self)@,
            },
    {
        if self.dirty && self.pixels.len() > 0 {
            self.dirty = false;
            let w: u16 = (self.width % 0x1_0000) as u16;
            let h: u16 = (self.height % 0x1_0000) as u16;
            Some((w, h, to_vec(&self.pixels)))
        } else {
            None
        }
    }

    /// The picture as a file image: big-endian width and height, eight reserved
    /// bytes, then the pixels.
    pub fn dump(&self) -> (r: Vec<u8>)
        ensures
            r@ == be32(self@.width) + be32(self@.height) + zeros(8) + self@.pixels,
    {
        let mut out: Vec<u8> = Vec::new();
        push_u32(&mut out, self.width);
        assert(out@ =~= be32(self.width));
        push_u32(&mut out, self.height);
        push_zeros(&mut out, 8);
        push_all(&mut out, &self.pixels);
        out
    }
}

proof fn lemma_strip_bounds(w: int, h: int, tiles: int)
    requires
        0 < w <= 0xffff,
        0 < h <= 0xffff,
        1 <= tiles <= 4,
    ensures
        0 < h * tiles <= 0x3fffc,
        0 < w * h <= 0xffff * 0xffff,
{
    assert(0 < h * tiles <= 0xffff * 4) by (nonlinear_arith)
        requires
            0 < h <= 0xffff,
            1 <= tiles <= 4,
    ;
    assert(0 < w * h <= 0xffff * 0xffff) by (nonlinear_arith)
        requires
            0 < w <= 0xffff,
            0 < h <= 0xffff,
    ;
}

proof fn lemma_area_bounds(w: int, height: int)
    requires
        0 < w <= 0xffff,
        0 < height <= 0x3fffc,
    ensures
        0 < w * height <= 0xffff * 0x3fffc,
{
    assert(0 < w * height <= 0xffff * 0x3fffc) by (nonlinear_arith)
        requires
            0 < w <= 0xffff,
            0 < height <= 0x3fffc,
    ;
}

proof fn lemma_rows(w: int, top: int, rows: int, strip: int, height: int)
    requires
        0 < w,
        0 <= top,
        0 < rows <= strip,
        top + rows <= height,
    ensures
        0 <= w * top,
        0 < w * rows <= w * strip,
        w * (top + rows) * 4 == w * top * 4 + w * rows * 4,
        w * top * 4 + w * rows * 4 <= w * height * 4,
{
    assert(0 <= w * top && 0 < w * rows && w * rows <= w * strip && w * (top + rows) == w * top + w
        * rows && w * (top + rows) <= w * height) by (nonlinear_arith)
        requires
            0 < w,
            0 <= top,
            0 < rows <= strip,
            top + rows <= height,
    ;
}

/// Compositing keeps the number of pixel bytes in step with the dimensions.
pub proof fn lemma_canvas_size_kept(
    c: CanvasState,
    tile: int,
    tiles: int,
    size: Option<(u16, u16)>,
    rgba: Seq<u8>,
)
    requires
        c.pixels.len() == c.width * c.height * 4,
        0 <= tile < 4,
        1 <= tiles <= 4,
    ensures
        ({
            let after = c.composited(tile, tiles, size, rgba);
            after.pixels.len() == after.width * after.height * 4
        }),
{
    if let Some((w, h)) = size {
        let height = canvas_height(h as int, tiles, c.configured.1 as int);
        if w > 0 && h > 0 {
            lemma_strip_bounds(w as int, h as int, tiles);
            lemma_area_bounds(w as int, height);
            let top = tile * h;
            assert(0 <= top) by (nonlinear_arith)
                requires
                    top == tile * h,
                    0 <= tile,
                    0 < h,
            ;
            if top < height {
                let rows = if h < height - top {
                    h as int
                } else {
                    height - top
                };
                lemma_rows(w as int, top, rows, h as int, height);
            }
        }
    }
}

/// The place of byte `b` of row `y` among rows of `row` bytes.
proof fn lemma_byte_place(y: int, b: int, row: int, rows: int)
    requires
        0 <= y < rows,
        0 <= b < row,
    ensures
        0 <= y * row + b < rows * row,
{
    assert(0 <= y * row && y * row + row <= rows * row) by (nonlinear_arith)
        requires
            0 <= y < rows,
            0 < row,
    ;
}

/// A strip of `w` by `h` pixels that arrives as number `tile` fills the rows of
/// the canvas from `tile * h` on: byte `b` of its row `r` becomes byte `b` of
/// row `tile * h + r`, as far as the canvas reaches. The canvas is as wide as
/// the strip, and as high as announced, where that lies between one strip and
/// all of them, or as high as all of them. Rows outside the strip keep their
/// bytes, or are blank where the canvas had another size.
#[verifier::spinoff_prover]
pub proof fn lemma_strip_fills_its_rows(
    c: CanvasState,
    tile: int,
    tiles: int,
    w: u16,
    h: u16,
    rgba: Seq<u8>,
    height: int,
)
    requires
        0 <= tile < 4,
        1 <= tiles <= 4,
        w > 0,
        h > 0,
        rgba.len() >= w * h * 4,
        h <= c.configured.1 <= h * tiles ==> height == c.configured.1,
        !(h <= c.configured.1 <= h * tiles) ==> height == h * tiles,
        w * height * 4 <= usize::MAX,
    ensures
        ({
            let after = c.composited(tile, tiles, Some((w, h)), rgba);
            let row = w * 4;
            let same = c.width == w && c.height == height && c.pixels.len() == height * row;
            &&& after.width == w
            &&& after.height == height
            &&& after.configured == c.configured
            &&& after.dirty == (tile * h < height || c.dirty)
            &&& after.pixels.len() == height * row
            &&& forall|r: int, b: int|
                0 <= r < h && tile * h + r < height && 0 <= b < row ==> #[trigger] after.pixels[(
                tile * h + r) * row + b] == rgba[r * row + b]
            &&& forall|y: int, b: int|
                0 <= y < height && !(tile * h <= y < tile * h + h) && 0 <= b < row
                    ==> #[trigger] after.pixels[y * row + b] == if same {
                    c.pixels[y * row + b]
                } else {
                    0
                }
        }),
{
    let after = c.composited(tile, tiles, Some((w, h)), rgba);
    let row = w * 4;
    let top = tile * h;
    let held = c.sized(w as int, height);
    lemma_strip_bounds(w as int, h as int, tiles);
    lemma_area_bounds(w as int, height);
    assert(w * height * 4 == height * row) by (nonlinear_arith)
        requires
            row == w * 4,
    ;
    assert(0 <= top) by (nonlinear_arith)
        requires
            top == tile * h,
            0 <= tile,
            0 < h,
    ;
    assert(held.pixels.len() == height * row);
    assert forall|y: int, b: int| 0 <= y < height && 0 <= b < row implies 0 <= #[trigger] (y * row
        + b) < height * row by {
        lemma_byte_place(y, b, row, height);
    }
    if top < height {
        let rows = if h < height - top {
            h as int
        } else {
            height - top
        };
        lemma_rows(w as int, top, rows, h as int, height);
        let from = w * top * 4;
        let to = w * (top + rows) * 4;
        assert(from == top * row && to == top * row + rows * row && rows * row <= w * h * 4)
            by (nonlinear_arith)
            requires
                row == w * 4,
                from == w * top * 4,
                to == w * (top + rows) * 4,
                0 <= rows <= h,
                w > 0,
        ;
        assert forall|r: int, b: int|
            0 <= r < h && top + r < height && 0 <= b < row implies #[trigger] after.pixels[(top + r)
            * row + b] == rgba[r * row + b] by {
            lemma_byte_place(r, b, row, rows);
            assert((top + r) * row + b == from + (r * row + b)) by (nonlinear_arith)
                requires
                    from == top * row,
            ;
        }
        assert forall|y: int, b: int|
            0 <= y < height && !(top <= y < top + h) && 0 <= b < row implies #[trigger] after.pixels[y
            * row + b] == held.pixels[y * row + b] by {
            lemma_byte_place(y, b, row, height);
            if y < top {
                lemma_byte_place(y, b, row, top);
            } else {
                assert(y * row >= to) by (nonlinear_arith)
                    requires
                        y >= top + rows,
                        to == top * row + rows * row,
                        row > 0,
                ;
            }
        }
    }
}

/// A strip of unknown or empty size, or with fewer bytes than its size asks
/// for, leaves the canvas as it was.
pub proof fn lemma_unusable_strip_is_ignored(
    c: CanvasState,
    tile: int,
    tiles: int,
    size: Option<(u16, u16)>,
    rgba: Seq<u8>,
)
    requires
        size matches Some((w, h)) ==> w == 0 || h == 0 || rgba.len() < w * h * 4,
    ensures
        c.composited(tile, tiles, size, rgba) == c,
{
}

impl CanvasState {
    /// The canvas after the first `n` of a list of strips, composited one after
    /// the other.
    pub open spec fn after_strips(
        self,
        tiles: int,
        size: Option<(u16, u16)>,
        strips: Seq<Seq<u8>>,
        n: nat,
    ) -> CanvasState
        decreases n,
    {
        if n == 0 {
            self
        } else {
            self.after_strips(tiles, size, strips, (n - 1) as nat).composited(
                n - 1,
                tiles,
                size,
                strips[n - 1],
            )
        }
    }
}

#[verifier::spinoff_prover]
proof fn lemma_strips_so_far(
    c: CanvasState,
    w: u16,
    h: u16,
    strips: Seq<Seq<u8>>,
    height: int,
    n: nat,
)
    requires
        1 <= n <= strips.len() <= 4,
        w > 0,
        h > 0,
        forall|i: int| 0 <= i < strips.len() ==> (#[trigger] strips[i]).len() == w * h * 4,
        h <= c.configured.1 <= h * strips.len() ==> height == c.configured.1,
        !(h <= c.configured.1 <= h * strips.len()) ==> height == h * strips.len(),
        w * height * 4 <= usize::MAX,
    ensures
        ({
            let after = c.after_strips(strips.len() as int, Some((w, h)), strips, n);
            &&& after.width == w
            &&& after.height == height
            &&& after.configured == c.configured
            &&& after.pixels.len() == height * (w * 4)
            &&& forall|t: int, r: int, b: int|
                0 <= t < n && 0 <= r < h && t * h + r < height && 0 <= b < w * 4
                    ==> #[trigger] after.pixels[(t * h + r) * (w * 4) + b] == strips[t][r * (w * 4)
                    + b]
        }),
    decreases n,
{
    let tiles = strips.len() as int;
    let size = Some((w, h));
    let before = c.after_strips(tiles, size, strips, (n - 1) as nat);
    let after = c.after_strips(tiles, size, strips, n);
    if n > 1 {
        lemma_strips_so_far(c, w, h, strips, height, (n - 1) as nat);
    }
    let last = n - 1;
    lemma_strip_fills_its_rows(before, last, tiles, w, h, strips[last], height);
    assert forall|t: int, r: int, b: int|
        0 <= t < n && 0 <= r < h && t * h + r < height && 0 <= b < w
            * 4 implies #[trigger] after.pixels[(t * h + r) * (w * 4) + b] == strips[t][r * (w * 4)
        + b] by {
        if t < last {
            assert(0 <= t * h + r < last * h) by (nonlinear_arith)
                requires
                    0 <= t < last,
                    0 <= r < h,
            ;
            assert(before.pixels[(t * h + r) * (w * 4) + b] == strips[t][r * (w * 4) + b]);
        }
    }
}

/// Strips `0`, `1`, and so on, composited one after the other, give the picture
/// that is their concatenation, the first strip on top: byte `b` of row `r` of
/// strip `t` ends up in row `t * h + r`, and what reaches below the announced
/// height is cropped.
#[verifier::spinoff_prover]
pub proof fn lemma_strips_make_the_picture(
    c: CanvasState,
    w: u16,
    h: u16,
    strips: Seq<Seq<u8>>,
    height: int,
)
    requires
        1 <= strips.len() <= 4,
        w > 0,
        h > 0,
        forall|i: int| 0 <= i < strips.len() ==> (#[trigger] strips[i]).len() == w * h * 4,
        h <= c.configured.1 <= h * strips.len() ==> height == c.configured.1,
        !(h <= c.configured.1 <= h * strips.len()) ==> height == h * strips.len(),
        w * height * 4 <= usize::MAX,
    ensures
        ({
            let after = c.after_strips(strips.len() as int, Some((w, h)), strips, strips.len());
            after.pixels == strips.flatten().take(height * (w * 4))
        }),
{
    let n = strips.len();
    let row = w * 4;
    let each = h * row;
    let after = c.after_strips(n as int, Some((w, h)), strips, n);
    lemma_strips_so_far(c, w, h, strips, height, n);
    assert(each == w * h * 4) by (nonlinear_arith)
        requires
            each == h * (w * 4),
            row == w * 4,
    ;
    assert(each > 0) by (nonlinear_arith)
        requires
            each == h * row,
            h > 0,
            row > 0,
    ;
    lemma_joined(strips, each);
    assert(height * row <= n * each) by (nonlinear_arith)
        requires
            height <= h * n,
            each == h * row,
            row > 0,
    ;
    assert forall|p: int| 0 <= p < height * row implies #[trigger] after.pixels[p]
        == strips.flatten()[p] by {
        vstd::arithmetic::div_mod::lemma_fundamental_div_mod(p, row);
        let y = p / row;
        let b = p % row;
        assert(0 <= y < height) by (nonlinear_arith)
            requires
                p == row * y + b,
                0 <= b < row,
                0 <= p < height * row,
        ;
        vstd::arithmetic::div_mod::lemma_fundamental_div_mod(y, h as int);
        let t = y / (h as int);
        let r = y % (h as int);
        assert(0 <= t < n) by (nonlinear_arith)
            requires
                y == h * t + r,
                0 <= r < h,
                0 <= y < h * n,
        ;
        assert(p == (t * h + r) * row + b && p == t * each + (r * row + b)) by (nonlinear_arith)
            requires
                p == row * y + b,
                y == h * t + r,
                each == h * row,
        ;
        lemma_byte_place(r, b, row, h as int);
    }
    assert(after.pixels =~= strips.flatten().take(height * row));
}

} // verus!
