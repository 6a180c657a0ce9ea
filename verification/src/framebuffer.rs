//! The desktop image and how it is turned for display.

use vstd::prelude::*;

pub use crate::pixel_format::PixelFormat;
use crate::wire::slice;

verus! {

/// Framebuffer transformation for rendering.
#[derive(Debug, Clone, Copy, PartialEq, Eq, Structural)]
pub enum Transform {
    Identity,
    Rotate90,
    Rotate180,
    Rotate270,
    FlipHorizontal,
    FlipVertical,
    FlipBoth,
}

impl Default for Transform {
    fn default() -> (r: Self)
        ensures
            r == Transform::Identity,
    {
        Transform::Identity
    }
}

impl Transform {
    /// Where the pixel shown at `(x, y)` comes from.
    pub open spec fn source(self, x: int, y: int, width: int, height: int) -> (int, int) {
        match self {
            Transform::Identity => (x, y),
            Transform::Rotate90 => (y, height - 1 - x),
            Transform::Rotate180 => (width - 1 - x, height - 1 - y),
            Transform::Rotate270 => (width - 1 - y, x),
            Transform::FlipHorizontal => (width - 1 - x, y),
            Transform::FlipVertical => (x, height - 1 - y),
            Transform::FlipBoth => (width - 1 - x, height - 1 - y),
        }
    }

    /// Whether the coordinates that the transform mirrors lie in the image.
    pub open spec fn reaches(self, x: int, y: int, width: int, height: int) -> bool {
        match self {
            Transform::Identity => true,
            Transform::Rotate90 => x < height,
            Transform::Rotate180 => x < width && y < height,
            Transform::Rotate270 => y < width,
            Transform::FlipHorizontal => x < width,
            Transform::FlipVertical => y < height,
            Transform::FlipBoth => x < width && y < height,
        }
    }

    /// Apply transform to coordinates (x, y) in a framebuffer of given size.
    /// Returns the source coordinates (src_x, src_y) in the original framebuffer.
    pub fn map_coords(&self, x: usize, y: usize, width: usize, height: usize) -> (r: (
        usize,
        usize,
    ))
        requires
            self.reaches(x as int, y as int, width as int, height as int),
        ensures
            (r.0 as int, r.1 as int) == self.source(
                x as int,
                y as int,
                width as int,
                height as int,
            ),
    {
        match self {
            Transform::Identity => (x, y),
            Transform::Rotate90 => (y, height - 1 - x),
            Transform::Rotate180 => (width - 1 - x, height - 1 - y),
            Transform::Rotate270 => (width - 1 - y, x),
            Transform::FlipHorizontal => (width - 1 - x, y),
            Transform::FlipVertical => (x, height - 1 - y),
            Transform::FlipBoth => (width - 1 - x, height - 1 - y),
        }
    }

    /// Whether the transform swaps width and height.
    pub open spec fn swaps(self) -> bool {
        self is Rotate90 || self is Rotate270
    }

    /// The width of the image as shown.
    pub open spec fn shown_width(self, width: int, height: int) -> int {
        if self.swaps() {
            height
        } else {
            width
        }
    }

    /// The height of the image as shown.
    pub open spec fn shown_height(self, width: int, height: int) -> int {
        if self.swaps() {
            width
        } else {
            height
        }
    }

    /// Whether the transform swaps width and height.
    pub fn swaps_dimensions(&self) -> (r: bool)
        ensures
            r == self.swaps(),
    {
        matches!(self, Transform::Rotate90 | Transform::Rotate270)
    }

    /// Effective width after transform.
    pub fn transformed_width(&self, width: usize, height: usize) -> (r: usize)
        ensures
            r == self.shown_width(width as int, height as int),
    {
        if self.swaps_dimensions() {
            height
        } else {
            width
        }
    }

    /// Effective height after transform.
    pub fn transformed_height(&self, width: usize, height: usize) -> (r: usize)
        ensures
            r == self.shown_height(width as int, height as int),
    {
        if self.swaps_dimensions() {
            width
        } else {
            height
        }
    }

    /// Every pixel that is shown comes from inside the image.
    pub proof fn lemma_source_in_bounds(self, x: int, y: int, width: int, height: int)
        requires
            0 <= x < self.shown_width(width, height),
            0 <= y < self.shown_height(width, height),
        ensures
            self.reaches(x, y, width, height),
            0 <= self.source(x, y, width, height).0 < width,
            0 <= self.source(x, y, width, height).1 < height,
    {
    }

    /// No two pixels that are shown come from the same place.
    pub proof fn lemma_source_is_injective(
        self,
        x1: int,
        y1: int,
        x2: int,
        y2: int,
        width: int,
        height: int,
    )
        requires
            self.source(x1, y1, width, height) == self.source(x2, y2, width, height),
        ensures
            x1 == x2,
            y1 == y2,
    {
    }

    /// Two quarter turns are a half turn, and a quarter turn one way undoes one
    /// the other way.
    pub proof fn lemma_turns_compose(x: int, y: int, width: int, height: int)
        ensures
            ({
                let (u, v) = Transform::Rotate90.source(x, y, height, width);
                Transform::Rotate90.source(u, v, width, height)
            }) == Transform::Rotate180.source(x, y, width, height),
            ({
                let (u, v) = Transform::Rotate270.source(x, y, height, width);
                Transform::Rotate90.source(u, v, width, height)
            }) == (x, y),
    {
    }

    /// A flip undoes itself.
    pub proof fn lemma_flips_are_involutions(self, x: int, y: int, width: int, height: int)
        requires
            !self.swaps(),
        ensures
            ({
                let (u, v) = self.source(x, y, width, height);
                self.source(u, v, width, height)
            }) == (x, y),
    {
    }

    /// Turned by a quarter to the right, the top left of what is shown is the
    /// bottom left of the image; going right there is going up here, and going
    /// down there is going right here. The other turns and flips likewise: by
    /// half, the bottom right, left and up; by three quarters, the top right,
    /// down and left; a flip starts at the side that it swaps and runs backwards
    /// along it.
    pub proof fn lemma_turns_and_flips(x: int, y: int, w: int, h: int)
        ensures
            Transform::Identity.source(x, y, w, h) == (x, y),
            ({
                let at = |t: Transform, a: int, b: int| t.source(a, b, w, h);
                &&& at(Transform::Rotate90, 0, 0) == (0int, h - 1)
                &&& at(Transform::Rotate180, 0, 0) == (w - 1, h - 1)
                &&& at(Transform::Rotate270, 0, 0) == (w - 1, 0int)
                &&& at(Transform::FlipHorizontal, 0, 0) == (w - 1, 0int)
                &&& at(Transform::FlipVertical, 0, 0) == (0int, h - 1)
                &&& at(Transform::FlipBoth, 0, 0) == (w - 1, h - 1)
            }),
            Transform::Rotate90.moves(x, y, w, h, 0, -1, 1, 0),
            Transform::Rotate180.moves(x, y, w, h, -1, 0, 0, -1),
            Transform::Rotate270.moves(x, y, w, h, 0, 1, -1, 0),
            Transform::FlipHorizontal.moves(x, y, w, h, -1, 0, 0, 1),
            Transform::FlipVertical.moves(x, y, w, h, 1, 0, 0, -1),
            Transform::FlipBoth.moves(x, y, w, h, -1, 0, 0, -1),
            Transform::Rotate90.shown_width(w, h) == h && Transform::Rotate90.shown_height(w, h)
                == w,
            Transform::Rotate270.shown_width(w, h) == h && Transform::Rotate270.shown_height(w, h)
                == w,
            Transform::Rotate180.shown_width(w, h) == w && Transform::Rotate180.shown_height(w, h)
                == h,
            Transform::FlipBoth.shown_width(w, h) == w && Transform::FlipBoth.shown_height(w, h)
                == h,
            Transform::FlipHorizontal.shown_width(w, h) == w
                && Transform::FlipHorizontal.shown_height(w, h) == h,
            Transform::FlipVertical.shown_width(w, h) == w && Transform::FlipVertical.shown_height(
                w,
                h,
            ) == h,
            Transform::Identity.shown_width(w, h) == w && Transform::Identity.shown_height(w, h)
                == h,
    {
    }

    /// Whether one step to the right in what is shown is a step by `(a, b)` in
    /// the image, and one step down a step by `(c, d)`.
    pub open spec fn moves(
        self,
        x: int,
        y: int,
        w: int,
        h: int,
        a: int,
        b: int,
        c: int,
        d: int,
    ) -> bool {
        let (u, v) = self.source(x, y, w, h);
        self.source(x + 1, y, w, h) == (u + a, v + b) && self.source(x, y + 1, w, h) == (
            u + c,
            v + d,
        )
    }
}

/// `data` with `bytes` at position `at`.
pub open spec fn put(data: Seq<u8>, at: int, bytes: Seq<u8>) -> Seq<u8> {
    Seq::new(
        data.len(),
        |i: int|
            if at <= i < at + bytes.len() {
                bytes[i - at]
            } else {
                data[i]
            },
    )
}

/// The four bytes of the pixel at `(x, y)`.
pub open spec fn pixel_of(data: Seq<u8>, width: int, x: int, y: int) -> Seq<u8> {
    data.subrange((y * width + x) * 4, (y * width + x) * 4 + 4)
}

/// `data` after `n` bytes at `from` were copied to `to`; nothing is copied where
/// either end leaves the image.
pub open spec fn run_copied(data: Seq<u8>, from: int, to: int, n: int) -> Seq<u8> {
    if from + n <= data.len() && to + n <= data.len() {
        put(data, to, data.subrange(from, from + n))
    } else {
        data
    }
}

/// A rectangle of `width` pixels per row that moves inside an image with
/// `stride` pixels per row.
pub struct Move {
    pub stride: int,
    pub src_x: int,
    pub src_y: int,
    pub dst_x: int,
    pub dst_y: int,
    pub width: int,
}

impl Move {
    /// `data` after the copy of row `row`.
    pub open spec fn row(self, data: Seq<u8>, row: int) -> Seq<u8> {
        run_copied(
            data,
            ((self.src_y + row) * self.stride + self.src_x) * 4,
            ((self.dst_y + row) * self.stride + self.dst_x) * 4,
            self.width * 4,
        )
    }

    /// `data` after the copy of the first `n` rows, from the top.
    pub open spec fn downward(self, data: Seq<u8>, n: nat) -> Seq<u8>
        decreases n,
    {
        if n == 0 {
            data
        } else {
            self.row(self.downward(data, (n - 1) as nat), n - 1)
        }
    }

    /// `data` after the copy of the last `n` of `height` rows, from the bottom.
    pub open spec fn upward(self, data: Seq<u8>, height: nat, n: nat) -> Seq<u8>
        decreases n,
    {
        if n == 0 {
            data
        } else {
            self.row(self.upward(data, height, (n - 1) as nat), height - n)
        }
    }

    /// `data` after the copy of all rows. Rows are taken from the bottom where
    /// the rectangle moves down, so that no row is overwritten before it has
    /// been copied.
    pub open spec fn all(self, data: Seq<u8>, height: nat) -> Seq<u8> {
        if self.src_y < self.dst_y || (self.src_y == self.dst_y && self.src_x < self.dst_x) {
            self.upward(data, height, height)
        } else {
            self.downward(data, height)
        }
    }

    /// Whether source and destination lie inside an image of `rows` rows.
    pub open spec fn inside(self, data: Seq<u8>, rows: int, height: int) -> bool {
        &&& self.width >= 0
        &&& self.stride >= 0
        &&& self.src_x >= 0
        &&& self.src_y >= 0
        &&& self.dst_x >= 0
        &&& self.dst_y >= 0
        &&& self.src_x + self.width <= self.stride
        &&& self.dst_x + self.width <= self.stride
        &&& self.src_y + height <= rows
        &&& self.dst_y + height <= rows
        &&& rows * self.stride * 4 <= data.len()
    }

    /// The byte that ends up at column `c` of row `y`, counted in bytes.
    pub open spec fn byte_after(self, data: Seq<u8>, height: int, y: int, c: int) -> u8 {
        if self.dst_y <= y < self.dst_y + height && self.dst_x * 4 <= c < (self.dst_x + self.width)
            * 4 {
            data[(y - self.dst_y + self.src_y) * (self.stride * 4) + (c - self.dst_x * 4
                + self.src_x * 4)]
        } else {
            data[y * (self.stride * 4) + c]
        }
    }

    /// A rectangle that lies inside the image, as does the place it moves to,
    /// arrives there unchanged, even where the two overlap, and the rest of the
    /// image stays as it was.
    pub proof fn lemma_copy_moves_the_rectangle(
        self,
        data: Seq<u8>,
        rows: int,
        height: nat,
        y: int,
        c: int,
    )
        requires
            self.inside(data, rows, height as int),
            0 <= y < rows,
            0 <= c < self.stride * 4,
        ensures
            self.all(data, height).len() == data.len(),
            self.all(data, height)[y * (self.stride * 4) + c] == self.byte_after(
                data,
                height as int,
                y,
                c,
            ),
    {
        if self.src_y < self.dst_y || (self.src_y == self.dst_y && self.src_x < self.dst_x) {
            self.lemma_upward(data, rows, height, height, y, c);
        } else {
            self.lemma_downward(data, rows, height, height, y, c);
        }
    }

    proof fn lemma_row(self, before: Seq<u8>, rows: int, row: int, y: int, c: int)
        requires
            self.inside(before, rows, row + 1),
            row >= 0,
            0 <= y < rows,
            0 <= c < self.stride * 4,
        ensures
            self.row(before, row).len() == before.len(),
            self.row(before, row)[y * (self.stride * 4) + c] == if y == self.dst_y + row
                && self.dst_x * 4 <= c < (self.dst_x + self.width) * 4 {
                before[(self.src_y + row) * (self.stride * 4) + (c - self.dst_x * 4 + self.src_x
                    * 4)]
            } else {
                before[y * (self.stride * 4) + c]
            },
    {
        let s = self.stride * 4;
        let from = ((self.src_y + row) * self.stride + self.src_x) * 4;
        let to = ((self.dst_y + row) * self.stride + self.dst_x) * 4;
        let n = self.width * 4;
        assert(from == (self.src_y + row) * s + self.src_x * 4) by (nonlinear_arith)
            requires
                s == self.stride * 4,
                from == ((self.src_y + row) * self.stride + self.src_x) * 4,
        ;
        assert(to == (self.dst_y + row) * s + self.dst_x * 4) by (nonlinear_arith)
            requires
                s == self.stride * 4,
                to == ((self.dst_y + row) * self.stride + self.dst_x) * 4,
        ;
        assert(rows * s <= before.len()) by (nonlinear_arith)
            requires
                s == self.stride * 4,
                rows * self.stride * 4 <= before.len(),
        ;
        lemma_row_end(self.src_y + row, rows, s);
        lemma_row_end(self.dst_y + row, rows, s);
        lemma_row_end(y, rows, s);
        assert((self.src_y + row) * s >= 0) by (nonlinear_arith)
            requires
                self.src_y + row >= 0,
                s >= 0,
        ;
        assert((self.dst_y + row) * s >= 0) by (nonlinear_arith)
            requires
                self.dst_y + row >= 0,
                s >= 0,
        ;
        assert(y * s >= 0) by (nonlinear_arith)
            requires
                y >= 0,
                s >= 0,
        ;
        assert(from + n <= before.len());
        assert(to + n <= before.len());
        if y != self.dst_y + row {
            lemma_rows_apart(y, self.dst_y + row, s);
        }
    }

    proof fn lemma_downward(self, data: Seq<u8>, rows: int, height: nat, n: nat, y: int, c: int)
        requires
            self.inside(data, rows, height as int),
            n <= height,
            !(self.src_y < self.dst_y || (self.src_y == self.dst_y && self.src_x < self.dst_x)),
            0 <= y < rows,
            0 <= c < self.stride * 4,
        ensures
            self.downward(data, n).len() == data.len(),
            self.downward(data, n)[y * (self.stride * 4) + c] == self.byte_after(
                data,
                n as int,
                y,
                c,
            ),
        decreases n,
    {
        if n > 0 {
            let k = (n - 1) as nat;
            let before = self.downward(data, k);
            self.lemma_downward(data, rows, height, k, y, c);
            self.lemma_row(before, rows, k as int, y, c);
            if y == self.dst_y + k && self.dst_x * 4 <= c < (self.dst_x + self.width) * 4 {
                self.lemma_downward(
                    data,
                    rows,
                    height,
                    k,
                    self.src_y + k,
                    c - self.dst_x * 4 + self.src_x * 4,
                );
            }
        }
    }

    proof fn lemma_upward(self, data: Seq<u8>, rows: int, height: nat, n: nat, y: int, c: int)
        requires
            self.inside(data, rows, height as int),
            n <= height,
            self.src_y <= self.dst_y,
            0 <= y < rows,
            0 <= c < self.stride * 4,
        ensures
            self.upward(data, height, n).len() == data.len(),
            self.upward(data, height, n)[y * (self.stride * 4) + c] == if y >= self.dst_y + height
                - n {
                self.byte_after(data, height as int, y, c)
            } else {
                data[y * (self.stride * 4) + c]
            },
        decreases n,
    {
        if n > 0 {
            let k = (n - 1) as nat;
            let before = self.upward(data, height, k);
            let row = height - n;
            self.lemma_upward(data, rows, height, k, y, c);
            self.lemma_row(before, rows, row, y, c);
            if y == self.dst_y + row && self.dst_x * 4 <= c < (self.dst_x + self.width) * 4 {
                self.lemma_upward(
                    data,
                    rows,
                    height,
                    k,
                    self.src_y + row,
                    c - self.dst_x * 4 + self.src_x * 4,
                );
            }
        }
    }
}

proof fn lemma_row_end(y: int, rows: int, s: int)
    by (nonlinear_arith)
    requires
        0 <= y < rows,
        s >= 0,
    ensures
        y * s + s <= rows * s,
{
}

proof fn lemma_rows_apart(a: int, b: int, s: int)
    by (nonlinear_arith)
    requires
        a != b,
        s >= 0,
    ensures
        a * s + s <= b * s || b * s + s <= a * s,
{
}

/// Framebuffer storage (always RGBA8888 internally).
pub struct Framebuffer {
    pub width: usize,
    pub height: usize,
    pub data: Vec<u8>,
    pub transform: Transform,
}

/// What a framebuffer holds.
pub struct Image {
    pub width: nat,
    pub height: nat,
    pub data: Seq<u8>,
    pub transform: Transform,
}

impl View for Framebuffer {
    type V = Image;

    open spec fn view(&self) -> Image {
        Image {
            width: self.width as nat,
            height: self.height as nat,
            data: self.data@,
            transform: self.transform,
        }
    }
}

fn put_bytes(data: &mut Vec<u8>, at: usize, bytes: &[u8])
    requires
        at + bytes@.len() <= old(data)@.len(),
    ensures
        final(data)@ == put(old(data)@, at as int, bytes@),
{
    let n: usize = bytes.len();
    let mut i: usize = 0;
    while i < n
        invariant
            n == bytes@.len(),
            i <= n,
            at + n <= data@.len(),
            data@ == put(old(data)@, at as int, bytes@.take(i as int)),
        decreases n - i,
    {
        assert(at + i < data.len());
        data[at + i] = bytes[i];
        i = i + 1;
        assert(data@ =~= put(old(data)@, at as int, bytes@.take(i as int)));
    }
    assert(bytes@.take(n as int) =~= bytes@);
}

fn move_bytes(data: &mut Vec<u8>, from: usize, to: usize, n: usize)
    requires
        from + n <= old(data)@.len(),
        to + n <= old(data)@.len(),
    ensures
        final(data)@ == put(old(data)@, to as int, old(data)@.subrange(from as int, from + n)),
{
    let ghost before = data@;
    if to <= from {
        let mut i: usize = 0;
        while i < n
            invariant
                i <= n,
                to <= from,
                from + n <= data@.len(),
                data@.len() == before.len(),
                forall|k: int|
                    0 <= k < data@.len() ==> data@[k] == if to <= k < to + i {
                        before[k - to + from]
                    } else {
                        before[k]
                    },
            decreases n - i,
        {
            assert(from + i < data.len());
            let b: u8 = data[from + i];
            data[to + i] = b;
            i = i + 1;
        }
    } else {
        let mut i: usize = n;
        while i > 0
            invariant
                i <= n,
                from < to,
                to + n <= data@.len(),
                data@.len() == before.len(),
                forall|k: int|
                    0 <= k < data@.len() ==> data@[k] == if to + i <= k < to + n {
                        before[k - to + from]
                    } else {
                        before[k]
                    },
            decreases i,
        {
            i = i - 1;
            assert(to + i < data.len());
            let b: u8 = data[from + i];
            data[to + i] = b;
        }
    }
    assert(data@ =~= put(before, to as int, before.subrange(from as int, from + n)));
}

/// How many of `width` pixels from column `x` on lie left of column `stride`.
pub open spec fn columns_inside(width: int, stride: int, x: int) -> int {
    if x >= stride {
        0
    } else if width <= stride - x {
        width
    } else {
        stride - x
    }
}

/// The bytes of the image after `rows` rows of `width` pixels of ready RGBA were
/// written at `(x, y)`. A row is cut at the right edge of the image, and where
/// the source or the bytes of the image end; a row below the image is left out.
pub open spec fn rgba_rows_written(
    image: Image,
    x: int,
    y: int,
    width: int,
    src: Seq<u8>,
    rows: nat,
) -> Seq<u8>
    decreases rows,
{
    if rows == 0 {
        image.data
    } else {
        let row = rows - 1;
        let before = rgba_rows_written(image, x, y, width, src, row as nat);
        let from = row * (width * 4);
        let to = ((y + row) * image.width + x) * 4;
        if x < image.width && y + row < image.height && to < image.data.len() && from < src.len() {
            let n = min3(
                columns_inside(width, image.width as int, x) * 4,
                src.len() - from,
                image.data.len() - to,
            );
            put(before, to, src.subrange(from, from + n))
        } else {
            before
        }
    }
}

/// The least of three numbers.
pub open spec fn min3(a: int, b: int, c: int) -> int {
    if a <= b && a <= c {
        a
    } else if b <= c {
        b
    } else {
        c
    }
}

/// The bytes of the image after the first `n` pixels of a rectangle in another
/// format were written at `(x, y)`, row by row. A pixel that the source does not
/// hold in full, or that lies outside the image, is left out.
pub open spec fn pixels_written(
    image: Image,
    x: int,
    y: int,
    width: int,
    src: Seq<u8>,
    format: PixelFormat,
    n: nat,
) -> Seq<u8>
    decreases n,
{
    if n == 0 {
        image.data
    } else {
        let k = n - 1;
        let before = pixels_written(image, x, y, width, src, format, k as nat);
        let from = k * format.pixel_len();
        let (u, v) = (x + k % width, y + k / width);
        let to = (v * image.width + u) * 4;
        if u < image.width && v < image.height && from + format.pixel_len() <= src.len() && to + 4
            <= image.data.len() {
            put(before, to, format.rgba_of(src.subrange(from, from + format.pixel_len())))
        } else {
            before
        }
    }
}

/// The bytes of the image after a region of pixels in `format` was written.
pub open spec fn region_written(
    image: Image,
    x: int,
    y: int,
    width: int,
    height: int,
    src: Seq<u8>,
    format: PixelFormat,
) -> Seq<u8> {
    if format == PixelFormat::rgba() {
        rgba_rows_written(image, x, y, width, src, height as nat)
    } else {
        pixels_written(image, x, y, width, src, format, (width * height) as nat)
    }
}

proof fn lemma_rgba_rows_len(image: Image, x: int, y: int, width: int, src: Seq<u8>, rows: nat)
    ensures
        rgba_rows_written(image, x, y, width, src, rows).len() == image.data.len(),
    decreases rows,
{
    if rows > 0 {
        lemma_rgba_rows_len(image, x, y, width, src, (rows - 1) as nat);
    }
}

proof fn lemma_pixels_len(
    image: Image,
    x: int,
    y: int,
    width: int,
    src: Seq<u8>,
    format: PixelFormat,
    n: nat,
)
    ensures
        pixels_written(image, x, y, width, src, format, n).len() == image.data.len(),
    decreases n,
{
    if n > 0 {
        lemma_pixels_len(image, x, y, width, src, format, (n - 1) as nat);
    }
}

/// Writing a region does not change the size of the image.
pub proof fn lemma_region_keeps_size(
    image: Image,
    x: int,
    y: int,
    width: int,
    height: int,
    src: Seq<u8>,
    format: PixelFormat,
)
    ensures
        region_written(image, x, y, width, height, src, format).len() == image.data.len(),
{
    lemma_rgba_rows_len(image, x, y, width, src, height as nat);
    lemma_pixels_len(image, x, y, width, src, format, (width * height) as nat);
}

/// Whether byte `i` of the image belongs to a pixel that lies both in the image
/// and in the rectangle.
pub open spec fn inside_both(
    image: Image,
    x: int,
    y: int,
    width: int,
    height: int,
    i: int,
) -> bool {
    let s = image.width as int * 4;
    s > 0 && i / s < image.height && y <= i / s < y + height && x * 4 <= i % s < (x + width) * 4
}

proof fn lemma_byte_of_row(v: int, s: int, c: int, i: int)
    requires
        s > 0,
        0 <= c < s,
        i == v * s + c,
    ensures
        i / s == v,
        i % s == c,
{
    assert(v * s == s * v) by (nonlinear_arith);
    vstd::arithmetic::div_mod::lemma_fundamental_div_mod_converse(i, s, v, c);
}

proof fn lemma_rows_stay_inside(
    image: Image,
    x: int,
    y: int,
    width: int,
    height: nat,
    src: Seq<u8>,
    n: nat,
    i: int,
)
    requires
        0 <= x,
        0 <= y,
        0 <= width,
        n <= height,
        0 <= i < image.data.len(),
        !inside_both(image, x, y, width, height as int, i),
    ensures
        rgba_rows_written(image, x, y, width, src, n)[i] == image.data[i],
    decreases n,
{
    if n > 0 {
        let k = n - 1;
        lemma_rows_stay_inside(image, x, y, width, height, src, k as nat, i);
        lemma_rgba_rows_len(image, x, y, width, src, k as nat);
        let w = image.width as int;
        let from = k * (width * 4);
        let to = ((y + k) * w + x) * 4;
        let most = columns_inside(width, w, x) * 4;
        assert(from >= 0) by (nonlinear_arith)
            requires
                k >= 0,
                width >= 0,
                from == k * (width * 4),
        ;
        assert(to == (y + k) * (w * 4) + x * 4) by (nonlinear_arith)
            requires
                to == ((y + k) * w + x) * 4,
        ;
        if x < w && y + k < image.height && to <= i < to + most {
            lemma_byte_of_row(y + k, w * 4, x * 4 + (i - to), i);
        }
    }
}

proof fn lemma_pixels_stay_inside(
    image: Image,
    x: int,
    y: int,
    width: int,
    height: nat,
    src: Seq<u8>,
    format: PixelFormat,
    n: nat,
    i: int,
)
    requires
        0 <= x,
        0 <= y,
        0 < width,
        n <= width * height,
        0 <= i < image.data.len(),
        !inside_both(image, x, y, width, height as int, i),
    ensures
        pixels_written(image, x, y, width, src, format, n)[i] == image.data[i],
    decreases n,
{
    if n > 0 {
        let k = n - 1;
        lemma_pixels_stay_inside(image, x, y, width, height, src, format, k as nat, i);
        lemma_pixels_len(image, x, y, width, src, format, k as nat);
        let w = image.width as int;
        let (u, v) = (x + k % width, y + k / width);
        let to = (v * w + u) * 4;
        vstd::arithmetic::div_mod::lemma_fundamental_div_mod(k, width);
        vstd::arithmetic::div_mod::lemma_mod_bound(k, width);
        assert(0 <= k / width < height) by (nonlinear_arith)
            requires
                0 < width,
                0 <= k < width * height,
                k == width * (k / width) + k % width,
                0 <= k % width < width,
        ;
        assert(to == v * (w * 4) + u * 4) by (nonlinear_arith)
            requires
                to == (v * w + u) * 4,
        ;
        if u < w && v < image.height && to <= i < to + 4 {
            lemma_byte_of_row(v, w * 4, u * 4 + (i - to), i);
        }
    }
}

/// Writing a region, in whatever format, changes no byte outside the part of the
/// rectangle that lies in the image.
pub proof fn lemma_region_stays_inside(
    image: Image,
    x: int,
    y: int,
    width: int,
    height: nat,
    src: Seq<u8>,
    format: PixelFormat,
    i: int,
)
    requires
        0 <= x,
        0 <= y,
        0 <= width,
        0 <= i < image.data.len(),
        !inside_both(image, x, y, width, height as int, i),
    ensures
        image.with_region(x, y, width, height as int, src, format).data[i] == image.data[i],
{
    lemma_rows_stay_inside(image, x, y, width, height, src, height, i);
    if width > 0 {
        assert(width * height >= 0) by (nonlinear_arith)
            requires
                width > 0,
                height >= 0,
        ;
        lemma_pixels_stay_inside(
            image,
            x,
            y,
            width,
            height,
            src,
            format,
            (width * height) as nat,
            i,
        );
    } else {
        assert(width * height == 0) by (nonlinear_arith)
            requires
                width == 0,
        ;
    }
}

/// The first `n` bytes of `data`, filled up with zeros.
pub open spec fn resized(data: Seq<u8>, n: nat) -> Seq<u8> {
    Seq::new(
        n,
        |i: int|
            if i < data.len() {
                data[i]
            } else {
                0u8
            },
    )
}

impl Image {
    /// Whether every pixel has its four bytes.
    pub open spec fn covered(self) -> bool {
        self.width * self.height * 4 <= self.data.len()
    }

    /// The pixel shown at `(x, y)`.
    pub open spec fn shown(self, x: int, y: int) -> Option<Seq<u8>> {
        let (w, h) = (self.width as int, self.height as int);
        if x < self.transform.shown_width(w, h) && y < self.transform.shown_height(w, h) {
            let (sx, sy) = self.transform.source(x, y, w, h);
            Some(pixel_of(self.data, w, sx, sy))
        } else {
            None
        }
    }

    /// The image with `rgba` at `(x, y)`, or unchanged where that lies outside.
    pub open spec fn with_pixel(self, x: int, y: int, rgba: Seq<u8>) -> Image {
        if x < self.width && y < self.height {
            Image { data: put(self.data, (y * self.width + x) * 4, rgba), ..self }
        } else {
            self
        }
    }

    /// The image at another size; the bytes keep their place.
    pub open spec fn with_size(self, width: nat, height: nat) -> Image {
        Image { width, height, data: resized(self.data, width * height * 4), ..self }
    }

    /// The image after a region of pixels in `format` was written.
    pub open spec fn with_region(
        self,
        x: int,
        y: int,
        width: int,
        height: int,
        src: Seq<u8>,
        format: PixelFormat,
    ) -> Image {
        Image {
            data: region_written(self, x, y, width, height, src, format),
            ..self
        }
    }

    /// The image after a rectangle was copied.
    pub open spec fn with_copy(
        self,
        src_x: int,
        src_y: int,
        dst_x: int,
        dst_y: int,
        width: int,
        height: nat,
    ) -> Image {
        let m = Move { stride: self.width as int, src_x, src_y, dst_x, dst_y, width };
        Image { data: m.all(self.data, height), ..self }
    }

    /// A pixel that was written is the one that is then found at its place, and
    /// every other pixel stays.
    pub proof fn lemma_pixel_reads_back(self, x: int, y: int, rgba: Seq<u8>, u: int, v: int)
        requires
            self.covered(),
            rgba.len() == 4,
            0 <= x < self.width,
            0 <= y < self.height,
            0 <= u < self.width,
            0 <= v < self.height,
        ensures
            pixel_of(self.with_pixel(x, y, rgba).data, self.width as int, u, v) == if u == x && v
                == y {
                rgba
            } else {
                pixel_of(self.data, self.width as int, u, v)
            },
    {
        let w = self.width as int;
        lemma_row_end(y, self.height as int, w);
        lemma_row_end(v, self.height as int, w);
        assert(y * w >= 0 && v * w >= 0) by (nonlinear_arith)
            requires
                y >= 0,
                v >= 0,
                w >= 0,
        ;
        if y != v {
            lemma_rows_apart(y, v, w);
        }
        assert(self.width * self.height == self.height * w) by (nonlinear_arith)
            requires
                w == self.width,
        ;
        assert(pixel_of(self.with_pixel(x, y, rgba).data, w, u, v) =~= if u == x && v == y {
            rgba
        } else {
            pixel_of(self.data, w, u, v)
        });
    }

    /// Rows of ready RGBA arrive where they were aimed at, byte for byte, as far
    /// as they lie inside the image, and the rest of the image stays.
    pub proof fn lemma_region_arrives(
        self,
        x: int,
        y: int,
        width: int,
        height: nat,
        src: Seq<u8>,
        row: int,
        c: int,
    )
        requires
            self.covered(),
            0 <= x,
            0 <= y,
            0 <= width,
            src.len() == width * height * 4,
            0 <= row < self.height,
            0 <= c < self.width * 4,
        ensures
            self.with_region(
                x,
                y,
                width,
                height as int,
                src,
                PixelFormat::rgba(),
            ).data[row * (self.width * 4) + c] == if y <= row < y + height && x * 4 <= c < (x
                + width) * 4 {
                src[(row - y) * (width * 4) + (c - x * 4)]
            } else {
                self.data[row * (self.width * 4) + c]
            },
    {
        lemma_rgba_rows(self, x, y, width, height, src, height, row, c);
    }
}

proof fn lemma_rgba_rows(
    image: Image,
    x: int,
    y: int,
    width: int,
    height: nat,
    src: Seq<u8>,
    n: nat,
    row: int,
    c: int,
)
    requires
        image.covered(),
        0 <= x,
        0 <= y,
        0 <= width,
        n <= height,
        src.len() == width * height * 4,
        0 <= row < image.height,
        0 <= c < image.width * 4,
    ensures
        rgba_rows_written(image, x, y, width, src, n).len()
            == image.data.len(),
        rgba_rows_written(image, x, y, width, src, n)[row * (image.width
            * 4) + c] == if y <= row < y + n && x * 4 <= c < (x + width) * 4 {
            src[(row - y) * (width * 4) + (c - x * 4)]
        } else {
            image.data[row * (image.width * 4) + c]
        },
    decreases n,
{
    if n > 0 {
        let w = image.width as int;
        let s = w * 4;
        let k = (n - 1) as nat;
        let p = width * 4;
        lemma_rgba_rows(image, x, y, width, height, src, k, row, c);
        let from = k * p;
        let to = ((y + k) * w + x) * 4;
        assert(to == (y + k) * s + x * 4) by (nonlinear_arith)
            requires
                s == w * 4,
                to == ((y + k) * w + x) * 4,
        ;
        assert(image.height * s <= image.data.len()) by (nonlinear_arith)
            requires
                s == w * 4,
                w == image.width,
                image.width * image.height * 4 <= image.data.len(),
        ;
        assert(height * p == src.len()) by (nonlinear_arith)
            requires
                p == width * 4,
                src.len() == width * height * 4,
        ;
        lemma_row_end(k as int, height as int, p);
        if y + k < image.height {
            lemma_row_end(y + k, image.height as int, s);
        }
        lemma_row_end(row, image.height as int, s);
        assert(k * p >= 0 && (y + k) * s >= 0 && row * s >= 0) by (nonlinear_arith)
            requires
                k >= 0,
                p >= 0,
                s >= 0,
                y + k >= 0,
                row >= 0,
        ;
        if row != y + k {
            lemma_rows_apart(row, y + k, s);
        }
    }
}

impl Framebuffer {
    /// Whether every pixel has its four bytes.
    pub open spec fn wf(&self) -> bool {
        self@.covered()
    }

    /// A black, transparent image.
    pub fn new(width: usize, height: usize) -> (r: Self)
        requires
            width * height * 4 <= isize::MAX,
        ensures
            r.wf(),
            r@ == (Image {
                width: width as nat,
                height: height as nat,
                data: resized(Seq::empty(), (width * height * 4) as nat),
                transform: Transform::Identity,
            }),
    {
        assert(width * height <= width * height * 4) by (nonlinear_arith)
            requires
                width >= 0,
                height >= 0,
        ;
        let data = vec![0u8; width * height * 4];
        assert(data@ =~= resized(Seq::empty(), (width * height * 4) as nat));
        Framebuffer { width, height, data, transform: Transform::Identity }
    }

    /// An image over the bytes given.
    pub fn from_raw(width: usize, height: usize, data: Vec<u8>) -> (r: Self)
        ensures
            r@ == (Image {
                width: width as nat,
                height: height as nat,
                data: data@,
                transform: Transform::Identity,
            }),
    {
        Framebuffer { width, height, data, transform: Transform::Identity }
    }

    /// Changes the size; the bytes keep their place, and new ones are zero.
    pub fn resize(&mut self, width: usize, height: usize)
        requires
            width * height * 4 <= isize::MAX,
        ensures
            final(self).wf(),
            final(self)@ == old(self)@.with_size(width as nat, height as nat),
    {
        assert(width * height <= width * height * 4) by (nonlinear_arith)
            requires
                width >= 0,
                height >= 0,
        ;
        self.width = width;
        self.height = height;
        let n: usize = width * height * 4;
        let ghost before = self.data@;
        self.data.resize(n, 0);
        assert(self.data@ =~= resized(before, n as nat)) by {
            if n > before.len() {
                assert forall|i: int| 0 <= i < before.len() implies self.data@[i] == before[i] by {
                    assert(self.data@.subrange(0, before.len() as int)[i] == before[i]);
                }
            }
        }
    }

    pub fn width(&self) -> (r: usize)
        ensures
            r == self@.width,
    {
        self.width
    }

    pub fn height(&self) -> (r: usize)
        ensures
            r == self@.height,
    {
        self.height
    }

    pub fn data(&self) -> (r: &[u8])
        ensures
            r@ == self@.data,
    {
        self.data.as_slice()
    }

    pub fn data_mut(&mut self) -> (r: &mut [u8])
        ensures
            r@ == old(self)@.data,
            final(self)@ == (Image { data: final(r)@, ..old(self)@ }),
    {
        self.data.as_mut_slice()
    }

    pub fn set_transform(&mut self, transform: Transform)
        ensures
            final(self)@ == (Image { transform, ..old(self)@ }),
    {
        self.transform = transform;
    }

    pub fn transform(&self) -> (r: Transform)
        ensures
            r == self@.transform,
    {
        self.transform
    }

    /// Read a pixel from the framebuffer, applying the current transform.
    pub fn read_pixel(&self, x: usize, y: usize) -> (r: Option<[u8; 4]>)
        requires
            self.wf(),
        ensures
            r matches Some(px) ==> self@.shown(x as int, y as int) == Some(px@),
            r is None ==> self@.shown(x as int, y as int) is None,
    {
        let shown_width: usize = self.transform.transformed_width(self.width, self.height);
        let shown_height: usize = self.transform.transformed_height(self.width, self.height);
        if x >= shown_width || y >= shown_height {
            return None;
        }
        let (src_x, src_y) = self.transform.map_coords(x, y, self.width, self.height);
        assert(self.data@.len() == self.data.len());
        proof {
            lemma_row_end(src_y as int, self.height as int, self.width as int);
            assert(self.width * self.height == self.height * self.width) by (nonlinear_arith);
            assert(src_y * self.width >= 0) by (nonlinear_arith)
                requires
                    src_y >= 0,
                    self.width >= 0,
            ;
        }
        let offset: usize = (src_y * self.width + src_x) * 4;
        let px = [
            self.data[offset],
            self.data[offset + 1],
            self.data[offset + 2],
            self.data[offset + 3],
        ];
        assert(px@ =~= pixel_of(self.data@, self.width as int, src_x as int, src_y as int));
        Some(px)
    }

    /// Write a single pixel (RGBA).
    pub fn write_pixel(&mut self, x: usize, y: usize, rgba: [u8; 4])
        requires
            old(self).wf(),
        ensures
            final(self)@ == old(self)@.with_pixel(x as int, y as int, rgba@),
            final(self).wf(),
    {
        if x < self.width && y < self.height {
            assert(self.data@.len() == self.data.len());
            proof {
                lemma_row_end(y as int, self.height as int, self.width as int);
                assert(self.width * self.height == self.height * self.width) by (nonlinear_arith);
                assert(y * self.width >= 0) by (nonlinear_arith)
                    requires
                        y >= 0,
                        self.width >= 0,
                ;
            }
            let offset: usize = (y * self.width + x) * 4;
            put_bytes(&mut self.data, offset, rgba.as_slice());
        }
    }

    /// Whether the numbers of a region can be computed with.
    pub open spec fn addressable(self, x: usize, y: usize, width: usize, height: usize) -> bool {
        &&& y + height <= u64::MAX
        &&& ((y + height) * self.width + x + width) * 4 <= u64::MAX
        &&& width * height * 32 <= u64::MAX
    }

    /// Write a region of pixels (source is in the server's pixel format).
    pub fn write_region(
        &mut self,
        x: usize,
        y: usize,
        width: usize,
        height: usize,
        src: &[u8],
        src_format: &PixelFormat,
    )
        requires
            old(self).addressable(x, y, width, height),
            *src_format == PixelFormat::rgba() && height > 0 ==> (height - 1) * (width * 4)
                <= src@.len(),
        ensures
            final(self)@ == old(self)@.with_region(
                x as int,
                y as int,
                width as int,
                height as int,
                src@,
                *src_format,
            ),
            final(self)@.data.len() == old(self)@.data.len(),
    {
        if *src_format == PixelFormat::rgba32() {
            self.write_rows(x, y, width, height, src);
        } else {
            self.write_pixels(x, y, width, height, src, src_format);
        }
    }

    fn write_rows(&mut self, x: usize, y: usize, width: usize, height: usize, src: &[u8])
        requires
            old(self).addressable(x, y, width, height),
            height > 0 ==> (height - 1) * (width * 4) <= src@.len(),
        ensures
            final(self)@ == (Image {
                data: rgba_rows_written(
                    old(self)@,
                    x as int,
                    y as int,
                    width as int,
                    src@,
                    height as nat,
                ),
                ..old(self)@
            }),
            final(self)@.data.len() == old(self)@.data.len(),
    {
        let ghost before = self@;
        let mut row: usize = 0;
        while row < height
            invariant
                row <= height,
                height > 0 ==> (height - 1) * (width * 4) <= src@.len(),
                self.addressable(x, y, width, height),
                self@ == (Image { data: self@.data, ..before }),
                self@.data.len() == before.data.len(),
                self@.data == rgba_rows_written(
                    before,
                    x as int,
                    y as int,
                    width as int,
                    src@,
                    row as nat,
                ),
            decreases height - row,
        {
            assert(src@.len() == src.len());
            assert(self.data@.len() == self.data.len());
            proof {
                lemma_offsets(x as int, y as int, width as int, height as int, self.width as int, row as int);
                lemma_row_start(row as int, height as int, width * 4);
            }
            let src_offset: u64 = row as u64 * (width as u64 * 4);
            let dst_offset: u64 = ((y as u64 + row as u64) * self.width as u64 + x as u64) * 4;
            if x < self.width && y as u64 + (row as u64) < self.height as u64 && dst_offset
                < self.data.len() as u64 && src_offset < src.len() as u64 {
                let from: usize = src_offset as usize;
                let to: usize = dst_offset as usize;
                let columns: usize = if width <= self.width - x {
                    width
                } else {
                    self.width - x
                };
                let mut n: u64 = columns as u64 * 4;
                if n > (src.len() - from) as u64 {
                    n = (src.len() - from) as u64;
                }
                if n > (self.data.len() - to) as u64 {
                    n = (self.data.len() - to) as u64;
                }
                let n: usize = n as usize;
                put_bytes(&mut self.data, to, slice(src, from, from + n));
            }
            row = row + 1;
        }
    }

    fn write_pixels(
        &mut self,
        x: usize,
        y: usize,
        width: usize,
        height: usize,
        src: &[u8],
        format: &PixelFormat,
    )
        requires
            old(self).addressable(x, y, width, height),
        ensures
            final(self)@ == (Image {
                data: pixels_written(
                    old(self)@,
                    x as int,
                    y as int,
                    width as int,
                    src@,
                    *format,
                    (width * height) as nat,
                ),
                ..old(self)@
            }),
            final(self)@.data.len() == old(self)@.data.len(),
    {
        let ghost before = self@;
        let len: usize = format.bytes_per_pixel();
        let mut row: usize = 0;
        assert(width * 0 == 0);
        while row < height
            invariant
                row <= height,
                len == format.pixel_len(),
                len <= 31,
                self.addressable(x, y, width, height),
                self@ == (Image { data: self@.data, ..before }),
                self@.data.len() == before.data.len(),
                self@.data == pixels_written(
                    before,
                    x as int,
                    y as int,
                    width as int,
                    src@,
                    *format,
                    (width * row) as nat,
                ),
            decreases height - row,
        {
            let mut col: usize = 0;
            while col < width
                invariant
                    row < height,
                    col <= width,
                    len == format.pixel_len(),
                    len <= 31,
                    self.addressable(x, y, width, height),
                    self@ == (Image { data: self@.data, ..before }),
                    self@.data.len() == before.data.len(),
                    self@.data == pixels_written(
                        before,
                        x as int,
                        y as int,
                        width as int,
                        src@,
                        *format,
                        (width * row + col) as nat,
                    ),
                decreases width - col,
            {
                assert(src@.len() == src.len());
                assert(self.data@.len() == self.data.len());
                let ghost k = width * row + col;
                proof {
                    lemma_offsets(x as int, y as int, width as int, height as int, self.width as int, row as int);
                    lemma_pixel_index(row as int, col as int, width as int, height as int, len as int);
                }
                let src_offset: u64 = (row as u64 * width as u64 + col as u64) * len as u64;
                let dst_offset: u64 = ((y as u64 + row as u64) * self.width as u64 + x as u64
                    + col as u64) * 4;
                assert(src_offset == k * len);
                if x as u64 + (col as u64) < self.width as u64 && y as u64 + (row as u64)
                    < self.height as u64 && src_offset + len as u64 <= src.len() as u64
                    && dst_offset + 4 <= self.data.len() as u64 {
                    let from: usize = src_offset as usize;
                    let rgba = format.to_rgba(slice(src, from, from + len));
                    put_bytes(&mut self.data, dst_offset as usize, rgba.as_slice());
                }
                col = col + 1;
            }
            assert(width * row + width == width * (row + 1)) by (nonlinear_arith);
            row = row + 1;
        }
    }

    /// Copy a rectangle from one location to another.
    pub fn copy_rect(
        &mut self,
        src_x: usize,
        src_y: usize,
        dst_x: usize,
        dst_y: usize,
        width: usize,
        height: usize,
    )
        requires
            old(self).addressable(src_x, src_y, width, height),
            old(self).addressable(dst_x, dst_y, width, height),
        ensures
            final(self)@ == old(self)@.with_copy(
                src_x as int,
                src_y as int,
                dst_x as int,
                dst_y as int,
                width as int,
                height as nat,
            ),
            final(self)@.data.len() == old(self)@.data.len(),
    {
        let ghost before = self@;
        let ghost m = Move {
            stride: self.width as int,
            src_x: src_x as int,
            src_y: src_y as int,
            dst_x: dst_x as int,
            dst_y: dst_y as int,
            width: width as int,
        };
        let mut done: usize = 0;
        if src_y < dst_y || (src_y == dst_y && src_x < dst_x) {
            while done < height
                invariant
                    done <= height,
                    self.addressable(src_x, src_y, width, height),
                    self.addressable(dst_x, dst_y, width, height),
                    self@ == (Image { data: self@.data, ..before }),
                    self@.data.len() == before.data.len(),
                    m == (Move {
                        stride: self.width as int,
                        src_x: src_x as int,
                        src_y: src_y as int,
                        dst_x: dst_x as int,
                        dst_y: dst_y as int,
                        width: width as int,
                    }),
                    self@.data == m.upward(before.data, height as nat, done as nat),
                decreases height - done,
            {
                self.copy_row(src_x, src_y, dst_x, dst_y, width, height, height - 1 - done);
                done = done + 1;
            }
        } else {
            while done < height
                invariant
                    done <= height,
                    self.addressable(src_x, src_y, width, height),
                    self.addressable(dst_x, dst_y, width, height),
                    self@ == (Image { data: self@.data, ..before }),
                    self@.data.len() == before.data.len(),
                    m == (Move {
                        stride: self.width as int,
                        src_x: src_x as int,
                        src_y: src_y as int,
                        dst_x: dst_x as int,
                        dst_y: dst_y as int,
                        width: width as int,
                    }),
                    self@.data == m.downward(before.data, done as nat),
                decreases height - done,
            {
                self.copy_row(src_x, src_y, dst_x, dst_y, width, height, done);
                done = done + 1;
            }
        }
    }

    fn copy_row(
        &mut self,
        src_x: usize,
        src_y: usize,
        dst_x: usize,
        dst_y: usize,
        width: usize,
        height: usize,
        row: usize,
    )
        requires
            row < height,
            old(self).addressable(src_x, src_y, width, height),
            old(self).addressable(dst_x, dst_y, width, height),
        ensures
            final(self)@ == (Image {
                data: (Move {
                    stride: old(self).width as int,
                    src_x: src_x as int,
                    src_y: src_y as int,
                    dst_x: dst_x as int,
                    dst_y: dst_y as int,
                    width: width as int,
                }).row(old(self)@.data, row as int),
                ..old(self)@
            }),
            final(self)@.data.len() == old(self)@.data.len(),
    {
        assert(self.data@.len() == self.data.len());
        proof {
            lemma_offsets(src_x as int, src_y as int, width as int, height as int, self.width as int, row as int);
            lemma_offsets(dst_x as int, dst_y as int, width as int, height as int, self.width as int, row as int);
        }
        let from: u64 = ((src_y as u64 + row as u64) * self.width as u64 + src_x as u64) * 4;
        let to: u64 = ((dst_y as u64 + row as u64) * self.width as u64 + dst_x as u64) * 4;
        let n: u64 = width as u64 * 4;
        if from + n <= self.data.len() as u64 && to + n <= self.data.len() as u64 {
            move_bytes(&mut self.data, from as usize, to as usize, n as usize);
        }
    }
}

proof fn lemma_offsets(x: int, y: int, width: int, height: int, stride: int, row: int)
    by (nonlinear_arith)
    requires
        0 <= x,
        0 <= y,
        0 <= width,
        0 <= stride,
        0 <= row < height,
        ((y + height) * stride + x + width) * 4 <= u64::MAX,
        width * height * 32 <= u64::MAX,
    ensures
        0 <= (y + row) * stride,
        ((y + row) * stride + x + width) * 4 <= u64::MAX,
        0 <= row * (width * 4) <= u64::MAX,
        width * 4 <= u64::MAX,
{
}

proof fn lemma_row_start(row: int, height: int, p: int)
    by (nonlinear_arith)
    requires
        0 <= row < height,
        p >= 0,
    ensures
        0 <= row * p <= (height - 1) * p,
{
}

proof fn lemma_pixel_index(row: int, col: int, width: int, height: int, len: int)
    requires
        0 <= row < height,
        0 <= col < width,
        0 <= len <= 31,
        width * height * 32 <= u64::MAX,
    ensures
        (width * row + col) / width == row,
        (width * row + col) % width == col,
        0 <= width * row,
        row * width == width * row,
        width * row + col <= u64::MAX,
        (width * row + col) * len + len <= u64::MAX,
{
    assert(0 <= width * row && row * width == width * row) by (nonlinear_arith)
        requires
            width >= 0,
            row >= 0,
    ;
    vstd::arithmetic::div_mod::lemma_fundamental_div_mod_converse(
        width * row + col,
        width,
        row,
        col,
    );
    assert(width * row + col < width * height) by (nonlinear_arith)
        requires
            0 <= row < height,
            0 <= col < width,
    ;
    assert((width * row + col) * len + len <= width * height * 32) by (nonlinear_arith)
        requires
            0 <= width * row + col < width * height,
            0 <= len <= 31,
    ;
}

} // verus!
