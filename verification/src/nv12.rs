//! Conversion of decoded NV12 pictures to RGBA.

use vstd::arithmetic::div_mod::lemma_fundamental_div_mod_converse;
use vstd::prelude::*;

use crate::error::{protocol_error, Failure, VncError};
use crate::wire::{push_zeros, zeros};

verus! {

/// A chroma difference times `k` / 256, rounded down.
pub open spec fn scaled(c: int, k: int) -> int {
    (c * k) / 256
}

/// The nearest value that fits a byte.
pub open spec fn clamped(x: int) -> u8 {
    if x < 0 {
        0
    } else if x > 255 {
        255
    } else {
        x as u8
    }
}

/// The opaque colour of one luma and two chroma samples.
pub open spec fn rgba_of(y: u8, u: u8, v: u8) -> Seq<u8> {
    seq![
        clamped(y + scaled(v - 128, 359)),
        clamped(y - scaled(u - 128, 88) - scaled(v - 128, 183)),
        clamped(y + scaled(u - 128, 454)),
        255,
    ]
}

/// Where the luma sample of a pixel stands.
pub open spec fn luma_index(stride: int, row: int, col: int) -> int {
    row * stride + col
}

/// Where the first chroma sample of a pixel stands: four pixels share a pair.
pub open spec fn chroma_index(h: int, stride: int, row: int, col: int) -> int {
    stride * h + (row / 2) * stride + (col / 2) * 2
}

/// The colour of one pixel.
pub open spec fn pixel_of(data: Seq<u8>, h: int, stride: int, row: int, col: int) -> Seq<u8> {
    rgba_of(
        data[luma_index(stride, row, col)],
        data[chroma_index(h, stride, row, col)],
        data[chroma_index(h, stride, row, col) + 1],
    )
}

/// The `i`-th byte of the picture, rows from the top.
pub open spec fn picture_byte(data: Seq<u8>, w: int, h: int, stride: int, i: int) -> u8 {
    pixel_of(data, h, stride, (i / 4) / w, (i / 4) % w)[i % 4]
}

/// The picture of `w` by `h` pixels whose rows lie `stride` bytes apart.
pub open spec fn picture(data: Seq<u8>, w: int, h: int, stride: int) -> Seq<u8> {
    Seq::new((w * h * 4) as nat, |i: int| picture_byte(data, w, h, stride, i))
}

/// Whether `len` bytes can hold both planes.
pub open spec fn planes_fit(len: int, h: int, stride: int) -> bool {
    len >= stride * h + (stride * h) / 2
}

/// Whether every sample that the picture reads lies in `len` bytes.
pub open spec fn samples_fit(len: int, w: int, h: int, stride: int) -> bool {
    forall|row: int, col: int|
        0 <= row < h && 0 <= col < w ==> #[trigger] chroma_index(h, stride, row, col) + 1 < len
}

/// The stride that the picture is read with: the decoder's, unless that is
/// less than the width, or the width where the bytes are too few for it.
/// `None` if they are too few for either.
pub open spec fn chosen_stride(len: int, w: int, h: int, stored: int) -> Option<int> {
    let stride = if stored < w {
        w
    } else {
        stored
    };
    if planes_fit(len, h, stride) {
        Some(stride)
    } else if planes_fit(len, h, w) {
        Some(w)
    } else {
        None
    }
}

/// Where both planes fit and the picture has even sizes, every sample
/// that it reads is there.
pub proof fn lemma_even_sizes_fit(len: int, w: int, h: int, stride: int)
    requires
        0 <= w <= stride,
        0 <= h,
        w % 2 == 0,
        h % 2 == 0,
        planes_fit(len, h, stride),
    ensures
        samples_fit(len, w, h, stride),
{
    assert forall|row: int, col: int| 0 <= row < h && 0 <= col < w implies #[trigger] chroma_index(
        h,
        stride,
        row,
        col,
    ) + 1 < len by {
        let half = h / 2;
        assert((stride * h) / 2 == stride * half) by {
            assert(stride * h == (stride * half) * 2) by (nonlinear_arith)
                requires
                    h == half * 2,
            ;
        }
        assert((row / 2) * stride + stride <= half * stride) by (nonlinear_arith)
            requires
                row / 2 + 1 <= half,
                stride >= 0,
        ;
        assert(half * stride == stride * half) by (nonlinear_arith);
        assert((col / 2) * 2 + 1 < w);
    }
}

/// The pixel at column `col` of row `row` has the colour of its own luma sample
/// and of the two chroma samples that it shares with its neighbours, two by two:
/// luma lies row by row, chroma in pairs behind it, a row of pairs for two rows.
pub proof fn lemma_pixel_has_its_samples(
    data: Seq<u8>,
    w: int,
    h: int,
    stride: int,
    row: int,
    col: int,
    k: int,
)
    requires
        0 <= col < w,
        0 <= row < h,
        0 <= k < 4,
    ensures
        picture(data, w, h, stride).len() == w * h * 4,
        picture(data, w, h, stride)[(row * w + col) * 4 + k] == rgba_of(
            data[row * stride + col],
            data[stride * h + row / 2 * stride + col / 2 * 2],
            data[stride * h + row / 2 * stride + col / 2 * 2 + 1],
        )[k],
{
    let q = row * w + col;
    lemma_fundamental_div_mod_converse(q, w, row, col);
    assert(0 <= q < w * h) by (nonlinear_arith)
        requires
            q == row * w + col,
            0 <= col < w,
            0 <= row < h,
    ;
    assert((q * 4 + k) / 4 == q && (q * 4 + k) % 4 == k);
}

/// A number that is kept between 0 and 255000.
pub open spec fn bounded(e: int) -> int {
    if e < 0 {
        0
    } else if e > 255000 {
        255000
    } else {
        e
    }
}

/// Without chroma a pixel is as grey as its luma. Elsewhere red is luma plus
/// 1.402 times the second chroma difference, green luma less 0.344 times the
/// first and 0.714 times the second, and blue luma plus 1.772 times the first,
/// each to within three levels, and kept between 0 and 255. A pixel is opaque.
pub proof fn lemma_colour_of_samples(y: u8, u: u8, v: u8)
    ensures
        ({
            let c = rgba_of(y, u, v);
            let (red, green, blue) = (
                bounded(1000 * y + 1402 * (v - 128)),
                bounded(1000 * y - 344 * (u - 128) - 714 * (v - 128)),
                bounded(1000 * y + 1772 * (u - 128)),
            );
            &&& c.len() == 4
            &&& u == 128 && v == 128 ==> c == seq![y, y, y, 255u8]
            &&& -3000 <= 1000 * c[0] - red <= 3000
            &&& -3000 <= 1000 * c[1] - green <= 3000
            &&& -3000 <= 1000 * c[2] - blue <= 3000
            &&& c[3] == 255
        }),
{
    let c = rgba_of(y, u, v);
    if u == 128 && v == 128 {
        assert(c =~= seq![y, y, y, 255u8]);
    }
}

/// `(c * k) / 256`, rounded down.
fn scale(c: i32, k: i32) -> (r: i32)
    requires
        -128 <= c <= 127,
        0 <= k <= 1024,
    ensures
        r == scaled(c as int, k as int),
        -512 <= r <= 512,
{
    assert(-131072 <= c * k <= 131072) by (nonlinear_arith)
        requires
            -128 <= c <= 127,
            0 <= k <= 1024,
    ;
    let p: i32 = c * k;
    if p >= 0 {
        p / 256
    } else {
        -((255 - p) / 256)
    }
}

fn clamp_byte(x: i32) -> (r: u8)
    ensures
        r == clamped(x as int),
{
    if x < 0 {
        0
    } else if x > 255 {
        255
    } else {
        x as u8
    }
}

fn push_pixel(out: &mut Vec<u8>, y: u8, u: u8, v: u8)
    ensures
        final(out)@ == old(out)@ + rgba_of(y, u, v),
{
    let cu: i32 = u as i32 - 128;
    let cv: i32 = v as i32 - 128;
    let luma: i32 = y as i32;
    out.push(clamp_byte(luma + scale(cv, 359)));
    out.push(clamp_byte(luma - scale(cu, 88) - scale(cv, 183)));
    out.push(clamp_byte(luma + scale(cu, 454)));
    out.push(255);
    assert(out@ =~= old(out)@ + rgba_of(y, u, v));
}

/// Converts the picture whose rows lie `stride` bytes apart.
fn convert(nv12: &[u8], w: usize, h: usize, stride: usize) -> (r: Vec<u8>)
    requires
        w <= 0xffff,
        h <= 0xffff,
        w <= stride,
        planes_fit(nv12@.len() as int, h as int, stride as int),
        samples_fit(nv12@.len() as int, w as int, h as int, stride as int),
    ensures
        r@ == picture(nv12@, w as int, h as int, stride as int),
{
    assert(nv12@.len() == nv12.len());
    let mut out: Vec<u8> = Vec::new();
    let mut row: usize = 0;
    while row < h
        invariant
            nv12@.len() == nv12.len(),
            row <= h <= 0xffff,
            w <= 0xffff,
            w <= stride,
            planes_fit(nv12@.len() as int, h as int, stride as int),
            samples_fit(nv12@.len() as int, w as int, h as int, stride as int),
            out@.len() == row * w * 4,
            forall|i: int|
                0 <= i < out@.len() ==> #[trigger] out@[i] == picture_byte(
                    nv12@,
                    w as int,
                    h as int,
                    stride as int,
                    i,
                ),
        decreases h - row,
    {
        assert(stride * h >= 0 && row * stride + stride <= stride * h) by (nonlinear_arith)
            requires
                0 <= row,
                row + 1 <= h,
                0 <= stride,
        ;
        assert((row / 2) * stride <= row * stride) by (nonlinear_arith)
            requires
                0 <= row,
                0 <= stride,
                row / 2 <= row,
        ;
        let base: usize = row * stride;
        let mut col: usize = 0;
        assert((row * w + 0) * 4 == row * w * 4);
        while col < w
            invariant
                nv12@.len() == nv12.len(),
                row < h <= 0xffff,
                col <= w <= 0xffff,
                w <= stride,
                base == row * stride,
                base + stride <= stride * h,
                stride * h <= nv12@.len(),
                samples_fit(nv12@.len() as int, w as int, h as int, stride as int),
                out@.len() == (row * w + col) * 4,
                forall|i: int|
                    0 <= i < out@.len() ==> #[trigger] out@[i] == picture_byte(
                        nv12@,
                        w as int,
                        h as int,
                        stride as int,
                        i,
                    ),
            decreases w - col,
        {
            let ghost at = chroma_index(h as int, stride as int, row as int, col as int);
            assert(at + 1 < nv12@.len());
            assert((row / 2) * stride >= 0) by (nonlinear_arith)
                requires
                    0 <= row / 2,
                    0 <= stride,
            ;
            let y = nv12[base + col];
            let chroma: usize = stride * h + (row / 2) * stride + (col / 2) * 2;
            let u = nv12[chroma];
            let v = nv12[chroma + 1];
            let ghost before = out@;
            push_pixel(&mut out, y, u, v);
            proof {
                let n = row * w + col;
                assert(luma_index(stride as int, row as int, col as int) == base + col);
                let pixel = pixel_of(nv12@, h as int, stride as int, row as int, col as int);
                assert(out@ == before + pixel);
                assert(n == w * row + col) by (nonlinear_arith)
                    requires
                        n == row * w + col,
                ;
                lemma_fundamental_div_mod_converse(n, w as int, row as int, col as int);
                assert forall|i: int| 0 <= i < out@.len() implies #[trigger] out@[i]
                    == picture_byte(nv12@, w as int, h as int, stride as int, i) by {
                    if i < before.len() {
                        assert(out@[i] == before[i]);
                    } else {
                        assert(i / 4 == n);
                        assert(i % 4 == i - n * 4);
                        assert(out@[i] == pixel[i - n * 4]);
                    }
                }
                assert(out@.len() == (row * w + (col + 1)) * 4);
            }
            col = col + 1;
        }
        assert((row * w + w) * 4 == (row + 1) * w * 4) by (nonlinear_arith);
        row = row + 1;
    }
    assert(h * w * 4 == w * h * 4) by (nonlinear_arith);
    assert(out@ =~= picture(nv12@, w as int, h as int, stride as int));
    out
}

/// Converts a decoded picture into `rgba`; the buffer stays as it is where the
/// picture has too few bytes.
pub fn convert_nv12_to_rgba(nv12: &[u8], width: u16, height: u16, stride: usize, rgba: &mut Vec<u8>)
    requires
        old(rgba)@.len() == width * height * 4,
        match chosen_stride(nv12@.len() as int, width as int, height as int, stride as int) {
            Some(s) => samples_fit(nv12@.len() as int, width as int, height as int, s),
            None => true,
        },
    ensures
        final(rgba)@ == match chosen_stride(
            nv12@.len() as int,
            width as int,
            height as int,
            stride as int,
        ) {
            Some(s) => picture(nv12@, width as int, height as int, s),
            None => old(rgba)@,
        },
{
    assert(nv12@.len() == nv12.len());
    let w: usize = width as usize;
    let h: usize = height as usize;
    let len: u128 = nv12.len() as u128;
    let s: usize = if stride < w {
        w
    } else {
        stride
    };
    assert(0 <= s * h <= 0xffff_ffff_ffff_ffff * 0xffff) by (nonlinear_arith)
        requires
            0 <= s <= 0xffff_ffff_ffff_ffff,
            0 <= h <= 0xffff,
    ;
    let y_size: u128 = s as u128 * h as u128;
    if len >= y_size + y_size / 2 {
        *rgba = convert(nv12, w, h, s);
        return;
    }
    assert(0 <= w * h <= 0xffff * 0xffff) by (nonlinear_arith)
        requires
            0 <= w <= 0xffff,
            0 <= h <= 0xffff,
    ;
    let least: u128 = w as u128 * h as u128;
    if len >= least + least / 2 {
        *rgba = convert(nv12, w, h, w);
    }
}

/// The last picture of a decoder that has to be told the size of its pictures.
pub struct DecodedPicture {
    pub width: u16,
    pub height: u16,
    /// How far apart the rows of the decoder's pictures lie. This may be more
    /// than the width.
    pub stride: usize,
    pub rgba: Vec<u8>,
}

impl DecodedPicture {
    /// Whether the buffer has the size of a picture.
    pub open spec fn wf(self) -> bool {
        self.rgba@.len() == self.width * self.height * 4
    }

    /// A picture of no size yet.
    pub fn new() -> (r: DecodedPicture)
        ensures
            r.wf(),
            r.width == 0,
            r.height == 0,
            r.stride == 0,
            r.rgba@.len() == 0,
    {
        DecodedPicture { width: 0, height: 0, stride: 0, rgba: Vec::new() }
    }

    /// Whether the decoder has to be set up anew for pictures of this size.
    pub fn differs(&self, width: u16, height: u16) -> (r: bool)
        ensures
            r == (self.width != width || self.height != height),
    {
        self.width != width || self.height != height
    }

    /// Records the size that the decoder was set up for. The picture is blank.
    pub fn configured(&mut self, width: u16, height: u16)
        requires
            width * height * 4 <= usize::MAX,
        ensures
            final(self).wf(),
            final(self).width == width,
            final(self).height == height,
            final(self).stride == width,
            final(self).rgba@ == zeros((width * height * 4) as nat),
    {
        assert(0 <= width * height <= width * height * 4) by (nonlinear_arith)
            requires
                0 <= width,
                0 <= height,
        ;
        let len: usize = width as usize * height as usize * 4;
        let mut rgba: Vec<u8> = Vec::new();
        push_zeros(&mut rgba, len);
        assert(rgba@ =~= zeros((width * height * 4) as nat));
        self.width = width;
        self.height = height;
        self.stride = width as usize;
        self.rgba = rgba;
    }

    /// The size of the pictures, once it is known.
    pub fn video_size(&self) -> (r: Option<(u16, u16)>)
        ensures
            r == if self.width == 0 || self.height == 0 {
                None
            } else {
                Some((self.width, self.height))
            },
    {
        if self.width == 0 || self.height == 0 {
            None
        } else {
            Some((self.width, self.height))
        }
    }

    /// Checks that a decoder can be fed: the size of its pictures is known.
    pub fn check_configured(&self) -> (r: Result<(), VncError>)
        ensures
            if self.width == 0 || self.height == 0 {
                r matches Err(e) && e@ == Failure::Protocol(
                    "MediaCodec not configured with video size"@,
                )
            } else {
                r is Ok
            },
    {
        if self.width == 0 || self.height == 0 {
            Err(protocol_error("MediaCodec not configured with video size"))
        } else {
            Ok(())
        }
    }

    /// Takes a picture from the decoder. One with too few bytes is dropped.
    pub fn take_nv12(&mut self, nv12: &[u8])
        requires
            old(self).wf(),
            match chosen_stride(
                nv12@.len() as int,
                old(self).width as int,
                old(self).height as int,
                old(self).stride as int,
            ) {
                Some(s) => samples_fit(
                    nv12@.len() as int,
                    old(self).width as int,
                    old(self).height as int,
                    s,
                ),
                None => true,
            },
        ensures
            final(self).wf(),
            final(self).width == old(self).width,
            final(self).height == old(self).height,
            final(self).stride == old(self).stride,
            final(self).rgba@ == match chosen_stride(
                nv12@.len() as int,
                old(self).width as int,
                old(self).height as int,
                old(self).stride as int,
            ) {
                Some(s) => picture(nv12@, old(self).width as int, old(self).height as int, s),
                None => old(self).rgba@,
            },
    {
        assert(0 <= self.width * self.height) by (nonlinear_arith)
            requires
                0 <= self.width,
                0 <= self.height,
        ;
        convert_nv12_to_rgba(nv12, self.width, self.height, self.stride, &mut self.rgba);
    }
}

} // verus!
