//! A rectangle as a server writes it, and how it is read back.

use vstd::prelude::*;

use super::{after_subrects, rre_decoded};
use crate::pixel_format::PixelFormat;
use crate::raster::{blank, colour_of, lemma_place_in, Decoded};
use crate::wire::{holds, lemma_holds_both, lemma_joined, lemma_joined_part, u16_of, u32_of};

verus! {

/// A rectangle on the background, in a colour of its own.
pub struct Patch {
    pub x: u16,
    pub y: u16,
    pub width: u16,
    pub height: u16,
    pub pixel: Seq<u8>,
}

impl Patch {
    /// Whether the patch covers a place.
    pub open spec fn covers(self, i: int, j: int) -> bool {
        self.x <= i < self.x + self.width && self.y <= j < self.y + self.height
    }

    /// The patch on the wire: its pixel, then column, row, width and height, each
    /// with the high byte first.
    pub open spec fn bytes(self) -> Seq<u8> {
        self.pixel + seq![
            (self.x / 256) as u8,
            (self.x % 256) as u8,
            (self.y / 256) as u8,
            (self.y % 256) as u8,
            (self.width / 256) as u8,
            (self.width % 256) as u8,
            (self.height / 256) as u8,
            (self.height % 256) as u8,
        ]
    }
}

/// The patches on the wire, each on its own.
pub open spec fn patch_parts(patches: Seq<Patch>) -> Seq<Seq<u8>> {
    Seq::new(patches.len(), |i: int| patches[i].bytes())
}

/// A rectangle on the wire: the number of patches, high byte first, the
/// background, and the patches.
pub open spec fn written(background: Seq<u8>, patches: Seq<Patch>) -> Seq<u8> {
    let n = patches.len();
    seq![
        (n / 0x100_0000) as u8,
        (n / 0x1_0000 % 256) as u8,
        (n / 256 % 256) as u8,
        (n % 256) as u8,
    ] + (background + patch_parts(patches).flatten())
}

/// The colour of a place: that of the last of the first `n` patches that covers
/// it, or the background.
pub open spec fn patched(
    patches: Seq<Patch>,
    n: nat,
    format: PixelFormat,
    i: int,
    j: int,
    background: u32,
) -> u32
    decreases n,
{
    if n == 0 {
        background
    } else if patches[n - 1].covers(i, j) {
        colour_of(format, patches[n - 1].pixel)
    } else {
        patched(patches, (n - 1) as nat, format, i, j, background)
    }
}

#[verifier::spinoff_prover]
proof fn lemma_patch_at(patches: Seq<Patch>, len: int, k: int)
    requires
        0 <= k < patches.len(),
        0 <= len,
        forall|i: int| 0 <= i < patches.len() ==> (#[trigger] patches[i]).pixel.len() == len,
    ensures
        ({
            let body = patch_parts(patches).flatten();
            let at = k * (len + 8);
            &&& body.subrange(at, at + len) == patches[k].pixel
            &&& u16_of(body, at + len) == patches[k].x
            &&& u16_of(body, at + len + 2) == patches[k].y
            &&& u16_of(body, at + len + 4) == patches[k].width
            &&& u16_of(body, at + len + 6) == patches[k].height
        }),
{
    let parts = patch_parts(patches);
    let body = parts.flatten();
    assert forall|i: int| 0 <= i < parts.len() implies (#[trigger] parts[i]).len() == len + 8 by {
        assert(patches[i].pixel.len() == len);
    }
    lemma_joined_part(parts, len + 8, k);
    let at = k * (len + 8);
    let part = body.subrange(at, at + (len + 8));
    assert(part == patches[k].bytes());
    assert(body.subrange(at, at + len) =~= patches[k].pixel);
    assert forall|m: int| 0 <= m < 8 implies #[trigger] body[at + len + m] == part[len + m] by {}
    assert(body[at + len + 0] == part[len + 0]);
    assert(body[at + len + 1] == part[len + 1]);
    assert(body[at + len + 2] == part[len + 2]);
    assert(body[at + len + 3] == part[len + 3]);
    assert(body[at + len + 4] == part[len + 4]);
    assert(body[at + len + 5] == part[len + 5]);
    assert(body[at + len + 6] == part[len + 6]);
    assert(body[at + len + 7] == part[len + 7]);
}

proof fn lemma_patches_read_back(
    raster: Seq<u32>,
    stride: int,
    format: PixelFormat,
    patches: Seq<Patch>,
    n: nat,
    p: int,
)
    requires
        0 <= p < raster.len(),
        n <= patches.len(),
        forall|i: int|
            0 <= i < patches.len() ==> (#[trigger] patches[i]).pixel.len() == format.pixel_len(),
    ensures
        ({
            let after = after_subrects(
                raster,
                stride,
                format,
                patch_parts(patches).flatten(),
                n,
            );
            &&& after.len() == raster.len()
            &&& after[p] == patched(patches, n, format, p % stride, p / stride, raster[p])
        }),
    decreases n,
{
    if n > 0 {
        lemma_patches_read_back(raster, stride, format, patches, (n - 1) as nat, p);
        lemma_patch_at(patches, format.pixel_len() as int, n - 1);
    }
}

proof fn lemma_patches_len(
    raster: Seq<u32>,
    stride: int,
    format: PixelFormat,
    body: Seq<u8>,
    n: nat,
)
    ensures
        after_subrects(raster, stride, format, body, n).len() == raster.len(),
    decreases n,
{
    if n > 0 {
        lemma_patches_len(raster, stride, format, body, (n - 1) as nat);
    }
}

/// Whether a background with patches shows a picture of `w` by `h` pixels.
pub open spec fn shows(
    background: Seq<u8>,
    patches: Seq<Patch>,
    format: PixelFormat,
    picture: Seq<u32>,
    w: int,
    h: int,
) -> bool {
    &&& patches.len() <= 0xffff_ffff
    &&& background.len() == format.pixel_len()
    &&& forall|i: int|
        0 <= i < patches.len() ==> (#[trigger] patches[i]).pixel.len() == format.pixel_len()
    &&& picture.len() == w * h
    &&& forall|i: int, j: int|
        0 <= i < w && 0 <= j < h ==> #[trigger] picture[j * w + i] == patched(
            patches,
            patches.len(),
            format,
            i,
            j,
            colour_of(format, background),
        )
}

proof fn lemma_count(s: Seq<u8>, n: nat)
    requires
        n <= 0xffff_ffff,
        s.len() >= 4,
        s[0] == (n / 0x100_0000) as u8,
        s[1] == (n / 0x1_0000 % 256) as u8,
        s[2] == (n / 256 % 256) as u8,
        s[3] == (n % 256) as u8,
    ensures
        u32_of(s, 0) == n,
{
}

#[verifier::spinoff_prover]
proof fn lemma_layout(s: Seq<u8>, background: Seq<u8>, patches: Seq<Patch>, len: nat)
    requires
        patches.len() <= 0xffff_ffff,
        background.len() == len,
        forall|i: int| 0 <= i < patches.len() ==> (#[trigger] patches[i]).pixel.len() == len,
        holds(s, 0, written(background, patches)),
    ensures
        ({
            let total = 4 + len + patches.len() * (len + 8);
            &&& written(background, patches).len() == total
            &&& total <= s.len()
            &&& 4 + len <= total
            &&& u32_of(s, 0) == patches.len()
            &&& s.subrange(4, (4 + len) as int) == background
            &&& s.subrange((4 + len) as int, total as int) == patch_parts(patches).flatten()
        }),
{
    let n = patches.len();
    let parts = patch_parts(patches);
    assert forall|i: int| 0 <= i < parts.len() implies (#[trigger] parts[i]).len() == len + 8 by {
        assert(patches[i].pixel.len() == len);
    }
    lemma_joined(parts, (len + 8) as int);
    let count = seq![
        (n / 0x100_0000) as u8,
        (n / 0x1_0000 % 256) as u8,
        (n / 256 % 256) as u8,
        (n % 256) as u8,
    ];
    lemma_holds_both(s, 0, count, background + parts.flatten());
    lemma_holds_both(s, 4, background, parts.flatten());
    let z: int = 0;
    assert(s[z + 0] == count[0] && s[z + 1] == count[1] && s[z + 2] == count[2] && s[z + 3]
        == count[3]);
    lemma_count(s, n);
    let total = 4 + len + n * (len + 8);
    assert(parts.flatten().len() == n * (len + 8));
    assert(s.subrange(4, (4 + len) as int) =~= background);
    assert(s.subrange((4 + len) as int, total as int) =~= parts.flatten());
}

/// A picture that was written as a background with patches on it is read back as
/// the picture, up to the byte where it ends.
#[verifier::rlimit(30)]
#[verifier::spinoff_prover]
pub proof fn lemma_picture_reads_back(
    s: Seq<u8>,
    background: Seq<u8>,
    patches: Seq<Patch>,
    format: PixelFormat,
    picture: Seq<u32>,
    w: nat,
    h: nat,
)
    requires
        0 < w,
        shows(background, patches, format, picture, w as int, h as int),
        holds(s, 0, written(background, patches)),
    ensures
        rre_decoded(s, w, h, format) == (Decoded::Done {
            raster: picture,
            used: written(background, patches).len(),
        }),
{
    let n = patches.len();
    let parts = patch_parts(patches);
    lemma_layout(s, background, patches, format.pixel_len());
    let base = blank(w * h, colour_of(format, background));
    let raster = after_subrects(base, w as int, format, parts.flatten(), n);
    lemma_patches_len(base, w as int, format, parts.flatten(), n);
    assert forall|p: int| 0 <= p < w * h implies #[trigger] raster[p] == picture[p] by {
        lemma_patches_read_back(base, w as int, format, patches, n, p);
        lemma_place_in(p, w as int, h as int);
        let (i, j) = (p % (w as int), p / (w as int));
        assert(picture[j * w + i] == picture[p]);
    }
    assert(raster =~= picture);
}

} // verus!
