//! Cursor images: the cursor pseudo-encoding, and Apple's cached cursors.

use std::collections::HashMap;
use vstd::arithmetic::power2::{lemma2_to64, pow2};
use vstd::prelude::*;

use crate::error::{Failure, VncError};
use crate::inflate::{inflated, inflated_upto, zlib_inflate_upto};
use crate::maps::keys_of;
use crate::pixel_format::PixelFormat;
use crate::raster::lemma_place;
use crate::text::{concat_text, decimal, decimal_text};
use crate::trle::written::lemma_number_in;
use crate::wire::{slice, to_vec};

verus! {

/// A cursor image: RGBA pixels, and a mask with one bit per pixel whose rows
/// end on a byte.
#[derive(Debug, Clone, PartialEq, Eq)]
pub struct CursorShape {
    pub width: u16,
    pub height: u16,
    pub hotspot_x: u16,
    pub hotspot_y: u16,
    pub pixels: Vec<u8>,
    pub mask: Vec<u8>,
}

/// What a [`CursorShape`] holds.
pub struct CursorView {
    pub width: u16,
    pub height: u16,
    pub hotspot_x: u16,
    pub hotspot_y: u16,
    pub pixels: Seq<u8>,
    pub mask: Seq<u8>,
}

impl View for CursorShape {
    type V = CursorView;

    open spec fn view(&self) -> CursorView {
        CursorView {
            width: self.width,
            height: self.height,
            hotspot_x: self.hotspot_x,
            hotspot_y: self.hotspot_y,
            pixels: self.pixels@,
            mask: self.mask@,
        }
    }
}

/// Bytes of one row of a mask.
pub open spec fn mask_row(width: nat) -> nat {
    (width + 7) / 8
}

/// Bytes of a cursor image on the wire.
pub open spec fn shape_len(width: nat, height: nat, format: PixelFormat) -> nat {
    width * height * format.pixel_len() + mask_row(width) * height
}

/// Whether the mask shows the `k`-th pixel.
pub open spec fn unmasked(mask: Seq<u8>, width: nat, k: int) -> bool {
    let x = k % (width as int);
    let y = k / (width as int);
    (mask[y * mask_row(width) + x / 8] >> ((7 - x % 8) as u8)) & 1 == 1
}

/// The pixels of a cursor: those that the mask hides are transparent.
pub open spec fn shape_pixels(width: nat, height: nat, data: Seq<u8>, format: PixelFormat) -> Seq<
    u8,
> {
    let len = format.pixel_len();
    let mask = data.skip((width * height * len) as int);
    Seq::new(
        width * height * 4,
        |i: int|
            if i % 4 == 3 {
                if unmasked(mask, width, i / 4) {
                    255u8
                } else {
                    0u8
                }
            } else {
                format.rgba_of(data.subrange((i / 4) * len, (i / 4) * len + len))[i % 4]
            },
    )
}

/// The cursor that the pseudo-encoding's data describe.
pub open spec fn shape_of(
    width: u16,
    height: u16,
    x: u16,
    y: u16,
    data: Seq<u8>,
    format: PixelFormat,
) -> CursorView {
    CursorView {
        width,
        height,
        hotspot_x: x,
        hotspot_y: y,
        pixels: shape_pixels(width as nat, height as nat, data, format),
        mask: data.skip((width * height * format.pixel_len()) as int),
    }
}

/// The pixel of a cursor at column `i` of row `j` has the colour of the pixel at
/// that place in the data, and is opaque where the mask has its bit set and
/// transparent elsewhere. A row of the mask starts at a byte, and the highest
/// bit of a byte stands for the leftmost pixel. The hotspot is the place of the
/// rectangle.
#[verifier::spinoff_prover]
pub proof fn lemma_cursor_pixels(
    width: u16,
    height: u16,
    x: u16,
    y: u16,
    data: Seq<u8>,
    format: PixelFormat,
    i: int,
    j: int,
)
    requires
        0 <= i < width,
        0 <= j < height,
        data.len() == width * height * format.pixel_len() + ((width + 7) / 8) * height,
    ensures
        ({
            let shape = shape_of(width, height, x, y, data, format);
            let len = format.pixel_len() as int;
            let q = j * width + i;
            let at = width * height * len + (j * ((width + 7) / 8) + i / 8);
            let colour = format.rgba_of(data.subrange(q * len, q * len + len));
            let set = data[at] as int / pow2((7 - i % 8) as nat) as int % 2 == 1;
            &&& shape.width == width && shape.height == height
            &&& shape.hotspot_x == x && shape.hotspot_y == y
            &&& shape_len(width as nat, height as nat, format) == data.len()
            &&& shape.pixels.len() == width * height * 4
            &&& shape.pixels[q * 4] == colour[0]
            &&& shape.pixels[q * 4 + 1] == colour[1]
            &&& shape.pixels[q * 4 + 2] == colour[2]
            &&& shape.pixels[q * 4 + 3] == if set {
                255u8
            } else {
                0u8
            }
            &&& shape.mask.len() == ((width + 7) / 8) * height
            &&& shape.mask[j * ((width + 7) / 8) + i / 8] == data[at]
        }),
{
    let len = format.pixel_len() as int;
    let row = (width + 7) / 8;
    let q = j * width + i;
    let n = width * height * len;
    lemma_place(i, j, width as int);
    assert(0 <= q < width * height) by (nonlinear_arith)
        requires
            q == j * width + i,
            0 <= i < width,
            0 <= j < height,
    ;
    assert(0 <= n) by (nonlinear_arith)
        requires
            n == width * height * len,
            len >= 0,
            width >= 0,
            height >= 0,
    ;
    assert(0 <= j * row && j * row + row <= row * height) by (nonlinear_arith)
        requires
            0 <= j < height,
            row >= 0,
    ;
    assert(i / 8 < row);
    let mask = data.skip(n);
    assert(mask.len() == row * height);
    assert(mask[j * row + i / 8] == data[n + (j * row + i / 8)]);
    lemma_number_in(mask[j * row + i / 8], 1, i);
    lemma2_to64();
    assert((q * 4 + 1) / 4 == q && (q * 4 + 2) / 4 == q && (q * 4 + 3) / 4 == q);
}

/// A stored cursor's pixel `k` comes as blue, green and red and an unused byte,
/// with its alpha in a plane behind all pixels, and is kept as red, green, blue
/// and alpha.
pub proof fn lemma_stored_cursor_pixels(plain: Seq<u8>, n: nat, k: int)
    requires
        plain.len() == 5 * n,
        0 <= k < n,
    ensures
        merged_pixels(plain, n).len() == 4 * n,
        merged_pixels(plain, n)[4 * k] == plain[4 * k + 2],
        merged_pixels(plain, n)[4 * k + 1] == plain[4 * k + 1],
        merged_pixels(plain, n)[4 * k + 2] == plain[4 * k],
        merged_pixels(plain, n)[4 * k + 3] == plain[4 * n + k],
{
}

proof fn lemma_area(width: u16, height: u16, len: int)
    by (nonlinear_arith)
    requires
        0 <= len <= 31,
    ensures
        0 <= width * height <= 0xffff * 0xffff,
        0 <= width * height * len <= 0xffff * 0xffff * 31,
        0 <= ((width + 7) / 8) * height <= 0x2000 * 0xffff,
{
}

impl CursorShape {
    /// Bytes of a cursor image on the wire.
    pub fn wire_len(width: u16, height: u16, format: &PixelFormat) -> (r: u64)
        ensures
            r == shape_len(width as nat, height as nat, *format),
            r <= 0xffff * 0xffff * 32,
    {
        let len: usize = format.bytes_per_pixel();
        proof {
            lemma_area(width, height, len as int);
        }
        width as u64 * height as u64 * len as u64 + ((width as u64 + 7) / 8) * height as u64
    }

    /// Decodes a cursor image.
    pub fn decode(
        width: u16,
        height: u16,
        x: u16,
        y: u16,
        data: &[u8],
        format: &PixelFormat,
    ) -> (r: CursorShape)
        requires
            data@.len() == shape_len(width as nat, height as nat, *format),
            width * height * 4 <= usize::MAX,
        ensures
            r@ == shape_of(width, height, x, y, data@, *format),
    {
        let len: usize = format.bytes_per_pixel();
        proof {
            lemma_area(width, height, len as int);
            assert(data@.len() == data.len());
        }
        let n: usize = width as usize * height as usize;
        let px_len: usize = n * len;
        let mask = slice(data, px_len, data.len());
        assert(mask@ =~= data@.skip(px_len as int));
        let row: usize = (width as usize + 7) / 8;
        let mut pixels: Vec<u8> = Vec::new();
        let mut k: usize = 0;
        let mut at: usize = 0;
        let ghost want = shape_pixels(width as nat, height as nat, data@, *format);
        while k < n
            invariant
                k <= n,
                n == width * height,
                len == format.pixel_len(),
                px_len == n * len,
                at == k * len,
                row == mask_row(width as nat),
                mask@.len() == row * height,
                mask@ == data@.skip(px_len as int),
                data@.len() >= px_len,
                want == shape_pixels(width as nat, height as nat, data@, *format),
                pixels@.len() == 4 * k,
                forall|i: int| 0 <= i < 4 * k ==> pixels@[i] == want[i],
            decreases n - k,
        {
            proof {
                assert(at + len <= px_len && (k + 1) * len == at + len) by (nonlinear_arith)
                    requires
                        k < n,
                        at == k * len,
                        px_len == n * len,
                        len >= 0,
                ;
                assert(width > 0) by (nonlinear_arith)
                    requires
                        0 <= k < width * height,
                        width >= 0,
                ;
                crate::raster::lemma_place_in(k as int, width as int, height as int);
                let (cy, cx) = (k as int / width as int, k as int % width as int);
                assert(0 <= cy * row && cy * row + row <= row * height) by (nonlinear_arith)
                    requires
                        0 <= cy < height,
                        row >= 0,
                ;
                assert(mask@.len() == mask.len());
                assert(data@.len() == data.len());
            }
            let rgba = format.to_rgba(slice(data, at, at + len));
            let cx: usize = k % width as usize;
            let cy: usize = k / width as usize;
            let bits: u8 = mask[cy * row + cx / 8];
            let shift: u8 = (7 - cx % 8) as u8;
            let shown: bool = (bits >> shift) & 1 == 1;
            assert(shown == unmasked(mask@, width as nat, k as int));
            let ghost before = pixels@;
            pixels.push(rgba[0]);
            pixels.push(rgba[1]);
            pixels.push(rgba[2]);
            pixels.push(if shown {
                255
            } else {
                0
            });
            assert forall|i: int| 0 <= i < 4 * (k + 1) implies pixels@[i] == want[i] by {
                if i < 4 * k {
                    assert(pixels@[i] == before[i]);
                } else {
                    assert(i / 4 == k && i % 4 == i - 4 * k);
                    assert(data@.subrange(at as int, at + len) =~= data@.subrange(
                        (i / 4) * len,
                        (i / 4) * len + len,
                    ));
                }
            }
            at = at + len;
            k = k + 1;
        }
        assert(pixels@ =~= want);
        CursorShape {
            width,
            height,
            hotspot_x: x,
            hotspot_y: y,
            pixels,
            mask: to_vec(mask),
        }
    }
}

/// A cached cursor image: RGBA, not premultiplied.
#[derive(Debug, Clone, PartialEq, Eq)]
pub struct AppleCursor {
    pub width: u16,
    pub height: u16,
    pub pixels: Vec<u8>,
}

/// What an [`AppleCursor`] holds.
pub struct CursorImage {
    pub width: u16,
    pub height: u16,
    pub pixels: Seq<u8>,
}

impl View for AppleCursor {
    type V = CursorImage;

    open spec fn view(&self) -> CursorImage {
        CursorImage { width: self.width, height: self.height, pixels: self.pixels@ }
    }
}

/// RGBA pixels out of `n` pixels of blue, green, red and an unused byte, and a
/// plane of alpha values behind them.
pub open spec fn merged_pixels(plain: Seq<u8>, n: nat) -> Seq<u8> {
    Seq::new(
        4 * n,
        |i: int|
            if i % 4 == 3 {
                plain[4 * n + i / 4]
            } else {
                plain[(i / 4) * 4 + 2 - i % 4]
            },
    )
}

/// What a stored cursor comes to, given what its payload inflates to when
/// inflating stops one byte behind the expected end.
pub open spec fn stored_cursor(
    width: u16,
    height: u16,
    plain: Result<Seq<u8>, Seq<char>>,
) -> Result<CursorImage, Failure> {
    let n = (width * height) as nat;
    match plain {
        Err(text) => Err(Failure::Protocol("Apple cursor zlib decode error: "@ + text)),
        Ok(data) => if data.len() > 5 * n {
            Err(
                Failure::Protocol(
                    "Apple cursor payload too large: got more than "@ + decimal_text(5 * n)
                        + " bytes for "@ + decimal_text(width as nat) + "x"@ + decimal_text(
                        height as nat,
                    ) + " cursor"@,
                ),
            )
        } else if data.len() < 5 * n {
            Err(
                Failure::Protocol(
                    "Apple cursor payload too short: got "@ + decimal_text(data.len())
                        + " bytes, expected "@ + decimal_text(5 * n),
                ),
            )
        } else {
            Ok(CursorImage { width, height, pixels: merged_pixels(data, n) })
        },
    }
}

fn merge_pixels(plain: &[u8], n: usize) -> (r: Vec<u8>)
    requires
        plain@.len() == 5 * n,
    ensures
        r@ == merged_pixels(plain@, n as nat),
{
    let mut out: Vec<u8> = Vec::new();
    let mut k: usize = 0;
    while k < n
        invariant
            k <= n,
            plain@.len() == 5 * n,
            out@.len() == 4 * k,
            forall|i: int| 0 <= i < 4 * k ==> out@[i] == merged_pixels(plain@, n as nat)[i],
        decreases n - k,
    {
        assert(plain@.len() == plain.len());
        let ghost before = out@;
        out.push(plain[4 * k + 2]);
        out.push(plain[4 * k + 1]);
        out.push(plain[4 * k]);
        out.push(plain[4 * n + k]);
        assert forall|i: int| 0 <= i < 4 * (k + 1) implies out@[i] == merged_pixels(
            plain@,
            n as nat,
        )[i] by {
            if i < 4 * k {
                assert(out@[i] == before[i]);
            } else {
                assert(i / 4 == k && i % 4 == i - 4 * k);
            }
        }
        k = k + 1;
    }
    assert(out@ =~= merged_pixels(plain@, n as nat));
    out
}

/// Judges what the payload of a stored cursor inflated to.
pub fn check_cursor_store(width: u16, height: u16, plain: Result<Vec<u8>, String>) -> (r: Result<
    AppleCursor,
    VncError,
>)
    ensures
        match stored_cursor(
            width,
            height,
            match plain {
                Ok(v) => Ok(v@),
                Err(s) => Err(s@),
            },
        ) {
            Ok(image) => r matches Ok(c) && c@ == image,
            Err(f) => r matches Err(e) && e@ == f,
        },
{
    proof {
        lemma_area(width, height, 1);
    }
    let n: u64 = width as u64 * height as u64;
    match plain {
        Err(text) => Err(
            VncError::Protocol(concat_text("Apple cursor zlib decode error: ", text.as_str())),
        ),
        Ok(data) => {
            let expected: u64 = 5 * n;
            assert(data@.len() == data.len());
            if data.len() as u64 > expected {
                let t = concat_text(
                    "Apple cursor payload too large: got more than ",
                    decimal(expected).as_str(),
                );
                let t = concat_text(t.as_str(), " bytes for ");
                let t = concat_text(t.as_str(), decimal(width as u64).as_str());
                let t = concat_text(t.as_str(), "x");
                let t = concat_text(t.as_str(), decimal(height as u64).as_str());
                return Err(VncError::Protocol(concat_text(t.as_str(), " cursor")));
            }
            if (data.len() as u64) < expected {
                let t = concat_text(
                    "Apple cursor payload too short: got ",
                    decimal(data.len() as u64).as_str(),
                );
                let t = concat_text(t.as_str(), " bytes, expected ");
                return Err(
                    VncError::Protocol(concat_text(t.as_str(), decimal(expected).as_str())),
                );
            }
            let pixels = merge_pixels(&data, n as usize);
            Ok(AppleCursor { width, height, pixels })
        },
    }
}

/// How far the payload of a stored cursor is inflated: one byte behind its
/// expected end.
pub open spec fn store_limit(width: u16, height: u16) -> nat {
    (5 * (width * height) + 1) as nat
}

/// Decompress an Apple cursor STORE payload into a cached RGBA image.
pub fn decode_apple_cursor_store(width: u16, height: u16, payload: &[u8]) -> (r: Result<
    AppleCursor,
    VncError,
>)
    ensures
        match stored_cursor(width, height, inflated_upto(payload@, store_limit(width, height))) {
            Ok(image) => r matches Ok(c) && c@ == image,
            Err(f) => r matches Err(e) && e@ == f,
        },
        inflated(payload@) matches Some(plain) ==> (plain.len() == 5 * (width * height) ==> (
        r matches Ok(c) && c@ == (CursorImage {
            width,
            height,
            pixels: merged_pixels(plain, (width * height) as nat),
        }))),
{
    proof {
        lemma_area(width, height, 1);
    }
    let limit: u64 = 5 * (width as u64 * height as u64) + 1;
    check_cursor_store(width, height, zlib_inflate_upto(payload, limit))
}

/// Most cursors that are cached.
pub const MAX_APPLE_CURSOR_CACHE: usize = 64;

/// Cached cursors under their ids.
pub struct CursorCache {
    pub entries: HashMap<u64, AppleCursor>,
}

/// The entries of a cache as values.
pub open spec fn entry_views(entries: Map<u64, AppleCursor>) -> Map<u64, CursorImage> {
    Map::new(|k: u64| entries.contains_key(k), |k: u64| entries[k]@)
}

impl View for CursorCache {
    type V = Map<u64, CursorImage>;

    open spec fn view(&self) -> Map<u64, CursorImage> {
        entry_views(self.entries@)
    }
}

/// The cursor with the id.
pub open spec fn cached(cache: Map<u64, CursorImage>, id: u32) -> Option<CursorImage> {
    if cache.contains_key(id as u64) {
        Some(cache[id as u64])
    } else {
        None
    }
}

/// Whether `k` is the smallest of the ids.
pub open spec fn is_least(ids: Set<u64>, k: u64) -> bool {
    ids.contains(k) && forall|j: u64| #[trigger] ids.contains(j) ==> k <= j
}

/// The cache once there is room for one more cursor: a full one loses the cursor
/// with the smallest id.
pub open spec fn with_room(cache: Map<u64, CursorImage>) -> Map<u64, CursorImage> {
    if cache.dom().len() >= MAX_APPLE_CURSOR_CACHE {
        cache.remove(choose|k: u64| is_least(cache.dom(), k))
    } else {
        cache
    }
}

/// A cache with one more cursor, in place of one with the same id.
pub open spec fn with_cursor(
    cache: Map<u64, CursorImage>,
    id: u32,
    image: CursorImage,
) -> Map<u64, CursorImage> {
    with_room(cache).insert(id as u64, image)
}

/// A cursor that was stored is the one that its id then selects.
pub proof fn lemma_store_then_select(cache: Map<u64, CursorImage>, id: u32, image: CursorImage)
    ensures
        cached(with_cursor(cache, id, image), id) == Some(image),
{
}

/// Storing leaves the cursors under other ids alone, as long as the cache is
/// not full.
pub proof fn lemma_store_keeps_others(
    cache: Map<u64, CursorImage>,
    id: u32,
    image: CursorImage,
    other: u32,
)
    requires
        cache.dom().len() < MAX_APPLE_CURSOR_CACHE,
        other != id,
    ensures
        cached(with_cursor(cache, id, image), other) == cached(cache, other),
{
}

proof fn lemma_least_from(ids: Set<u64>, k: u64)
    requires
        ids.contains(k),
    ensures
        exists|l: u64| is_least(ids, l),
    decreases k,
{
    if exists|j: u64| #[trigger] ids.contains(j) && j < k {
        let j = choose|j: u64| #[trigger] ids.contains(j) && j < k;
        lemma_least_from(ids, j);
    } else {
        assert(is_least(ids, k));
    }
}

/// The cache never holds more cursors than its limit.
pub proof fn lemma_cache_is_bounded(cache: Map<u64, CursorImage>, id: u32, image: CursorImage)
    requires
        cache.dom().finite(),
        cache.dom().len() <= MAX_APPLE_CURSOR_CACHE,
    ensures
        with_cursor(cache, id, image).dom().finite(),
        with_cursor(cache, id, image).dom().len() <= MAX_APPLE_CURSOR_CACHE,
{
    if cache.dom().len() >= MAX_APPLE_CURSOR_CACHE {
        assert(exists|k: u64| cache.dom().contains(k)) by {
            if !exists|k: u64| cache.dom().contains(k) {
                assert(cache.dom() =~= Set::<u64>::empty());
            }
        }
        let k = choose|k: u64| cache.dom().contains(k);
        lemma_least_from(cache.dom(), k);
    }
}

impl CursorCache {
    /// An empty cache.
    pub fn new() -> (r: CursorCache)
        ensures
            r@ == Map::<u64, CursorImage>::empty(),
    {
        let r = CursorCache { entries: HashMap::new() };
        assert(r@ =~= Map::<u64, CursorImage>::empty());
        r
    }

    /// The cursor with the id.
    pub fn get(&self, id: u32) -> (r: Option<&AppleCursor>)
        ensures
            match r {
                Some(c) => cached(self@, id) == Some(c@),
                None => cached(self@, id) is None,
            },
    {
        self.entries.get(&(id as u64))
    }

    fn least_id(&self) -> (r: u64)
        requires
            self.entries@.dom().len() > 0,
        ensures
            is_least(self@.dom(), r),
    {
        let keys = keys_of(&self.entries);
        let n: usize = keys.len();
        proof {
            if n == 0 {
                assert forall|k: u64| !self.entries@.dom().contains(k) by {
                    assert(!keys@.contains(k));
                }
                assert(self.entries@.dom() =~= Set::<u64>::empty());
            }
        }
        let mut least: u64 = keys[0];
        let mut i: usize = 1;
        while i < n
            invariant
                n == keys@.len(),
                1 <= i <= n,
                keys@.contains(least),
                forall|j: int| 0 <= j < i ==> least <= #[trigger] keys@[j],
            decreases n - i,
        {
            if keys[i] < least {
                least = keys[i];
            }
            i = i + 1;
        }
        assert forall|k: u64| #[trigger] self@.dom().contains(k) implies least <= k by {
            assert(keys@.contains(k));
            let j = choose|j: int| 0 <= j < keys@.len() && keys@[j] == k;
            assert(keys@[j] == k);
        }
        least
    }

    /// Adds a cursor.
    pub fn insert(&mut self, id: u32, cursor: AppleCursor)
        ensures
            final(self)@ == with_cursor(old(self)@, id, cursor@),
    {
        let ghost before = self@;
        assert(before.dom() =~= self.entries@.dom());
        if self.entries.len() >= MAX_APPLE_CURSOR_CACHE {
            let least: u64 = self.least_id();
            proof {
                let k = choose|k: u64| is_least(before.dom(), k);
                assert(is_least(before.dom(), least));
                assert(k == least);
            }
            let _ = self.entries.remove(&least);
        }
        assert(self@ =~= with_room(before));
        self.entries.insert(id as u64, cursor);
        assert(self@ =~= with_cursor(before, id, cursor@));
    }
}

/// The cursor event of a selected image: fully shown by its mask.
pub open spec fn selected_shape(image: CursorImage, x: u16, y: u16) -> CursorView {
    CursorView {
        width: image.width,
        height: image.height,
        hotspot_x: x,
        hotspot_y: y,
        pixels: image.pixels,
        mask: Seq::new(mask_row(image.width as nat) * image.height as nat, |i: int| 0xffu8),
    }
}

/// Makes the cursor of a selected image.
pub fn select_shape(cursor: &AppleCursor, x: u16, y: u16) -> (r: CursorShape)
    ensures
        r@ == selected_shape(cursor@, x, y),
{
    proof {
        lemma_area(cursor.width, cursor.height, 1);
    }
    let n: usize = ((cursor.width as usize + 7) / 8) * cursor.height as usize;
    let mask = vec![0xffu8; n];
    assert(mask@ =~= selected_shape(cursor@, x, y).mask);
    CursorShape {
        width: cursor.width,
        height: cursor.height,
        hotspot_x: x,
        hotspot_y: y,
        pixels: to_vec(&cursor.pixels),
        mask,
    }
}

} // verus!
