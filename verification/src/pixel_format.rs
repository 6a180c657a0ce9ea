//! How a server lays out the colours of a pixel.

use vstd::arithmetic::power2::{lemma2_to64, lemma_pow2_strictly_increases, pow2};
use vstd::bits::{lemma_u32_low_bits_mask_is_mod, lemma_u32_shr_is_div, lemma_u64_shl_is_mul};
use vstd::prelude::*;

use crate::wire::{be16, be_nat, push_u16, push_zeros, u16_at, u16_of, zeros};

verus! {

/// The layout of one pixel on the wire.
#[derive(Debug, Clone, Copy, PartialEq, Eq, Structural)]
pub struct PixelFormat {
    pub bits_per_pixel: u8,
    pub depth: u8,
    pub big_endian: bool,
    pub true_colour: bool,
    pub red_max: u16,
    pub green_max: u16,
    pub blue_max: u16,
    pub red_shift: u8,
    pub green_shift: u8,
    pub blue_shift: u8,
}

/// Bytes of a pixel format in a message.
pub const PIXEL_FORMAT_LEN: usize = 16;

/// One colour channel of a pixel, scaled to the range 0 to 255.
pub open spec fn channel(value: u32, shift: u8, max: u16) -> u8 {
    if max == 0 || shift >= 32 {
        0
    } else {
        (((value >> (shift as u32)) & (max as u32)) * 255 / (max as int)) as u8
    }
}

/// Whether a channel lies in the three low bytes of a pixel.
pub open spec fn in_low_bytes(shift: u8, max: u16) -> bool {
    shift <= 24 && ((max as u64) << (shift as u64)) < 0x100_0000
}

impl PixelFormat {
    /// Bytes of one pixel.
    pub open spec fn pixel_len(self) -> nat {
        (self.bits_per_pixel / 8) as nat
    }

    /// The number that the bytes of a pixel form, modulo 2 to the 32nd.
    pub open spec fn value_of(self, px: Seq<u8>) -> u32 {
        (be_nat(
            if self.big_endian {
                px
            } else {
                px.reverse()
            },
        ) % 0x1_0000_0000) as u32
    }

    /// The colour with the number `value`, opaque.
    pub open spec fn rgba_of_value(self, value: u32) -> Seq<u8> {
        seq![
            channel(value, self.red_shift, self.red_max),
            channel(value, self.green_shift, self.green_max),
            channel(value, self.blue_shift, self.blue_max),
            255u8,
        ]
    }

    /// The colour of a pixel.
    pub open spec fn rgba_of(self, px: Seq<u8>) -> Seq<u8> {
        self.rgba_of_value(self.value_of(px))
    }

    /// Whether the colours lie in the three low bytes.
    pub open spec fn fits_low(self) -> bool {
        &&& in_low_bytes(self.red_shift, self.red_max)
        &&& in_low_bytes(self.green_shift, self.green_max)
        &&& in_low_bytes(self.blue_shift, self.blue_max)
    }

    /// Whether the colours lie in the three high bytes.
    pub open spec fn fits_high(self) -> bool {
        self.red_shift >= 8 && self.green_shift >= 8 && self.blue_shift >= 8
    }

    /// Whether the tiled encodings leave out one of the four bytes.
    pub open spec fn compact(self) -> bool {
        self.true_colour && self.bits_per_pixel == 32 && self.depth <= 24 && (self.fits_low()
            || self.fits_high())
    }

    /// Bytes of one pixel in the tiled encodings.
    pub open spec fn cpixel_len(self) -> nat {
        if self.compact() {
            3
        } else {
            self.pixel_len()
        }
    }

    /// The colour of a pixel in the tiled encodings.
    pub open spec fn crgba_of(self, px: Seq<u8>) -> Seq<u8> {
        if self.compact() && !self.fits_low() {
            self.rgba_of_value((self.value_of(px) as int * 256 % 0x1_0000_0000) as u32)
        } else {
            self.rgba_of(px)
        }
    }

    /// The format on the wire.
    pub open spec fn wire(self) -> Seq<u8> {
        seq![
            self.bits_per_pixel,
            self.depth,
            if self.big_endian {
                1u8
            } else {
                0u8
            },
            if self.true_colour {
                1u8
            } else {
                0u8
            },
        ] + be16(self.red_max) + be16(self.green_max) + be16(self.blue_max) + seq![
            self.red_shift,
            self.green_shift,
            self.blue_shift,
        ] + zeros(3)
    }

    /// The format that 16 bytes describe.
    pub open spec fn read(s: Seq<u8>) -> PixelFormat {
        PixelFormat {
            bits_per_pixel: s[0],
            depth: s[1],
            big_endian: s[2] != 0,
            true_colour: s[3] != 0,
            red_max: u16_of(s, 4),
            green_max: u16_of(s, 6),
            blue_max: u16_of(s, 8),
            red_shift: s[10],
            green_shift: s[11],
            blue_shift: s[12],
        }
    }

    /// Red, green, blue and an unused byte.
    pub open spec fn rgba() -> PixelFormat {
        PixelFormat {
            bits_per_pixel: 32,
            depth: 24,
            big_endian: false,
            true_colour: true,
            red_max: 255,
            green_max: 255,
            blue_max: 255,
            red_shift: 0,
            green_shift: 8,
            blue_shift: 16,
        }
    }

    /// Red, green, blue and an unused byte.
    pub fn rgba32() -> (r: PixelFormat)
        ensures
            r == PixelFormat::rgba(),
    {
        PixelFormat {
            bits_per_pixel: 32,
            depth: 24,
            big_endian: false,
            true_colour: true,
            red_max: 255,
            green_max: 255,
            blue_max: 255,
            red_shift: 0,
            green_shift: 8,
            blue_shift: 16,
        }
    }

    /// Blue, green, red and an unused byte.
    pub fn bgra32() -> (r: PixelFormat)
        ensures
            r == (PixelFormat { red_shift: 16, blue_shift: 0, ..PixelFormat::rgba() }),
    {
        PixelFormat {
            bits_per_pixel: 32,
            depth: 24,
            big_endian: false,
            true_colour: true,
            red_max: 255,
            green_max: 255,
            blue_max: 255,
            red_shift: 16,
            green_shift: 8,
            blue_shift: 0,
        }
    }

    /// Bytes of one pixel.
    pub fn bytes_per_pixel(&self) -> (r: usize)
        ensures
            r == self.pixel_len(),
            r <= 31,
    {
        (self.bits_per_pixel / 8) as usize
    }

    fn low(&self) -> (r: bool)
        ensures
            r == self.fits_low(),
    {
        low_bytes(self.red_shift, self.red_max) && low_bytes(self.green_shift, self.green_max)
            && low_bytes(self.blue_shift, self.blue_max)
    }

    fn is_compact(&self) -> (r: bool)
        ensures
            r == self.compact(),
    {
        self.true_colour && self.bits_per_pixel == 32 && self.depth <= 24 && (self.low() || (
        self.red_shift >= 8 && self.green_shift >= 8 && self.blue_shift >= 8))
    }

    /// Bytes of one pixel in the tiled encodings.
    pub fn bytes_per_cpixel(&self) -> (r: usize)
        ensures
            r == self.cpixel_len(),
            r <= 31,
    {
        if self.is_compact() {
            3
        } else {
            self.bytes_per_pixel()
        }
    }

    fn value(&self, px: &[u8]) -> (r: u32)
        ensures
            r == self.value_of(px@),
    {
        let n: usize = px.len();
        let ghost s = if self.big_endian {
            px@
        } else {
            px@.reverse()
        };
        let mut acc: u64 = 0;
        let mut i: usize = 0;
        assert(s.take(0) =~= Seq::<u8>::empty());
        while i < n
            invariant
                n == px@.len(),
                n == s.len(),
                i <= n,
                s == (if self.big_endian {
                    px@
                } else {
                    px@.reverse()
                }),
                acc == be_nat(s.take(i as int)) % 0x1_0000_0000,
            decreases n - i,
        {
            let b: u8 = if self.big_endian {
                px[i]
            } else {
                px[n - 1 - i]
            };
            proof {
                assert(s.take(i + 1).drop_last() =~= s.take(i as int));
                assert(s.take(i + 1).last() == b);
                lemma_fold(be_nat(s.take(i as int)) as int, b as int);
            }
            acc = (acc * 256 + b as u64) % 0x1_0000_0000;
            i = i + 1;
        }
        assert(s.take(n as int) =~= s);
        acc as u32
    }

    fn colour(&self, value: u32) -> (r: [u8; 4])
        ensures
            r@ == self.rgba_of_value(value),
    {
        let r = [
            scale(value, self.red_shift, self.red_max),
            scale(value, self.green_shift, self.green_max),
            scale(value, self.blue_shift, self.blue_max),
            255,
        ];
        assert(r@ =~= self.rgba_of_value(value));
        r
    }

    /// The colour of a pixel, opaque.
    pub fn to_rgba(&self, px: &[u8]) -> (r: [u8; 4])
        ensures
            r@ == self.rgba_of(px@),
    {
        self.colour(self.value(px))
    }

    /// The colour of a pixel in the tiled encodings, opaque.
    pub fn cpixel_to_rgba(&self, px: &[u8]) -> (r: [u8; 4])
        ensures
            r@ == self.crgba_of(px@),
    {
        let value: u32 = self.value(px);
        if self.is_compact() && !self.low() {
            self.colour((value as u64 * 256 % 0x1_0000_0000) as u32)
        } else {
            self.colour(value)
        }
    }

    /// Writes the format.
    pub fn to_bytes(&self) -> (r: Vec<u8>)
        ensures
            r@ == self.wire(),
            r@.len() == PIXEL_FORMAT_LEN,
    {
        let mut out: Vec<u8> = vec![
            self.bits_per_pixel,
            self.depth,
            if self.big_endian {
                1
            } else {
                0
            },
            if self.true_colour {
                1
            } else {
                0
            },
        ];
        push_u16(&mut out, self.red_max);
        push_u16(&mut out, self.green_max);
        push_u16(&mut out, self.blue_max);
        out.push(self.red_shift);
        out.push(self.green_shift);
        out.push(self.blue_shift);
        push_zeros(&mut out, 3);
        assert(out@ =~= self.wire());
        out
    }

    /// Reads a format.
    pub fn from_bytes(s: &[u8]) -> (r: PixelFormat)
        requires
            s@.len() == PIXEL_FORMAT_LEN,
        ensures
            r == PixelFormat::read(s@),
    {
        PixelFormat {
            bits_per_pixel: s[0],
            depth: s[1],
            big_endian: s[2] != 0,
            true_colour: s[3] != 0,
            red_max: u16_at(s, 4),
            green_max: u16_at(s, 6),
            blue_max: u16_at(s, 8),
            red_shift: s[10],
            green_shift: s[11],
            blue_shift: s[12],
        }
    }

    /// A pixel format reads back as written.
    pub proof fn lemma_round_trip(self)
        ensures
            PixelFormat::read(self.wire()) == self,
    {
        let s = self.wire();
        assert(s[4] == be16(self.red_max)[0] && s[5] == be16(self.red_max)[1]);
        assert(s[6] == be16(self.green_max)[0] && s[7] == be16(self.green_max)[1]);
        assert(s[8] == be16(self.blue_max)[0] && s[9] == be16(self.blue_max)[1]);
    }

    /// A pixel of red, green, blue and any fourth byte keeps its colours.
    pub proof fn lemma_rgba_keeps_colours(px: Seq<u8>)
        requires
            px.len() == 4,
        ensures
            PixelFormat::rgba().rgba_of(px) == seq![px[0], px[1], px[2], 255u8],
    {
        let s = px.reverse();
        reveal_with_fuel(be_nat, 5);
        assert(s.drop_last().drop_last().drop_last().drop_last() =~= Seq::<u8>::empty());
        let v = PixelFormat::rgba().value_of(px);
        let (r, g, b, a) = (px[0], px[1], px[2], px[3]);
        assert(v == r + 256 * g + 65536 * b + 0x100_0000 * a);
        assert(((v >> 0u32) & 255u32) == r && ((v >> 8u32) & 255u32) == g && ((v >> 16u32) & 255u32)
            == b) by (bit_vector)
            requires
                v == r + 256 * g + 65536 * b + 0x100_0000 * a,
        ;
        assert(PixelFormat::rgba().rgba_of(px) =~= seq![px[0], px[1], px[2], 255u8]);
    }

    /// The bytes of a pixel form a number: the first is the most significant in a
    /// big-endian format, and the least significant in any other.
    pub proof fn lemma_pixel_number(self, a: u8, b: u8, c: u8, d: u8)
        ensures
            self.value_of(seq![a]) == a,
            self.value_of(seq![a, b]) == if self.big_endian {
                a * 256 + b
            } else {
                a + b * 256
            },
            self.value_of(seq![a, b, c]) == if self.big_endian {
                a * 0x1_0000 + b * 256 + c
            } else {
                a + b * 256 + c * 0x1_0000
            },
            self.value_of(seq![a, b, c, d]) == if self.big_endian {
                a * 0x100_0000 + b * 0x1_0000 + c * 256 + d
            } else {
                a + b * 256 + c * 0x1_0000 + d * 0x100_0000
            },
    {
        lemma_digits(a, b, c, d);
        lemma_digits(d, c, b, a);
        lemma_digits(c, b, a, 0);
        lemma_digits(b, a, 0, 0);
        assert(seq![a].reverse() =~= seq![a]);
        assert(seq![a, b].reverse() =~= seq![b, a]);
        assert(seq![a, b, c].reverse() =~= seq![c, b, a]);
        assert(seq![a, b, c, d].reverse() =~= seq![d, c, b, a]);
    }

    /// A channel of `bits` bits is taken from its place in the pixel's number and
    /// spread over the range 0 to 255, so that its largest value becomes 255. The
    /// fourth channel is opaque.
    pub proof fn lemma_channels_are_taken_from_their_place(
        self,
        px: Seq<u8>,
        red: nat,
        green: nat,
        blue: nat,
    )
        requires
            0 < red <= 16,
            0 < green <= 16,
            0 < blue <= 16,
            self.red_max == pow2(red) - 1,
            self.green_max == pow2(green) - 1,
            self.blue_max == pow2(blue) - 1,
            self.red_shift < 32,
            self.green_shift < 32,
            self.blue_shift < 32,
        ensures
            ({
                let v = self.value_of(px) as int;
                let rgba = self.rgba_of(px);
                &&& rgba.len() == 4
                &&& rgba[0] == (v / pow2(self.red_shift as nat) as int % pow2(red) as int) * 255 / (
                pow2(red) - 1)
                &&& rgba[1] == (v / pow2(self.green_shift as nat) as int % pow2(green) as int) * 255
                    / (pow2(green) - 1)
                &&& rgba[2] == (v / pow2(self.blue_shift as nat) as int % pow2(blue) as int) * 255
                    / (pow2(blue) - 1)
                &&& rgba[3] == 255
            }),
    {
        let v = self.value_of(px);
        lemma_channel(v, self.red_shift, self.red_max, red);
        lemma_channel(v, self.green_shift, self.green_max, green);
        lemma_channel(v, self.blue_shift, self.blue_max, blue);
    }

    /// In the tiled encodings a pixel of four bytes whose colours lie in three of
    /// them comes without the fourth: reading the three gives the colour of the
    /// pixel with that byte put back, as zero.
    pub proof fn lemma_unused_byte_is_left_out(self, a: u8, b: u8, c: u8)
        requires
            self.true_colour,
            self.bits_per_pixel == 32,
            self.depth <= 24,
            self.red_shift <= 24,
            self.green_shift <= 24,
            self.blue_shift <= 24,
        ensures
            ({
                let low = self.red_max * pow2(self.red_shift as nat) < 0x100_0000 && self.green_max
                    * pow2(self.green_shift as nat) < 0x100_0000 && self.blue_max * pow2(
                    self.blue_shift as nat,
                ) < 0x100_0000;
                let high = self.red_shift >= 8 && self.green_shift >= 8 && self.blue_shift >= 8;
                let (first, last) = (seq![0u8, a, b, c], seq![a, b, c, 0u8]);
                &&& self.cpixel_len() == if low || high {
                    3nat
                } else {
                    4nat
                }
                &&& low ==> self.crgba_of(seq![a, b, c]) == self.rgba_of(
                    if self.big_endian {
                        first
                    } else {
                        last
                    },
                )
                &&& high && !low ==> self.crgba_of(seq![a, b, c]) == self.rgba_of(
                    if self.big_endian {
                        last
                    } else {
                        first
                    },
                )
            }),
    {
        lemma_low_bytes(self.red_shift, self.red_max);
        lemma_low_bytes(self.green_shift, self.green_max);
        lemma_low_bytes(self.blue_shift, self.blue_max);
        self.lemma_pixel_number(a, b, c, 0);
        self.lemma_pixel_number(0, a, b, c);
    }

    /// Where nothing can be left out, a pixel in the tiled encodings is the pixel
    /// as it is elsewhere.
    pub proof fn lemma_other_pixels_come_in_full(self, px: Seq<u8>)
        requires
            !self.true_colour || self.bits_per_pixel != 32 || self.depth > 24,
        ensures
            self.cpixel_len() == self.bits_per_pixel as int / 8,
            self.pixel_len() == self.bits_per_pixel as int / 8,
            self.crgba_of(px) == self.rgba_of(px),
    {
    }
}

proof fn lemma_digits(a: u8, b: u8, c: u8, d: u8)
    ensures
        be_nat(seq![a]) == a,
        be_nat(seq![a, b]) == a * 256 + b,
        be_nat(seq![a, b, c]) == a * 0x1_0000 + b * 256 + c,
        be_nat(seq![a, b, c, d]) == a * 0x100_0000 + b * 0x1_0000 + c * 256 + d,
{
    assert(seq![a].drop_last() =~= Seq::<u8>::empty());
    assert(be_nat(seq![a].drop_last()) == 0);
    assert(be_nat(seq![a]) == a);
    assert(seq![a, b].drop_last() =~= seq![a]);
    assert(be_nat(seq![a, b]) == be_nat(seq![a, b].drop_last()) * 256 + b);
    assert(seq![a, b, c].drop_last() =~= seq![a, b]);
    assert(be_nat(seq![a, b, c]) == be_nat(seq![a, b, c].drop_last()) * 256 + c);
    assert(seq![a, b, c, d].drop_last() =~= seq![a, b, c]);
    assert(be_nat(seq![a, b, c, d]) == be_nat(seq![a, b, c, d].drop_last()) * 256 + d);
}

#[verifier::spinoff_prover]
proof fn lemma_channel(value: u32, shift: u8, max: u16, bits: nat)
    requires
        0 < bits <= 16,
        shift < 32,
        max == pow2(bits) - 1,
    ensures
        channel(value, shift, max) == (value as int / pow2(shift as nat) as int % pow2(bits) as int)
            * 255 / (pow2(bits) - 1),
{
    let s = shift as u32;
    lemma_u32_shr_is_div(value, s);
    let x = value >> s;
    lemma_u32_low_bits_mask_is_mod(x, bits);
    lemma_pow2_strictly_increases(0, bits);
    lemma2_to64();
    let m = pow2(bits) as int;
    assert(max >= 1);
    let part = x as int % m;
    vstd::arithmetic::div_mod::lemma_mod_bound(x as int, m);
    assert(x & (max as u32) == part);
    assert(0 <= part * 255 / (m - 1) <= 255) by (nonlinear_arith)
        requires
            0 <= part <= m - 1,
            m - 1 > 0,
    ;
}

proof fn lemma_low_bytes(shift: u8, max: u16)
    requires
        shift <= 24,
    ensures
        in_low_bytes(shift, max) == (max * pow2(shift as nat) < 0x100_0000),
{
    lemma2_to64();
    if shift < 24 {
        lemma_pow2_strictly_increases(shift as nat, 24);
    }
    assert(max * pow2(shift as nat) <= u64::MAX) by (nonlinear_arith)
        requires
            0 <= max <= 0xffff,
            0 <= pow2(shift as nat) <= 0x100_0000,
    ;
    lemma_u64_shl_is_mul(max as u64, shift as u64);
}

proof fn lemma_fold(a: int, b: int)
    requires
        a >= 0,
        0 <= b < 256,
    ensures
        (a * 256 + b) % 0x1_0000_0000 == ((a % 0x1_0000_0000) * 256 + b) % 0x1_0000_0000,
{
    vstd::arithmetic::div_mod::lemma_fundamental_div_mod(a, 0x1_0000_0000);
    let q = a / 0x1_0000_0000;
    let m = a % 0x1_0000_0000;
    assert(a * 256 + b == 0x1_0000_0000 * (q * 256) + (m * 256 + b)) by (nonlinear_arith)
        requires
            a == 0x1_0000_0000 * q + m,
    ;
    vstd::arithmetic::div_mod::lemma_mod_multiples_vanish(q * 256, m * 256 + b, 0x1_0000_0000);
}

fn low_bytes(shift: u8, max: u16) -> (r: bool)
    ensures
        r == in_low_bytes(shift, max),
{
    shift <= 24 && ((max as u64) << (shift as u64)) < 0x100_0000
}

fn scale(value: u32, shift: u8, max: u16) -> (r: u8)
    ensures
        r == channel(value, shift, max),
{
    if max == 0 || shift >= 32 {
        return 0;
    }
    let shifted: u32 = value >> (shift as u32);
    let m: u32 = max as u32;
    assert(shifted & m <= m) by (bit_vector);
    let part: u32 = shifted & m;
    proof {
        assert(part * 255 / (m as int) <= 255) by (nonlinear_arith)
            requires
                part <= m,
                m > 0,
        ;
    }
    (part * 255 / m) as u8
}

} // verus!
