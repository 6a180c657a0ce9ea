//! The pixels of decoded JPEG images.

use vstd::prelude::*;

verus! {

/// What the samples of an image are.
#[derive(Debug, Clone, Copy, PartialEq, Eq, Structural)]
pub enum JpegSamples {
    /// Red, green and blue.
    Rgb,
    /// Brightness.
    Luma,
}

impl JpegSamples {
    /// How many samples a pixel has.
    pub open spec fn per_pixel(self) -> nat {
        match self {
            JpegSamples::Rgb => 3,
            JpegSamples::Luma => 1,
        }
    }

    /// The opaque colour of pixel `p`.
    pub open spec fn pixel(self, samples: Seq<u8>, p: int) -> Seq<u8> {
        match self {
            JpegSamples::Rgb => seq![
                samples[3 * p],
                samples[3 * p + 1],
                samples[3 * p + 2],
                255u8,
            ],
            JpegSamples::Luma => seq![samples[p], samples[p], samples[p], 255u8],
        }
    }

    /// The opaque RGBA bytes of all whole pixels.
    pub open spec fn rgba(self, samples: Seq<u8>) -> Seq<u8> {
        Seq::new(
            4 * (samples.len() / self.per_pixel()),
            |i: int| self.pixel(samples, i / 4)[i % 4],
        )
    }

    /// Makes the opaque RGBA bytes of all whole pixels.
    pub fn to_rgba(&self, samples: &[u8]) -> (r: Vec<u8>)
        ensures
            r@ == self.rgba(samples@),
    {
        assert(samples@.len() == samples.len());
        let size: usize = match self {
            JpegSamples::Rgb => 3,
            JpegSamples::Luma => 1,
        };
        let n: usize = samples.len() / size;
        let mut out: Vec<u8> = Vec::new();
        let mut p: usize = 0;
        while p < n
            invariant
                size == self.per_pixel(),
                n == samples@.len() / self.per_pixel(),
                samples@.len() == samples.len(),
                p <= n,
                n * size <= samples@.len(),
                out@.len() == 4 * p,
                forall|i: int| 0 <= i < 4 * p ==> #[trigger] out@[i] == self.rgba(samples@)[i],
            decreases n - p,
        {
            let ghost before = out@;
            match self {
                JpegSamples::Rgb => {
                    out.push(samples[3 * p]);
                    out.push(samples[3 * p + 1]);
                    out.push(samples[3 * p + 2]);
                },
                JpegSamples::Luma => {
                    out.push(samples[p]);
                    out.push(samples[p]);
                    out.push(samples[p]);
                },
            }
            out.push(255);
            assert(out@ =~= before + self.pixel(samples@, p as int));
            p = p + 1;
        }
        assert(out@ =~= self.rgba(samples@));
        out
    }
}

} // verus!
