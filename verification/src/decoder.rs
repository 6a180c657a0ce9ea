//! Video codecs, the interface of platform video decoders, and the rules that
//! they share.

use vstd::prelude::*;

use crate::error::{protocol_error, Failure, VncError};
use crate::text::concat_text;
use crate::wire::{be32, push_all, push_u32};

verus! {

/// Video codec selected for the adaptive media stream.
#[derive(Debug, Clone, Copy, PartialEq, Eq, Structural)]
pub enum Codec {
    /// H.264 / AVC.
    H264,
    /// H.265 / HEVC.
    Hevc,
}

/// Video decoder for H.264/HEVC access units.
///
/// What a decoder returns depends on the platform behind it, so nothing is
/// promised of the results. A method with a body says what it does for decoders
/// that do not replace it.
pub trait VideoDecoder {
    /// Decodes a single compressed access unit and returns RGBA pixel data.
    fn decode_frame(&self, data: &[u8]) -> Result<Vec<u8>, VncError>;

    /// The negotiated video dimensions.
    fn video_size(&self) -> Option<(u16, u16)>;

    /// Informs the decoder of the expected video dimensions before decoding.
    /// Decoders that detect the size themselves ignore this.
    fn set_size(&self, width: u16, height: u16) {
    }

    /// Feeds a single access unit and returns a decoded frame if one is
    /// available. A decoder that has no better way decodes at once.
    fn try_decode_frame(&self, data: &[u8]) -> (r: Result<Option<Vec<u8>>, VncError>)
        default_ensures
            match r {
                Ok(Some(rgba)) => call_ensures(
                    Self::decode_frame,
                    (self, data),
                    Ok::<Vec<u8>, VncError>(rgba),
                ),
                Ok(None) => false,
                Err(e) => call_ensures(
                    Self::decode_frame,
                    (self, data),
                    Err::<Vec<u8>, VncError>(e),
                ),
            },
    {
        match self.decode_frame(data) {
            Ok(rgba) => Ok(Some(rgba)),
            Err(e) => Err(e),
        }
    }

    /// Feeds one complete access unit tagged with `pts`, returning the tag and
    /// RGBA pixels of a decoded picture when one becomes available. A decoder
    /// that does not carry tags reports 0.
    fn decode_au(&self, data: &[u8], pts: u64) -> (r: Result<Option<(u64, Vec<u8>)>, VncError>)
        default_ensures
            match r {
                Ok(Some((tag, rgba))) => tag == 0 && call_ensures(
                    Self::try_decode_frame,
                    (self, data),
                    Ok::<Option<Vec<u8>>, VncError>(Some(rgba)),
                ),
                Ok(None) => call_ensures(
                    Self::try_decode_frame,
                    (self, data),
                    Ok::<Option<Vec<u8>>, VncError>(None),
                ),
                Err(e) => call_ensures(
                    Self::try_decode_frame,
                    (self, data),
                    Err::<Option<Vec<u8>>, VncError>(e),
                ),
            },
    {
        match self.try_decode_frame(data) {
            Ok(Some(rgba)) => Ok(Some((0, rgba))),
            Ok(None) => Ok(None),
            Err(e) => Err(e),
        }
    }

    /// Polls for a decoded picture without feeding new input. A decoder that
    /// never delays a picture has none.
    fn poll_decoded(&self) -> (r: Result<Option<(u64, Vec<u8>)>, VncError>)
        default_ensures
            r == Ok::<Option<(u64, Vec<u8>)>, VncError>(None),
    {
        Ok(None)
    }
}

/// The format of the access units that go into a pipeline: whole units, parsed.
pub open spec fn caps_text(codec: Codec) -> Seq<char> {
    match codec {
        Codec::H264 => {
            "video/x-h264,stream-format=(string)byte-stream,alignment=(string)au,parsed=(boolean)true"@
        },
        Codec::Hevc => {
            "video/x-h265,stream-format=(string)byte-stream,alignment=(string)au,parsed=(boolean)true"@
        },
    }
}

/// The element that decodes. HEVC runs on a single thread: more of them would
/// delay the output by several access units.
pub open spec fn element_text(codec: Codec) -> Seq<char> {
    match codec {
        Codec::H264 => "avdec_h264"@,
        Codec::Hevc => "avdec_h265 max-threads=1"@,
    }
}

/// The pipeline that decodes a codec. It has no parser, which would rewrite the
/// tags of the access units.
pub open spec fn pipeline_text(codec: Codec) -> Seq<char> {
    "appsrc name=src format=bytes caps="@ + caps_text(codec) + " ! "@ + element_text(codec)
        + " ! videoconvert ! appsink name=sink"@
}

/// The pipeline that decodes a codec.
pub fn pipeline_description(codec: Codec) -> (r: String)
    ensures
        r@ == pipeline_text(codec),
{
    let (caps, element) = match codec {
        Codec::H264 => (
            "video/x-h264,stream-format=(string)byte-stream,alignment=(string)au,parsed=(boolean)true",
            "avdec_h264",
        ),
        Codec::Hevc => (
            "video/x-h265,stream-format=(string)byte-stream,alignment=(string)au,parsed=(boolean)true",
            "avdec_h265 max-threads=1",
        ),
    };
    let t = concat_text("appsrc name=src format=bytes caps=", caps);
    let t = concat_text(t.as_str(), " ! ");
    let t = concat_text(t.as_str(), element);
    concat_text(t.as_str(), " ! videoconvert ! appsink name=sink")
}

/// Checks that there is something to decode.
pub fn check_frame(data: &[u8]) -> (r: Result<(), VncError>)
    ensures
        if data@.len() == 0 {
            r matches Err(e) && e@ == Failure::Protocol("Empty video frame"@)
        } else {
            r is Ok
        },
{
    if data.len() == 0 {
        Err(protocol_error("Empty video frame"))
    } else {
        Ok(())
    }
}

/// How long to wait for a picture, in nanoseconds. The first one takes longer,
/// since the decoder settles its formats.
pub fn output_timeout(first: bool) -> (r: u64)
    ensures
        r == if first {
            3_000_000_000
        } else {
            500_000_000int
        },
{
    if first {
        3_000_000_000
    } else {
        500_000_000
    }
}

/// Takes what came out of a decoder in time.
pub fn require_output(output: Option<Vec<u8>>) -> (r: Result<Vec<u8>, VncError>)
    ensures
        match output {
            Some(rgba) => r matches Ok(v) && v@ == rgba@,
            None => r matches Err(e) && e@ == Failure::Protocol(
                "Video decode timeout or no output"@,
            ),
        },
{
    match output {
        Some(rgba) => Ok(rgba),
        None => Err(protocol_error("Video decode timeout or no output")),
    }
}

/// Checks that a picture in two planes comes with where both start and how far
/// apart their rows lie.
pub fn check_planes(offsets: usize, strides: usize) -> (r: Result<(), VncError>)
    ensures
        if offsets < 2 || strides < 2 {
            r matches Err(e) && e@ == Failure::Protocol("Invalid NV12 plane metadata"@)
        } else {
            r is Ok
        },
{
    if offsets < 2 || strides < 2 {
        Err(protocol_error("Invalid NV12 plane metadata"))
    } else {
        Ok(())
    }
}

/// An access unit as it is recorded: behind its length, of which the low 32
/// bits are kept.
pub fn dump_record(data: &[u8]) -> (r: Vec<u8>)
    ensures
        r@ == be32((data@.len() % 0x1_0000_0000) as u32) + data@,
{
    let mut r: Vec<u8> = Vec::new();
    let len: u32 = (data.len() as u64 % 0x1_0000_0000) as u32;
    push_u32(&mut r, len);
    push_all(&mut r, data);
    assert(r@ =~= be32((data@.len() % 0x1_0000_0000) as u32) + data@);
    r
}

} // verus!
