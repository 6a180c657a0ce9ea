use std::cell::Cell;

use vnc_client::decoder::{
    check_frame, check_planes, dump_record, output_timeout, pipeline_description, require_output,
    Codec, VideoDecoder,
};
use vnc_client::VncError;

/// A decoder that hands back its input.
struct Echo {
    calls: Cell<u32>,
}

impl VideoDecoder for Echo {
    fn decode_frame(&self, data: &[u8]) -> Result<Vec<u8>, VncError> {
        self.calls.set(self.calls.get() + 1);
        check_frame(data)?;
        Ok(data.to_vec())
    }

    fn video_size(&self) -> Option<(u16, u16)> {
        None
    }
}

#[test]
fn plain_decoders_decode_at_once_and_without_tags() {
    let decoder = Echo { calls: Cell::new(0) };
    decoder.set_size(3, 4);
    assert_eq!(decoder.try_decode_frame(&[1, 2]), Ok(Some(vec![1, 2])));
    assert_eq!(decoder.decode_au(&[3], 77), Ok(Some((0, vec![3]))));
    assert_eq!(decoder.poll_decoded(), Ok(None));
    assert_eq!(decoder.calls.get(), 2);
    assert!(decoder.decode_au(&[], 1).is_err());
}

#[test]
fn pipelines_have_no_parser() {
    assert_eq!(
        pipeline_description(Codec::H264),
        "appsrc name=src format=bytes caps=video/x-h264,stream-format=(string)byte-stream,\
         alignment=(string)au,parsed=(boolean)true ! avdec_h264 ! videoconvert ! \
         appsink name=sink"
    );
    assert!(pipeline_description(Codec::Hevc).contains(" ! avdec_h265 max-threads=1 ! "));
}

#[test]
fn empty_frames_and_missing_planes_are_refused() {
    assert_eq!(check_frame(&[]), Err(VncError::Protocol("Empty video frame".to_string())));
    assert_eq!(check_frame(&[0]), Ok(()));
    assert!(check_planes(1, 2).is_err());
    assert!(check_planes(2, 1).is_err());
    assert_eq!(check_planes(2, 3), Ok(()));
}

#[test]
fn the_first_picture_may_take_longer() {
    assert_eq!(output_timeout(true), 3_000_000_000);
    assert_eq!(output_timeout(false), 500_000_000);
    assert_eq!(require_output(Some(vec![1])), Ok(vec![1]));
    assert!(require_output(None).is_err());
}

#[test]
fn records_are_framed_by_their_length() {
    assert_eq!(dump_record(&[9, 8]), vec![0, 0, 0, 2, 9, 8]);
}
