//! Frames.

use clipd::frame::{frame_length, read_frame, write_frame, FrameError, MAX_FRAME_BYTES};

#[test]
fn frames_begin_with_their_length() {
    assert_eq!(write_frame(b"abc").unwrap(), [0, 0, 0, 3, b'a', b'b', b'c']);
    assert_eq!(write_frame(b"").unwrap(), [0, 0, 0, 0]);
    let long = write_frame(&vec![7; 0x010203]).unwrap();
    assert_eq!(&long[..4], &(0x010203_u32).to_be_bytes());
}

#[test]
fn frames_survive_the_way() {
    for n in [0usize, 1, 255, 256, 70_000] {
        let payload: Vec<u8> = (0..n).map(|i| i as u8).collect();
        let mut stream = write_frame(&payload).unwrap();
        stream.extend_from_slice(b"rest");
        assert_eq!(read_frame(&stream).unwrap(), payload);
    }
}

#[test]
fn long_frames_are_refused() {
    assert_eq!(frame_length([1, 0, 0, 0]), Ok(MAX_FRAME_BYTES));
    assert_eq!(frame_length([1, 0, 0, 1]), Err(FrameError::TooBig { bytes: MAX_FRAME_BYTES + 1 }));
    assert_eq!(frame_length([255; 4]), Err(FrameError::TooBig { bytes: u32::MAX as usize }));
    assert_eq!(
        read_frame(&[1, 0, 0, 1, 0]),
        Err(FrameError::TooBig { bytes: MAX_FRAME_BYTES + 1 })
    );
    let long = write_frame(&vec![0; MAX_FRAME_BYTES + 1]).unwrap();
    assert_eq!(read_frame(&long), Err(FrameError::TooBig { bytes: MAX_FRAME_BYTES + 1 }));
}

#[test]
fn short_streams_are_truncated_frames() {
    assert_eq!(read_frame(&[]), Err(FrameError::Truncated));
    assert_eq!(read_frame(&[0, 0, 0]), Err(FrameError::Truncated));
    assert_eq!(read_frame(&[0, 0, 0, 2, 9]), Err(FrameError::Truncated));
}
