use camera_stream::camera::{copy_prefix, pump_step, video_chunk_bounds, PumpStep, VIDEO_CHUNK_SIZE};
use camera_stream::tcp_stream::{frame_boundary, stream_step, stream_trailer, video_messages, CameraMessage, StreamStep};

#[test]
fn pump_waits_restarts_or_forwards() {
    assert_eq!(pump_step(0, false, false), PumpStep::Wait);
    assert_eq!(pump_step(0, true, false), PumpStep::Wait);
    assert_eq!(pump_step(0, false, true), PumpStep::Restart);
    assert_eq!(pump_step(10, true, true), PumpStep::Forward { consume: 10, end_of_frame: true });
    assert_eq!(pump_step(3000, false, false), PumpStep::Forward { consume: 3000, end_of_frame: false });
}

#[test]
fn video_chunk_bounds_cover_the_data() {
    assert!(video_chunk_bounds(0).is_empty());
    assert_eq!(video_chunk_bounds(1), vec![(0, 1)]);
    assert_eq!(video_chunk_bounds(1024), vec![(0, 1024)]);
    assert_eq!(video_chunk_bounds(2500), vec![(0, 1024), (1024, 2048), (2048, 2500)]);
}

#[test]
fn copy_prefix_keeps_the_tail() {
    let mut dst = [5u8; VIDEO_CHUNK_SIZE];
    copy_prefix(&mut dst, &[1, 2, 3]);
    assert_eq!(&dst[..4], &[1, 2, 3, 5]);
    assert!(dst[3..].iter().all(|b| *b == 5));
}

#[test]
fn video_messages_reuse_one_scratch_buffer() {
    let data: Vec<u8> = (0..(VIDEO_CHUNK_SIZE + 3)).map(|i| (i % 200) as u8 + 1).collect();
    let msgs = video_messages(&data);
    assert_eq!(msgs.len(), 2);
    match (&msgs[0], &msgs[1]) {
        (CameraMessage::VideoChunk(a, la), CameraMessage::VideoChunk(b, lb)) => {
            assert_eq!(*la, VIDEO_CHUNK_SIZE);
            assert_eq!(&a[..], &data[..VIDEO_CHUNK_SIZE]);
            assert_eq!(*lb, 3);
            assert_eq!(&b[..3], &data[VIDEO_CHUNK_SIZE..]);
            assert_eq!(&b[3..], &a[3..]);
        }
        _ => panic!("expected video chunks"),
    }
}

#[test]
fn lone_short_chunk_is_zero_padded() {
    let msgs = video_messages(&[9, 8]);
    assert_eq!(msgs.len(), 1);
    match &msgs[0] {
        CameraMessage::VideoChunk(a, l) => {
            assert_eq!(*l, 2);
            assert_eq!(&a[..2], &[9, 8]);
            assert!(a[2..].iter().all(|b| *b == 0));
        }
        _ => panic!("expected a video chunk"),
    }
}

#[test]
fn stream_writes_valid_bytes_boundaries_and_stops() {
    let mut buf = [0u8; VIDEO_CHUNK_SIZE];
    buf[..4].copy_from_slice(&[1, 2, 3, 4]);
    match stream_step(&CameraMessage::VideoChunk(buf, 4)) {
        StreamStep::Write(b) => assert_eq!(b, vec![1, 2, 3, 4]),
        _ => panic!("expected a write"),
    }
    match stream_step(&CameraMessage::EndOfFrame) {
        StreamStep::WriteAndFlush(b) => {
            assert_eq!(b, b"\r\n--frame\r\nContent-Type: image/jpeg\r\n\r\n".to_vec());
            assert_eq!(b, frame_boundary().to_vec());
        }
        _ => panic!("expected a boundary"),
    }
    assert!(matches!(stream_step(&CameraMessage::HardwareError), StreamStep::Stop));
    assert_eq!(stream_trailer(), b"\r\n");
}

#[test]
fn video_messages_carry_exactly_the_data() {
    for n in [0usize, 1, 1023, 1024, 1025, 5000] {
        let data: Vec<u8> = (0..n).map(|i| (i % 199) as u8).collect();
        let mut sent = Vec::new();
        for m in video_messages(&data) {
            match m {
                CameraMessage::VideoChunk(buf, len) => sent.extend_from_slice(&buf[..len]),
                _ => panic!("expected video chunks"),
            }
        }
        assert_eq!(sent, data);
    }
}

#[test]
fn video_chunk_bounds_tile() {
    let b = video_chunk_bounds(3000);
    assert_eq!(b[0].0, 0);
    for w in b.windows(2) {
        assert_eq!(w[0].1, w[1].0);
    }
    assert_eq!(b.last().unwrap().1, 3000);
}
