use camera_stream::camera::VIDEO_CHUNK_SIZE;
use camera_stream::chunk::{JpegFrameChunk, MAX_CHUNK_SIZE};
use camera_stream::frame::split_frame;
use camera_stream::udp_stream::{CameraMessage, FrameSender, MyBox, SenderAction, FRAME_BUFFER_SIZE};

fn reassemble(chunks: &[JpegFrameChunk]) -> Vec<u8> {
    let mut out = Vec::new();
    for c in chunks {
        out.extend_from_slice(&c.payload[..c.payload_len as usize]);
    }
    out
}

fn frame_of(n: usize) -> Vec<u8> {
    (0..n).map(|i| (i % 253) as u8).collect()
}

#[test]
fn split_counts_and_numbers_chunks() {
    let frame = frame_of(3000);
    let chunks = split_frame(&frame, 42);
    assert_eq!(chunks.len(), 3);
    for (i, c) in chunks.iter().enumerate() {
        assert_eq!(c.frame_id, 42);
        assert_eq!(c.chunk_id as usize, i);
        assert_eq!(c.total_chunks, 3);
    }
    assert_eq!(chunks[0].payload_len, 1400);
    assert_eq!(chunks[1].payload_len, 1400);
    assert_eq!(chunks[2].payload_len, 200);
    assert!(chunks[2].payload[200..].iter().all(|b| *b == 0));
}

#[test]
fn split_of_exact_multiple_has_no_empty_chunk() {
    let frame = frame_of(2 * MAX_CHUNK_SIZE);
    let chunks = split_frame(&frame, 0);
    assert_eq!(chunks.len(), 2);
    assert_eq!(chunks[1].payload_len as usize, MAX_CHUNK_SIZE);
}

#[test]
fn split_of_empty_frame_is_empty() {
    assert!(split_frame(&[], 5).is_empty());
}

#[test]
fn split_then_reassemble_gives_back_the_frame() {
    for n in [1usize, 1399, 1400, 1401, 5000, FRAME_BUFFER_SIZE] {
        let frame = frame_of(n);
        let chunks = split_frame(&frame, 1);
        assert_eq!(reassemble(&chunks), frame);
    }
}

#[test]
fn chunk_count_above_255_wraps_in_u8() {
    let frame = frame_of(300 * MAX_CHUNK_SIZE);
    let chunks = split_frame(&frame, 0);
    assert_eq!(chunks.len(), 300);
    assert_eq!(chunks[0].total_chunks, 44);
    assert_eq!(chunks[256].chunk_id, 0);
}

fn video(bytes: &[u8]) -> CameraMessage {
    let mut b = MyBox::new([0u8; VIDEO_CHUNK_SIZE]);
    b.fill_prefix(bytes);
    CameraMessage::VideoChunk(b, bytes.len())
}

#[test]
fn sender_buffers_then_sends_a_frame() {
    let mut s = FrameSender::new();
    assert!(matches!(s.handle(video(&[1, 2, 3])), SenderAction::Buffered(_)));
    assert!(matches!(s.handle(video(&[4, 5])), SenderAction::Buffered(_)));
    match s.handle(CameraMessage::EndOfFrame) {
        SenderAction::Send(chunks) => {
            assert_eq!(chunks.len(), 1);
            assert_eq!(chunks[0].frame_id, 0);
            assert_eq!(reassemble(&chunks), vec![1, 2, 3, 4, 5]);
        }
        _ => panic!("expected a frame"),
    }
    assert!(matches!(s.handle(video(&[9])), SenderAction::Buffered(_)));
    match s.handle(CameraMessage::EndOfFrame) {
        SenderAction::Send(chunks) => {
            assert_eq!(chunks[0].frame_id, 1);
            assert_eq!(reassemble(&chunks), vec![9]);
        }
        _ => panic!("expected a frame"),
    }
}

#[test]
fn end_of_empty_frame_sends_nothing_and_keeps_the_id() {
    let mut s = FrameSender::new();
    assert!(matches!(s.handle(CameraMessage::EndOfFrame), SenderAction::NothingToSend));
    s.handle(video(&[1]));
    match s.handle(CameraMessage::EndOfFrame) {
        SenderAction::Send(chunks) => assert_eq!(chunks[0].frame_id, 0),
        _ => panic!("expected a frame"),
    }
}

#[test]
fn chunk_that_does_not_fit_is_dropped() {
    let mut s = FrameSender::new();
    let full = [7u8; VIDEO_CHUNK_SIZE];
    let fits = FRAME_BUFFER_SIZE / VIDEO_CHUNK_SIZE;
    for _ in 0..fits {
        assert!(matches!(s.handle(video(&full)), SenderAction::Buffered(_)));
    }
    let rest = FRAME_BUFFER_SIZE - fits * VIDEO_CHUNK_SIZE;
    assert!(matches!(s.handle(video(&full)), SenderAction::FrameTooBig(_)));
    assert!(matches!(s.handle(video(&full[..rest])), SenderAction::Buffered(_)));
    match s.handle(CameraMessage::EndOfFrame) {
        SenderAction::Send(chunks) => {
            assert_eq!(reassemble(&chunks).len(), FRAME_BUFFER_SIZE);
        }
        _ => panic!("expected a frame"),
    }
}

#[test]
fn hardware_error_is_reported_and_keeps_the_frame() {
    let mut s = FrameSender::new();
    s.handle(video(&[3, 4]));
    assert!(matches!(s.handle(CameraMessage::HardwareError), SenderAction::HardwareError));
    match s.handle(CameraMessage::EndOfFrame) {
        SenderAction::Send(chunks) => assert_eq!(reassemble(&chunks), vec![3, 4]),
        _ => panic!("expected a frame"),
    }
}

#[test]
fn frame_id_wraps_after_65535() {
    let mut s = FrameSender::new();
    let mut last = 0u16;
    for _ in 0..65537u32 {
        s.handle(video(&[1]));
        match s.handle(CameraMessage::EndOfFrame) {
            SenderAction::Send(chunks) => last = chunks[0].frame_id,
            _ => panic!("expected a frame"),
        }
    }
    assert_eq!(last, 0);
}

#[test]
fn my_box_holds_its_value() {
    let b = MyBox::new(17u32);
    assert_eq!(*b.get(), 17);
    let mut buf = MyBox::new([9u8; VIDEO_CHUNK_SIZE]);
    buf.fill_prefix(&[1, 2]);
    assert_eq!(&buf.get()[..3], &[1, 2, 9]);
}

#[test]
fn oversized_chunk_that_does_not_fit_is_dropped_unread() {
    let mut s = FrameSender::new();
    let b = MyBox::new([1u8; VIDEO_CHUNK_SIZE]);
    assert!(matches!(
        s.handle(CameraMessage::VideoChunk(b, FRAME_BUFFER_SIZE + 1)),
        SenderAction::FrameTooBig(_)
    ));
    assert_eq!(s.pending_len(), 0);
    s.handle(video(&[5, 6]));
    assert_eq!(s.pending_len(), 2);
}

#[test]
fn frames_that_fit_number_their_chunks_exactly() {
    let frame = frame_of(FRAME_BUFFER_SIZE);
    let chunks = split_frame(&frame, 3);
    assert_eq!(chunks.len(), 24);
    for (i, c) in chunks.iter().enumerate() {
        assert_eq!(c.chunk_id as usize, i);
        assert_eq!(c.total_chunks as usize, chunks.len());
    }
}

#[test]
fn buffers_come_back_for_the_pool() {
    let mut s = FrameSender::new();
    match s.handle(video(&[4, 5, 6])) {
        SenderAction::Buffered(b) => assert_eq!(&b.get()[..4], &[4, 5, 6, 0]),
        _ => panic!("expected the buffer back"),
    }
    let b = MyBox::new([8u8; VIDEO_CHUNK_SIZE]);
    match s.handle(CameraMessage::VideoChunk(b, FRAME_BUFFER_SIZE)) {
        SenderAction::FrameTooBig(b) => assert!(b.get().iter().all(|x| *x == 8)),
        _ => panic!("expected the buffer back"),
    }
}

#[test]
fn kth_frame_carries_id_k() {
    let mut s = FrameSender::new();
    let mut ids = Vec::new();
    for k in 0..5u8 {
        s.handle(CameraMessage::EndOfFrame);
        s.handle(video(&[k]));
        s.handle(CameraMessage::HardwareError);
        match s.handle(CameraMessage::EndOfFrame) {
            SenderAction::Send(chunks) => ids.push(chunks[0].frame_id),
            _ => panic!("expected a frame"),
        }
    }
    assert_eq!(ids, vec![0, 1, 2, 3, 4]);
}
