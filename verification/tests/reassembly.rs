use camera_stream::chunk::{JpegFrameChunk, MAX_CHUNK_SIZE};
use camera_stream::frame::split_frame;
use camera_stream::reassembly::{FrameAssembler, FrameCollector};

fn frame_of(n: usize) -> Vec<u8> {
    (0..n).map(|i| (i % 251) as u8).collect()
}

#[test]
fn assembler_fills_slots_in_any_order() {
    let frame = frame_of(4000);
    let chunks = split_frame(&frame, 7);
    let mut a = FrameAssembler::new(7, chunks.len() as u8);
    assert_eq!(a.frame_id(), 7);
    assert!(a.assembled().is_none());
    assert!(a.accept(&chunks[2]));
    assert!(a.accept(&chunks[0]));
    assert!(!a.accept(&chunks[0]));
    assert!(a.assembled().is_none());
    assert!(a.accept(&chunks[1]));
    assert_eq!(a.assembled(), Some(frame));
}

#[test]
fn assembler_ignores_foreign_or_malformed_chunks() {
    let frame = frame_of(100);
    let chunks = split_frame(&frame, 1);
    let mut a = FrameAssembler::new(2, 1);
    assert!(!a.accept(&chunks[0]));
    let mut a = FrameAssembler::new(1, 2);
    assert!(!a.accept(&chunks[0]));
    let mut a = FrameAssembler::new(1, 1);
    let mut bad = chunks[0].clone();
    bad.payload_len = (MAX_CHUNK_SIZE + 1) as u16;
    assert!(!a.accept(&bad));
    let mut bad = chunks[0].clone();
    bad.chunk_id = 1;
    assert!(!a.accept(&bad));
    assert!(a.accept(&chunks[0]));
}

#[test]
fn collector_delivers_each_frame_once() {
    let f1 = frame_of(3000);
    let f2 = frame_of(10);
    let c1 = split_frame(&f1, 1);
    let c2 = split_frame(&f2, 2);
    let mut col = FrameCollector::new();
    assert_eq!(col.receive(&c1[1].to_bytes()), None);
    assert_eq!(col.receive(&c1[1].to_bytes()), None);
    assert_eq!(col.receive(&c1[2].to_bytes()), None);
    assert_eq!(col.receive(&[1, 2, 3]), None);
    assert_eq!(col.receive(&c1[0].to_bytes()), Some(f1));
    assert_eq!(col.receive(&c2[0].to_bytes()), Some(f2));
}

#[test]
fn collector_drops_an_incomplete_frame_when_another_starts() {
    let f1 = frame_of(3000);
    let f2 = frame_of(2000);
    let c1 = split_frame(&f1, 1);
    let c2 = split_frame(&f2, 2);
    let mut col = FrameCollector::new();
    assert_eq!(col.receive(&c1[0].to_bytes()), None);
    assert_eq!(col.receive(&c2[0].to_bytes()), None);
    assert_eq!(col.receive(&c1[1].to_bytes()), None);
    assert_eq!(col.receive(&c1[2].to_bytes()), None);
    // Frame 1 started afresh with its second chunk; the first chunk,
    // received before frame 2 interrupted, was dropped and is needed again.
    assert_eq!(col.receive(&c1[0].to_bytes()), Some(f1));
    // Frame 2's first chunk was dropped when frame 1 restarted.
    assert_eq!(col.receive(&c2[1].to_bytes()), None);
    assert_eq!(col.receive(&c2[0].to_bytes()), Some(f2));
}

#[test]
fn collector_takes_datagrams_with_trailing_bytes() {
    let f = frame_of(5);
    let c: Vec<JpegFrameChunk> = split_frame(&f, 9);
    let mut d = c[0].to_bytes().to_vec();
    d.extend_from_slice(&[0xEE; 4]);
    let mut col = FrameCollector::new();
    assert_eq!(col.receive(&d), Some(f));
}
