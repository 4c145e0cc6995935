use camera_stream::chunk::{JpegFrameChunk, MAX_CHUNK_SIZE, STRUCT_CHUNK_SIZE};

#[test]
fn test_jpeg_fram_chunk() {
    let frame1 = JpegFrameChunk {
        frame_id: 255,
        chunk_id: 254,
        total_chunks: 254,
        payload_len: MAX_CHUNK_SIZE as u16,
        payload: [1u8; MAX_CHUNK_SIZE],
    };

    let frame_bytes = frame1.to_bytes();

    let frame_from_bytes = JpegFrameChunk::from_bytes(&frame_bytes).unwrap();

    assert_eq!(frame1.frame_id, frame_from_bytes.frame_id);
    assert_eq!(frame1.chunk_id, frame_from_bytes.chunk_id);
    assert_eq!(frame1.total_chunks, frame_from_bytes.total_chunks);
    assert_eq!(frame1.payload_len, frame_from_bytes.payload_len);
    assert_eq!(frame1.payload, frame_from_bytes.payload);
}

fn sample() -> JpegFrameChunk {
    let mut payload = [0u8; MAX_CHUNK_SIZE];
    for (i, b) in payload.iter_mut().enumerate() {
        *b = (i % 251) as u8;
    }
    JpegFrameChunk { frame_id: 0x1234, chunk_id: 7, total_chunks: 9, payload_len: 0x0578, payload }
}

#[test]
fn wire_layout_is_big_endian_header_then_payload() {
    let c = sample();
    let bytes = c.to_bytes();
    assert_eq!(bytes.len(), STRUCT_CHUNK_SIZE);
    assert_eq!(STRUCT_CHUNK_SIZE, 1406);
    assert_eq!(&bytes[0..6], &[0x12, 0x34, 7, 9, 0x05, 0x78]);
    assert_eq!(&bytes[6..], &c.payload[..]);
}

#[test]
fn decode_after_encode_gives_back_every_field() {
    let c = sample();
    let d = JpegFrameChunk::from_bytes(&c.to_bytes()).unwrap();
    assert_eq!(d.frame_id, 0x1234);
    assert_eq!(d.chunk_id, 7);
    assert_eq!(d.total_chunks, 9);
    assert_eq!(d.payload_len, 0x0578);
    assert_eq!(d.payload, c.payload);
}

#[test]
fn encode_after_decode_gives_back_the_bytes() {
    let mut bytes = [0u8; STRUCT_CHUNK_SIZE];
    for (i, b) in bytes.iter_mut().enumerate() {
        *b = (i * 7 % 256) as u8;
    }
    let c = JpegFrameChunk::from_bytes(&bytes).unwrap();
    assert_eq!(c.to_bytes(), bytes);
}

#[test]
fn short_input_does_not_decode() {
    assert!(JpegFrameChunk::from_bytes(&[]).is_none());
    let bytes = [0u8; STRUCT_CHUNK_SIZE - 1];
    assert!(JpegFrameChunk::from_bytes(&bytes).is_none());
}

#[test]
fn trailing_bytes_are_ignored() {
    let c = sample();
    let mut long = c.to_bytes().to_vec();
    long.extend_from_slice(&[0xAA; 10]);
    let d = JpegFrameChunk::from_bytes(&long).unwrap();
    assert_eq!(d.to_bytes(), c.to_bytes());
}

#[test]
fn extreme_header_values_round_trip() {
    let c = JpegFrameChunk {
        frame_id: u16::MAX,
        chunk_id: 0,
        total_chunks: u8::MAX,
        payload_len: 0,
        payload: [0u8; MAX_CHUNK_SIZE],
    };
    let bytes = c.to_bytes();
    assert_eq!(&bytes[0..6], &[0xFF, 0xFF, 0, 0xFF, 0, 0]);
    let d = JpegFrameChunk::from_bytes(&bytes).unwrap();
    assert_eq!(d.frame_id, u16::MAX);
    assert_eq!(d.total_chunks, u8::MAX);
}
