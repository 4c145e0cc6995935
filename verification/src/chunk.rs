//! Wire format of one UDP datagram carrying a slice of a JPEG frame.
//!
//! Layout (all integers big-endian):
//! `frame_id: u16 | chunk_id: u8 | total_chunks: u8 | payload_len: u16 | payload: [u8; 1400]`.
use vstd::prelude::*;

verus! {

/// Number of payload bytes carried by one datagram.
pub const MAX_CHUNK_SIZE: usize = 1400;

/// Size of one encoded datagram: a six byte header followed by the payload.
pub const STRUCT_CHUNK_SIZE: usize = MAX_CHUNK_SIZE + 6;

/// One slice of a JPEG frame as it travels over UDP.
#[derive(Debug, Clone)]
pub struct JpegFrameChunk {
    pub frame_id: u16,
    pub chunk_id: u8,
    pub total_chunks: u8,
    pub payload_len: u16,
    pub payload: [u8; MAX_CHUNK_SIZE],
}

/// Big-endian encoding of a `u16`.
pub open spec fn be_u16_bytes(v: u16) -> Seq<u8> {
    seq![(v / 256) as u8, (v % 256) as u8]
}

impl JpegFrameChunk {
    /// The bytes that `to_bytes` produces for this chunk.
    pub open spec fn wire_bytes(&self) -> Seq<u8> {
        be_u16_bytes(self.frame_id) + seq![self.chunk_id, self.total_chunks] + be_u16_bytes(
            self.payload_len,
        ) + self.payload@
    }
}

/// `bytes` starts with a complete encoded chunk, and that chunk is `c`.
pub open spec fn parses_as(bytes: Seq<u8>, c: JpegFrameChunk) -> bool {
    &&& bytes.len() >= STRUCT_CHUNK_SIZE
    &&& c.wire_bytes() == bytes.take(STRUCT_CHUNK_SIZE as int)
}

impl JpegFrameChunk {
    /// Encodes the chunk into its fixed-size wire form.
    #[must_use]
    pub fn to_bytes(&self) -> (res: [u8; STRUCT_CHUNK_SIZE])
        ensures
            res@ == self.wire_bytes(),
    {
        let mut res = [0u8; STRUCT_CHUNK_SIZE];
        res[0] = (self.frame_id / 256) as u8;
        res[1] = (self.frame_id % 256) as u8;
        res[2] = self.chunk_id;
        res[3] = self.total_chunks;
        res[4] = (self.payload_len / 256) as u8;
        res[5] = (self.payload_len % 256) as u8;
        let ghost head = res@.take(6);
        assert(head == be_u16_bytes(self.frame_id) + seq![self.chunk_id, self.total_chunks]
            + be_u16_bytes(self.payload_len));
        let mut i: usize = 0;
        while i < MAX_CHUNK_SIZE
            invariant
                i <= MAX_CHUNK_SIZE,
                res@.len() == STRUCT_CHUNK_SIZE,
                res@.take(6) == head,
                forall|j: int| 0 <= j < i ==> res@[6 + j] == self.payload@[j],
            decreases MAX_CHUNK_SIZE - i,
        {
            res[6 + i] = self.payload[i];
            i = i + 1;
            assert(res@.take(6) =~= head);
        }
        assert(res@ =~= self.wire_bytes()) by {
            assert forall|j: int| 0 <= j < STRUCT_CHUNK_SIZE implies res@[j]
                == self.wire_bytes()[j] by {
                if j < 6 {
                    assert(res@.take(6)[j] == head[j]);
                } else {
                    assert(res@[6 + (j - 6)] == self.payload@[j - 6]);
                }
            }
        }
        res
    }

    /// Decodes a chunk from the start of `bytes`; `None` when fewer than
    /// `STRUCT_CHUNK_SIZE` bytes are given. Bytes after the chunk are ignored.
    #[must_use]
    pub fn from_bytes(bytes: &[u8]) -> (res: Option<Self>)
        ensures
            res is Some <==> bytes@.len() >= STRUCT_CHUNK_SIZE,
            res matches Some(c) ==> parses_as(bytes@, c),
    {
        if bytes.len() < STRUCT_CHUNK_SIZE {
            None
        } else {
            let mut payload = [0u8; MAX_CHUNK_SIZE];
            let mut i: usize = 0;
            while i < MAX_CHUNK_SIZE
                invariant
                    i <= MAX_CHUNK_SIZE,
                    bytes@.len() >= STRUCT_CHUNK_SIZE,
                    payload@.len() == MAX_CHUNK_SIZE,
                    forall|j: int| 0 <= j < i ==> payload@[j] == bytes@[6 + j],
                decreases MAX_CHUNK_SIZE - i,
            {
                payload[i] = bytes[6 + i];
                i = i + 1;
            }
            let c = JpegFrameChunk {
                frame_id: (bytes[0] as u16) * 256 + bytes[1] as u16,
                chunk_id: bytes[2],
                total_chunks: bytes[3],
                payload_len: (bytes[4] as u16) * 256 + bytes[5] as u16,
                payload,
            };
            assert(c.wire_bytes() =~= bytes@.take(STRUCT_CHUNK_SIZE as int)) by {
                assert forall|j: int| 0 <= j < MAX_CHUNK_SIZE implies c.payload@[j]
                    == bytes@[6 + j] by {}
            }
            Some(c)
        }
    }
}

/// Every encoded chunk is exactly `STRUCT_CHUNK_SIZE` bytes long.
pub proof fn lemma_wire_bytes_len(c: JpegFrameChunk)
    ensures
        c.wire_bytes().len() == STRUCT_CHUNK_SIZE,
{
}

/// The wire layout of a chunk: 1406 bytes; the frame id as a big-endian
/// 16-bit number in bytes 0 and 1, the chunk number in byte 2, the chunk
/// count in byte 3, the payload length big-endian in bytes 4 and 5, and the
/// payload in bytes 6 to 1405.
pub proof fn law_wire_layout(c: JpegFrameChunk)
    ensures
        c.wire_bytes().len() == 1406,
        c.wire_bytes()[0] * 256 + c.wire_bytes()[1] == c.frame_id,
        c.wire_bytes()[2] == c.chunk_id,
        c.wire_bytes()[3] == c.total_chunks,
        c.wire_bytes()[4] * 256 + c.wire_bytes()[5] == c.payload_len,
        c.wire_bytes().subrange(6, 1406) == c.payload@,
{
    assert(c.wire_bytes().subrange(6, 1406) =~= c.payload@);
}

/// The big-endian encoding of a `u16` determines it.
pub proof fn lemma_be_u16_injective(a: u16, b: u16)
    requires
        be_u16_bytes(a) == be_u16_bytes(b),
    ensures
        a == b,
{
    assert(be_u16_bytes(a)[0] == be_u16_bytes(b)[0]);
    assert(be_u16_bytes(a)[1] == be_u16_bytes(b)[1]);
}

/// Two chunks with the same encoding are the same chunk.
pub proof fn lemma_wire_bytes_injective(c: JpegFrameChunk, d: JpegFrameChunk)
    requires
        c.wire_bytes() == d.wire_bytes(),
    ensures
        c == d,
{
    let w = c.wire_bytes();
    assert(be_u16_bytes(c.frame_id) =~= w.subrange(0, 2));
    assert(be_u16_bytes(d.frame_id) =~= w.subrange(0, 2));
    lemma_be_u16_injective(c.frame_id, d.frame_id);
    assert(be_u16_bytes(c.payload_len) =~= w.subrange(4, 6));
    assert(be_u16_bytes(d.payload_len) =~= w.subrange(4, 6));
    lemma_be_u16_injective(c.payload_len, d.payload_len);
    assert(w[2] == c.chunk_id && w[2] == d.chunk_id);
    assert(w[3] == c.total_chunks && w[3] == d.total_chunks);
    assert(c.payload@ =~= w.subrange(6, STRUCT_CHUNK_SIZE as int));
    assert(d.payload@ =~= w.subrange(6, STRUCT_CHUNK_SIZE as int));
    assert(c.payload =~= d.payload) by {
        broadcast use vstd::array::axiom_array_ext_equal;

        assert forall|i: int| 0 <= i < MAX_CHUNK_SIZE implies c.payload[i] == d.payload[i] by {
            assert(c.payload@[i] == d.payload@[i]);
        }
    }
}

/// Decoding what `to_bytes` produced gives back the same chunk: the only
/// chunk that an encoded chunk parses as is the chunk itself.
pub proof fn law_decode_after_encode(c: JpegFrameChunk, d: JpegFrameChunk)
    requires
        parses_as(c.wire_bytes(), d),
    ensures
        d == c,
{
    assert(c.wire_bytes().take(STRUCT_CHUNK_SIZE as int) =~= c.wire_bytes());
    lemma_wire_bytes_injective(c, d);
}

/// Encoding a decoded chunk gives back the bytes it was decoded from.
pub proof fn law_encode_after_decode(bytes: Seq<u8>, c: JpegFrameChunk)
    requires
        parses_as(bytes, c),
    ensures
        c.wire_bytes() == bytes.take(STRUCT_CHUNK_SIZE as int),
        c.wire_bytes().len() == STRUCT_CHUNK_SIZE,
{
}

/// Decoding is a function of the input: the same bytes never decode to two
/// different chunks.
pub proof fn law_decode_deterministic(bytes: Seq<u8>, c: JpegFrameChunk, d: JpegFrameChunk)
    requires
        parses_as(bytes, c),
        parses_as(bytes, d),
    ensures
        c == d,
{
    lemma_wire_bytes_injective(c, d);
}

/// Bytes that follow an encoded chunk do not change what it decodes to.
pub proof fn law_decode_ignores_trailing(bytes: Seq<u8>, extra: Seq<u8>, c: JpegFrameChunk)
    requires
        parses_as(bytes, c),
    ensures
        parses_as(bytes + extra, c),
{
    assert((bytes + extra).take(STRUCT_CHUNK_SIZE as int) =~= bytes.take(
        STRUCT_CHUNK_SIZE as int,
    ));
}

} // verus!
