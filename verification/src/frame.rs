//! Cutting a complete JPEG frame into datagram-sized chunks, and putting
//! the chunks back together.
use crate::chunk::{JpegFrameChunk, MAX_CHUNK_SIZE};
use crate::udp_stream::FRAME_BUFFER_SIZE;
use vstd::prelude::*;

verus! {

/// Number of chunks a frame of `n` bytes is cut into (`n` divided by the
/// chunk size, rounded up).
pub open spec fn chunk_count(n: nat) -> nat {
    if n % (MAX_CHUNK_SIZE as nat) == 0 {
        n / (MAX_CHUNK_SIZE as nat)
    } else {
        n / (MAX_CHUNK_SIZE as nat) + 1
    }
}

/// Offset in the frame of the first byte of chunk `i`.
pub open spec fn chunk_start(i: int) -> int {
    i * MAX_CHUNK_SIZE
}

/// Offset in a frame of `n` bytes just past the last byte of chunk `i`.
pub open spec fn chunk_end(n: nat, i: int) -> int {
    if (i + 1) * MAX_CHUNK_SIZE <= n {
        (i + 1) * MAX_CHUNK_SIZE
    } else {
        n as int
    }
}

/// Payload of chunk `i`: its slice of the frame, padded with zeros to the
/// full payload size.
pub open spec fn padded_payload(frame: Seq<u8>, i: int) -> Seq<u8> {
    let start = chunk_start(i);
    let end = chunk_end(frame.len(), i);
    frame.subrange(start, end) + Seq::new((MAX_CHUNK_SIZE - (end - start)) as nat, |_j: int| 0u8)
}

/// `c` is chunk number `i` of `frame`, sent as frame `frame_id`.
pub open spec fn is_frame_chunk(c: JpegFrameChunk, frame: Seq<u8>, frame_id: u16, i: int) -> bool {
    &&& c.frame_id == frame_id
    &&& c.chunk_id == i as u8
    &&& c.total_chunks == chunk_count(frame.len()) as u8
    &&& c.payload_len == (chunk_end(frame.len(), i) - chunk_start(i)) as u16
    &&& c.payload@ == padded_payload(frame, i)
}

/// `chunks` is the whole frame cut in order, one chunk per slice.
pub open spec fn is_split_of(chunks: Seq<JpegFrameChunk>, frame: Seq<u8>, frame_id: u16) -> bool {
    &&& chunks.len() == chunk_count(frame.len())
    &&& forall|i: int| 0 <= i < chunks.len() ==> is_frame_chunk(chunks[i], frame, frame_id, i)
}

/// The bytes a receiver gets by concatenating the valid part of each
/// payload, in order.
pub open spec fn reassemble(chunks: Seq<JpegFrameChunk>) -> Seq<u8>
    decreases chunks.len(),
{
    if chunks.len() == 0 {
        seq![]
    } else {
        reassemble(chunks.drop_last()) + chunks.last().payload@.take(
            chunks.last().payload_len as int,
        )
    }
}

/// Cuts `frame` into chunks of at most `MAX_CHUNK_SIZE` bytes, all tagged
/// with `frame_id`, numbered from 0 and carrying the total count. The
/// chunk number and the count are stored as `u8` and wrap above 255.
pub fn split_frame(frame: &[u8], frame_id: u16) -> (chunks: Vec<JpegFrameChunk>)
    ensures
        is_split_of(chunks@, frame@, frame_id),
{
    let n = frame.len();
    let total: usize = if n % MAX_CHUNK_SIZE == 0 {
        n / MAX_CHUNK_SIZE
    } else {
        n / MAX_CHUNK_SIZE + 1
    };
    let mut chunks: Vec<JpegFrameChunk> = Vec::new();
    let mut i: usize = 0;
    while i < total
        invariant
            n == frame@.len(),
            total == chunk_count(n as nat),
            i <= total,
            chunks@.len() == i,
            forall|k: int| 0 <= k < i ==> is_frame_chunk(chunks@[k], frame@, frame_id, k),
        decreases total - i,
    {
        let start: usize = i * MAX_CHUNK_SIZE;
        assert(start < n);
        let end: usize = if n - start > MAX_CHUNK_SIZE {
            start + MAX_CHUNK_SIZE
        } else {
            n
        };
        assert(end == chunk_end(n as nat, i as int));
        let len = end - start;
        let mut payload = [0u8; MAX_CHUNK_SIZE];
        let mut j: usize = 0;
        while j < len
            invariant
                n == frame@.len(),
                start + len == end,
                end <= n,
                len <= MAX_CHUNK_SIZE,
                j <= len,
                payload@.len() == MAX_CHUNK_SIZE,
                forall|k: int| 0 <= k < j ==> payload@[k] == frame@[start + k],
                forall|k: int| j <= k < MAX_CHUNK_SIZE ==> payload@[k] == 0,
            decreases len - j,
        {
            payload[j] = frame[start + j];
            j = j + 1;
        }
        let c = JpegFrameChunk {
            frame_id,
            chunk_id: #[verifier::truncate] (i as u8),
            total_chunks: #[verifier::truncate] (total as u8),
            payload_len: len as u16,
            payload,
        };
        assert(c.payload@ =~= padded_payload(frame@, i as int));
        chunks.push(c);
        i = i + 1;
    }
    chunks
}

/// The valid part of every chunk's payload, concatenated, is the frame up
/// to the end of the last chunk taken.
proof fn lemma_reassemble_prefix(chunks: Seq<JpegFrameChunk>, frame: Seq<u8>, frame_id: u16, k: int)
    requires
        is_split_of(chunks, frame, frame_id),
        0 <= k <= chunks.len(),
    ensures
        reassemble(chunks.take(k)) == frame.take(if k == 0 { 0 } else { chunk_end(frame.len(), k - 1) }),
    decreases k,
{
    if k > 0 {
        lemma_reassemble_prefix(chunks, frame, frame_id, k - 1);
        let prefix = chunks.take(k);
        assert(prefix.drop_last() =~= chunks.take(k - 1));
        let c = chunks[k - 1];
        assert(is_frame_chunk(c, frame, frame_id, k - 1));
        let start = chunk_start(k - 1);
        let end = chunk_end(frame.len(), k - 1);
        assert(start == (if k - 1 == 0 { 0 } else { chunk_end(frame.len(), k - 2) }));
        assert(c.payload@.take(c.payload_len as int) =~= frame.subrange(start, end));
        assert(frame.take(start) + frame.subrange(start, end) =~= frame.take(end));
    }
}

/// Putting the chunks of a split frame back together in order gives back
/// exactly the frame: nothing is lost, duplicated, reordered, and the
/// zero padding of the last chunk is not part of the result.
pub proof fn law_split_then_reassemble(chunks: Seq<JpegFrameChunk>, frame: Seq<u8>, frame_id: u16)
    requires
        is_split_of(chunks, frame, frame_id),
    ensures
        reassemble(chunks) == frame,
{
    let k = chunks.len() as int;
    lemma_reassemble_prefix(chunks, frame, frame_id, k);
    assert(chunks.take(k) =~= chunks);
    if k == 0 {
        assert(frame.len() == 0);
    } else {
        assert(chunk_end(frame.len(), k - 1) == frame.len());
    }
    assert(frame.take(frame.len() as int) =~= frame);
}

/// The shape of a split: a frame of `n` bytes gives the fewest chunks of at
/// most 1400 bytes that hold it; every chunk but the last is full, the last
/// holds at least one byte, and the payload bytes past the valid length are
/// zero.
pub proof fn law_split_shape(chunks: Seq<JpegFrameChunk>, frame: Seq<u8>, frame_id: u16)
    requires
        is_split_of(chunks, frame, frame_id),
    ensures
        (chunks.len() - 1) * 1400 < frame.len() <= chunks.len() * 1400 || (frame.len() == 0
            && chunks.len() == 0),
        forall|i: int| 0 <= i < chunks.len() - 1 ==> (#[trigger] chunks[i]).payload_len == 1400,
        chunks.len() > 0 ==> 1 <= chunks[chunks.len() - 1].payload_len <= 1400,
        forall|i: int, j: int|
            0 <= i < chunks.len() && chunks[i].payload_len <= j < 1400 ==> (#[trigger] chunks[i].payload@[j]) == 0,
{
    assert forall|i: int| 0 <= i < chunks.len() - 1 implies (#[trigger] chunks[i]).payload_len == 1400 by {
        assert(is_frame_chunk(chunks[i], frame, frame_id, i));
    }
    if chunks.len() > 0 {
        assert(is_frame_chunk(chunks[chunks.len() - 1], frame, frame_id, chunks.len() - 1));
    }
    assert forall|i: int, j: int|
        0 <= i < chunks.len() && chunks[i].payload_len <= j < 1400 implies (#[trigger] chunks[i].payload@[j]) == 0 by {
        assert(is_frame_chunk(chunks[i], frame, frame_id, i));
    }
}

/// Frames that fit in the firmware's frame buffer are cut into at most 24
/// chunks, so the `u8` chunk numbers and counts never wrap: chunk `i`
/// carries number `i`, and every chunk carries the true count, which is
/// larger than every chunk number.
pub proof fn law_buffered_frames_number_chunks_exactly(
    chunks: Seq<JpegFrameChunk>,
    frame: Seq<u8>,
    frame_id: u16,
)
    requires
        is_split_of(chunks, frame, frame_id),
        frame.len() <= FRAME_BUFFER_SIZE,
    ensures
        chunks.len() <= 24,
        forall|i: int|
            0 <= i < chunks.len() ==> (#[trigger] chunks[i]).chunk_id == i && chunks[i].total_chunks
                == chunks.len() && chunks[i].chunk_id < chunks[i].total_chunks,
{
    assert forall|i: int| 0 <= i < chunks.len() implies (#[trigger] chunks[i]).chunk_id == i
        && chunks[i].total_chunks == chunks.len() && chunks[i].chunk_id
        < chunks[i].total_chunks by {
        assert(is_frame_chunk(chunks[i], frame, frame_id, i));
    }
}

} // verus!
