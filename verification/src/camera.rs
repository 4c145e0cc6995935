//! What the camera pump does with each look at the camera's DMA stream,
//! and how the bytes it sees are cut into video chunks.
use vstd::prelude::*;

verus! {

/// Size of one video chunk handed from the camera task to the network task.
pub const VIDEO_CHUNK_SIZE: usize = 1024;

/// What the camera task does after peeking at the DMA stream.
#[derive(Debug, PartialEq, Eq, Structural)]
pub enum PumpStep {
    /// Nothing arrived and the transfer is still running: yield and look again.
    Wait,
    /// Nothing arrived and the transfer has finished (the DMA buffer is
    /// full): restart the transfer, report the end of a frame, then yield.
    Restart,
    /// `consume` bytes arrived: forward them as video chunks, consume them
    /// from the stream, and report the end of a frame when the data ends
    /// with one.
    Forward { consume: usize, end_of_frame: bool },
}

/// Decides the camera task's next move from what `peek_until_eof` showed:
/// the number of bytes available, whether they end with an end-of-frame
/// marker, and whether the transfer is done.
pub fn pump_step(available: usize, ends_with_eof: bool, is_done: bool) -> (step: PumpStep)
    ensures
        available == 0 && is_done ==> step == PumpStep::Restart,
        available == 0 && !is_done ==> step == PumpStep::Wait,
        available > 0 ==> step == (PumpStep::Forward { consume: available, end_of_frame: ends_with_eof }),
{
    if available > 0 {
        PumpStep::Forward { consume: available, end_of_frame: ends_with_eof }
    } else if is_done {
        PumpStep::Restart
    } else {
        PumpStep::Wait
    }
}

/// Number of video chunks `n` bytes are cut into (rounded up).
pub open spec fn video_chunk_count(n: nat) -> nat {
    if n % (VIDEO_CHUNK_SIZE as nat) == 0 {
        n / (VIDEO_CHUNK_SIZE as nat)
    } else {
        n / (VIDEO_CHUNK_SIZE as nat) + 1
    }
}

/// End offset of video chunk `i` within `n` bytes.
pub open spec fn video_chunk_end(n: nat, i: int) -> int {
    if (i + 1) * VIDEO_CHUNK_SIZE <= n {
        (i + 1) * VIDEO_CHUNK_SIZE
    } else {
        n as int
    }
}

/// The ranges `[start, end)` of consecutive video chunks covering `len`
/// bytes: every chunk is `VIDEO_CHUNK_SIZE` bytes long but the last one,
/// which holds the rest.
pub fn video_chunk_bounds(len: usize) -> (bounds: Vec<(usize, usize)>)
    ensures
        bounds@.len() == video_chunk_count(len as nat),
        forall|i: int|
            0 <= i < bounds@.len() ==> (#[trigger] bounds@[i]).0 == i * VIDEO_CHUNK_SIZE
                && bounds@[i].1 == video_chunk_end(len as nat, i),
{
    let total: usize = if len % VIDEO_CHUNK_SIZE == 0 {
        len / VIDEO_CHUNK_SIZE
    } else {
        len / VIDEO_CHUNK_SIZE + 1
    };
    let mut bounds: Vec<(usize, usize)> = Vec::new();
    let mut i: usize = 0;
    while i < total
        invariant
            total == video_chunk_count(len as nat),
            i <= total,
            bounds@.len() == i,
            forall|k: int|
                0 <= k < i ==> (#[trigger] bounds@[k]).0 == k * VIDEO_CHUNK_SIZE
                    && bounds@[k].1 == video_chunk_end(len as nat, k),
        decreases total - i,
    {
        let start: usize = i * VIDEO_CHUNK_SIZE;
        let end: usize = if len - start > VIDEO_CHUNK_SIZE {
            start + VIDEO_CHUNK_SIZE
        } else {
            len
        };
        assert(end == video_chunk_end(len as nat, i as int));
        bounds.push((start, end));
        assert(bounds@[i as int] == (start, end));
        i = i + 1;
    }
    bounds
}

/// The video chunk ranges tile the data: they start at 0, each one starts
/// where the one before ended, the last one ends at `len`, and none is
/// empty or longer than `VIDEO_CHUNK_SIZE`.
pub proof fn law_video_chunks_tile(len: nat, bounds: Seq<(usize, usize)>)
    requires
        bounds.len() == video_chunk_count(len),
        forall|i: int|
            0 <= i < bounds.len() ==> (#[trigger] bounds[i]).0 == i * VIDEO_CHUNK_SIZE
                && bounds[i].1 == video_chunk_end(len, i),
    ensures
        len == 0 <==> bounds.len() == 0,
        bounds.len() > 0 ==> bounds[0].0 == 0 && bounds[bounds.len() - 1].1 == len,
        forall|i: int| 0 <= i < bounds.len() - 1 ==> (#[trigger] bounds[i]).1 == bounds[i + 1].0,
        forall|i: int|
            0 <= i < bounds.len() ==> (#[trigger] bounds[i]).0 < bounds[i].1 && bounds[i].1
                - bounds[i].0 <= VIDEO_CHUNK_SIZE,
{
    if bounds.len() > 0 {
        assert(bounds[0].0 == 0);
        assert(bounds[bounds.len() - 1].1 == len);
    }
    assert forall|i: int| 0 <= i < bounds.len() - 1 implies (#[trigger] bounds[i]).1 == bounds[i
        + 1].0 by {
        assert(bounds[i + 1].0 == (i + 1) * VIDEO_CHUNK_SIZE);
    }
}

/// Copies `src` over the first `src.len()` bytes of `dst`, leaving the rest
/// of `dst` as it was.
pub fn copy_prefix(dst: &mut [u8; VIDEO_CHUNK_SIZE], src: &[u8])
    requires
        src@.len() <= VIDEO_CHUNK_SIZE,
    ensures
        final(dst)@ == src@ + old(dst)@.skip(src@.len() as int),
{
    let mut j: usize = 0;
    while j < src.len()
        invariant
            src@.len() <= VIDEO_CHUNK_SIZE,
            j <= src@.len(),
            dst@.len() == VIDEO_CHUNK_SIZE,
            forall|k: int| 0 <= k < j ==> dst@[k] == src@[k],
            forall|k: int| j <= k < VIDEO_CHUNK_SIZE ==> dst@[k] == old(dst)@[k],
        decreases src@.len() - j,
    {
        dst[j] = src[j];
        j = j + 1;
    }
    assert(dst@ =~= src@ + old(dst)@.skip(src@.len() as int));
}

} // verus!
