//! The TCP streaming firmware's hand-off from the camera task to the HTTP
//! task: the camera's bytes are cut into fixed-size video messages, and the
//! HTTP task turns each message into bytes written to the browser.
use crate::camera::{copy_prefix, video_chunk_bounds, video_chunk_count, video_chunk_end, VIDEO_CHUNK_SIZE};
use crate::text::ascii;
use vstd::prelude::*;

verus! {

/// A message from the camera task to the HTTP task.
pub enum CameraMessage {
    /// A chunk of video data: the buffer and the number of valid bytes.
    VideoChunk([u8; VIDEO_CHUNK_SIZE], usize),
    /// The JPEG frame is complete.
    EndOfFrame,
    /// The camera hardware failed and needs a reset.
    HardwareError,
}

impl CameraMessage {
    /// A video chunk never claims more valid bytes than its buffer holds.
    pub open spec fn wf(&self) -> bool {
        match self {
            CameraMessage::VideoChunk(_, len) => *len <= VIDEO_CHUNK_SIZE,
            _ => true,
        }
    }
}

/// A buffer of zeros, the camera task's scratch buffer before first use.
pub open spec fn zero_buffer() -> Seq<u8> {
    Seq::new(VIDEO_CHUNK_SIZE as nat, |_i: int| 0u8)
}

/// The buffer a message carries (zeros for the other messages).
pub open spec fn buffer_of(m: CameraMessage) -> Seq<u8> {
    match m {
        CameraMessage::VideoChunk(buf, _) => buf@,
        _ => zero_buffer(),
    }
}

/// `m` carries video chunk `i` of `data`, in a scratch buffer that held
/// `prev` before the chunk was copied over its start.
pub open spec fn is_video_message(m: CameraMessage, data: Seq<u8>, i: int, prev: Seq<u8>) -> bool {
    let start = i * VIDEO_CHUNK_SIZE;
    let end = video_chunk_end(data.len(), i);
    &&& m matches CameraMessage::VideoChunk(buf, len) && len == end - start && buf@ == data.subrange(
        start,
        end,
    ) + prev.skip(end - start)
}

/// Cuts the camera's bytes into video messages. One scratch buffer is
/// reused for all of them, so bytes past the valid length of a short last
/// chunk are those of the chunk before it (zeros for a lone chunk).
pub fn video_messages(data: &[u8]) -> (msgs: Vec<CameraMessage>)
    ensures
        msgs@.len() == video_chunk_count(data@.len()),
        forall|i: int|
            0 <= i < msgs@.len() ==> is_video_message(
                #[trigger] msgs@[i],
                data@,
                i,
                if i == 0 {
                    zero_buffer()
                } else {
                    buffer_of(msgs@[i - 1])
                },
            ),
        forall|i: int| 0 <= i < msgs@.len() ==> (#[trigger] msgs@[i]).wf(),
{
    let bounds = video_chunk_bounds(data.len());
    let mut fixed = [0u8; VIDEO_CHUNK_SIZE];
    assert(fixed@ =~= zero_buffer());
    let mut msgs: Vec<CameraMessage> = Vec::new();
    let mut i: usize = 0;
    while i < bounds.len()
        invariant
            bounds@.len() == video_chunk_count(data@.len()),
            forall|k: int|
                0 <= k < bounds@.len() ==> (#[trigger] bounds@[k]).0 == k * VIDEO_CHUNK_SIZE
                    && bounds@[k].1 == video_chunk_end(data@.len(), k),
            i <= bounds@.len(),
            msgs@.len() == i,
            fixed@ == (if i == 0 {
                zero_buffer()
            } else {
                buffer_of(msgs@[i - 1])
            }),
            forall|k: int|
                0 <= k < i ==> is_video_message(
                    #[trigger] msgs@[k],
                    data@,
                    k,
                    if k == 0 {
                        zero_buffer()
                    } else {
                        buffer_of(msgs@[k - 1])
                    },
                ),
            forall|k: int| 0 <= k < i ==> (#[trigger] msgs@[k]).wf(),
        decreases bounds@.len() - i,
    {
        let (start, end) = bounds[i];
        assert(bounds@[i as int].0 == i * VIDEO_CHUNK_SIZE);
        let ghost prev = fixed@;
        copy_prefix(&mut fixed, &data[start..end]);
        let m = CameraMessage::VideoChunk(fixed, end - start);
        msgs.push(m);
        assert(msgs@[i as int] == m);
        assert(buffer_of(msgs@[i as int]) == fixed@);
        i = i + 1;
    }
    msgs
}

/// The video bytes a sequence of messages carries: the valid part of each
/// video chunk, in order.
pub open spec fn video_payload(msgs: Seq<CameraMessage>) -> Seq<u8>
    decreases msgs.len(),
{
    if msgs.len() == 0 {
        seq![]
    } else {
        video_payload(msgs.drop_last()) + match msgs.last() {
            CameraMessage::VideoChunk(buf, len) => buf@.take(len as int),
            _ => Seq::empty(),
        }
    }
}

/// `m` is a video message whose valid bytes are chunk `i` of `data`.
pub open spec fn carries_chunk(m: CameraMessage, data: Seq<u8>, i: int) -> bool {
    let start = i * VIDEO_CHUNK_SIZE;
    let end = video_chunk_end(data.len(), i);
    &&& m matches CameraMessage::VideoChunk(buf, len) && len == end - start && buf@.take(
        len as int,
    ) == data.subrange(start, end)
}

proof fn lemma_video_payload_prefix(msgs: Seq<CameraMessage>, data: Seq<u8>, k: int)
    requires
        0 <= k <= msgs.len(),
        msgs.len() == video_chunk_count(data.len()),
        forall|i: int| 0 <= i < msgs.len() ==> carries_chunk(#[trigger] msgs[i], data, i),
    ensures
        video_payload(msgs.take(k)) == data.take(
            if k == 0 {
                0
            } else {
                video_chunk_end(data.len(), k - 1)
            },
        ),
    decreases k,
{
    if k > 0 {
        lemma_video_payload_prefix(msgs, data, k - 1);
        assert(msgs.take(k).drop_last() =~= msgs.take(k - 1));
        assert(carries_chunk(msgs[k - 1], data, k - 1));
        let start = (k - 1) * VIDEO_CHUNK_SIZE;
        let end = video_chunk_end(data.len(), k - 1);
        assert(start == (if k - 1 == 0 {
            0
        } else {
            video_chunk_end(data.len(), k - 2)
        }));
        assert(data.take(start) + data.subrange(start, end) =~= data.take(end));
    }
}

/// Writing the valid part of every video message, in order, sends exactly
/// the camera's bytes: the stale bytes of the reused scratch buffer are
/// never part of it.
pub proof fn law_video_messages_carry_the_data(msgs: Seq<CameraMessage>, data: Seq<u8>)
    requires
        msgs.len() == video_chunk_count(data.len()),
        forall|i: int|
            0 <= i < msgs.len() ==> is_video_message(
                #[trigger] msgs[i],
                data,
                i,
                if i == 0 {
                    zero_buffer()
                } else {
                    buffer_of(msgs[i - 1])
                },
            ),
    ensures
        video_payload(msgs) == data,
{
    let k = msgs.len() as int;
    assert forall|i: int| 0 <= i < msgs.len() implies carries_chunk(#[trigger] msgs[i], data, i) by {
        let prev = if i == 0 {
            zero_buffer()
        } else {
            buffer_of(msgs[i - 1])
        };
        assert(is_video_message(msgs[i], data, i, prev));
        if let CameraMessage::VideoChunk(buf, len) = msgs[i] {
            let start = i * VIDEO_CHUNK_SIZE;
            let end = video_chunk_end(data.len(), i);
            assert(buf@.take(len as int) =~= data.subrange(start, end));
        }
    }
    lemma_video_payload_prefix(msgs, data, k);
    assert(msgs.take(k) =~= msgs);
    if k == 0 {
        assert(data.len() == 0);
    } else {
        assert(video_chunk_end(data.len(), k - 1) == data.len());
    }
    assert(data.take(data.len() as int) =~= data);
}

pub open spec fn spec_frame_boundary() -> Seq<u8> {
    ascii("\r\n--frame\r\nContent-Type: image/jpeg\r\n\r\n"@)
}

pub open spec fn spec_stream_trailer() -> Seq<u8> {
    ascii("\r\n"@)
}

/// Boundary written between two JPEG frames of the stream.
pub fn frame_boundary() -> (r: &'static [u8])
    ensures
        r@ == spec_frame_boundary(),
{
    let s: &'static str = "\r\n--frame\r\nContent-Type: image/jpeg\r\n\r\n";
    proof {
        reveal_strlit("\r\n--frame\r\nContent-Type: image/jpeg\r\n\r\n");
        vstd::string::is_ascii_spec_bytes(s);
    }
    s.as_bytes()
}

/// Bytes written when the stream stops, before the connection is closed.
pub fn stream_trailer() -> (r: &'static [u8])
    ensures
        r@ == spec_stream_trailer(),
{
    let s: &'static str = "\r\n";
    proof {
        reveal_strlit("\r\n");
        vstd::string::is_ascii_spec_bytes(s);
    }
    s.as_bytes()
}

/// What the HTTP task does with one camera message while streaming.
pub enum StreamStep {
    /// Write these bytes (no flush: one acknowledgement per buffer would
    /// slow the stream down).
    Write(Vec<u8>),
    /// Write these bytes, then flush.
    WriteAndFlush(Vec<u8>),
    /// Stop streaming and close the connection.
    Stop,
}

/// Decides what the HTTP task writes for `msg`: the valid bytes of a video
/// chunk, the frame boundary at the end of a frame, or nothing and stop on
/// a hardware error.
pub fn stream_step(msg: &CameraMessage) -> (step: StreamStep)
    requires
        msg.wf(),
    ensures
        match *msg {
            CameraMessage::VideoChunk(buf, len) => step matches StreamStep::Write(bytes) && bytes@
                == buf@.take(len as int),
            CameraMessage::EndOfFrame => step matches StreamStep::WriteAndFlush(bytes) && bytes@
                == spec_frame_boundary(),
            CameraMessage::HardwareError => step is Stop,
        },
{
    match msg {
        CameraMessage::VideoChunk(buf, len) => {
            let mut bytes: Vec<u8> = Vec::new();
            let mut j: usize = 0;
            while j < *len
                invariant
                    *len <= VIDEO_CHUNK_SIZE,
                    j <= *len,
                    bytes@ == buf@.take(j as int),
                decreases *len - j,
            {
                bytes.push(buf[j]);
                j = j + 1;
                assert(bytes@ =~= buf@.take(j as int));
            }
            StreamStep::Write(bytes)
        },
        CameraMessage::EndOfFrame => {
            let b = frame_boundary();
            let mut bytes: Vec<u8> = Vec::new();
            let mut j: usize = 0;
            while j < b.len()
                invariant
                    j <= b@.len(),
                    bytes@ == b@.take(j as int),
                decreases b@.len() - j,
            {
                bytes.push(b[j]);
                j = j + 1;
                assert(bytes@ =~= b@.take(j as int));
            }
            assert(b@.take(b@.len() as int) =~= b@);
            StreamStep::WriteAndFlush(bytes)
        },
        CameraMessage::HardwareError => StreamStep::Stop,
    }
}

} // verus!
