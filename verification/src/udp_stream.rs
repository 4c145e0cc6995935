//! The UDP streaming firmware's hand-off from the camera task to the
//! network task, and the network task's frame sender: video chunks are
//! collected into a frame buffer, and at the end of each frame the frame is
//! cut into `JpegFrameChunk` datagrams.
use crate::camera::{copy_prefix, VIDEO_CHUNK_SIZE};
use crate::chunk::JpegFrameChunk;
use crate::frame::{is_split_of, split_frame};
use vstd::prelude::*;

verus! {

/// Capacity of the frame buffer of the network task, in bytes.
pub const FRAME_BUFFER_SIZE: usize = 32786;

/// An owned, heap-allocated value; the camera task's pooled video buffers.
pub struct MyBox<T>(Box<T>);

impl<T> View for MyBox<T> {
    type V = T;

    closed spec fn view(&self) -> T {
        *self.0
    }
}

impl<T> MyBox<T> {
    /// Moves `val` to the heap.
    pub fn new(val: T) -> (b: Self)
        ensures
            b@ == val,
    {
        MyBox(Box::new(val))
    }

    /// The boxed value.
    pub fn get(&self) -> (r: &T)
        ensures
            *r == self@,
    {
        &*self.0
    }
}

impl MyBox<[u8; VIDEO_CHUNK_SIZE]> {
    /// Copies `chunk` into the start of the buffer; the rest of the buffer
    /// keeps its old bytes.
    pub fn fill_prefix(&mut self, chunk: &[u8])
        requires
            chunk@.len() <= VIDEO_CHUNK_SIZE,
        ensures
            final(self)@@ == chunk@ + old(self)@@.skip(chunk@.len() as int),
    {
        copy_prefix(&mut *self.0, chunk);
    }
}

/// A message from the camera task to the network task.
pub enum CameraMessage {
    /// A chunk of video data: the buffer and the number of valid bytes.
    VideoChunk(MyBox<[u8; VIDEO_CHUNK_SIZE]>, usize),
    /// The JPEG frame is complete.
    EndOfFrame,
    /// The camera hardware failed and needs a reset.
    HardwareError,
}

/// What the network task does after handing a message to the sender.
pub enum SenderAction {
    /// The video bytes were added to the current frame; the buffer that
    /// carried them goes back to the camera task's pool.
    Buffered(MyBox<[u8; VIDEO_CHUNK_SIZE]>),
    /// The video bytes did not fit in the frame buffer and were dropped;
    /// the buffer goes back to the camera task's pool.
    FrameTooBig(MyBox<[u8; VIDEO_CHUNK_SIZE]>),
    /// A frame ended with no bytes buffered: nothing is sent.
    NothingToSend,
    /// A frame ended: send these datagrams in order.
    Send(Vec<JpegFrameChunk>),
    /// The camera reported a hardware error.
    HardwareError,
}

/// The frame id that follows `id` (wrapping from 65535 to 0).
pub open spec fn next_frame_id(id: u16) -> u16 {
    if id == 0xffff {
        0
    } else {
        (id + 1) as u16
    }
}

/// The sender's state after `msg`, from collected bytes `pending` and next
/// frame id `id`: a video chunk that fits is appended, an end of frame with
/// bytes collected empties the buffer and moves to the next id, and
/// anything else changes nothing.
pub open spec fn sender_step(pending: Seq<u8>, id: u16, msg: CameraMessage) -> (Seq<u8>, u16) {
    match msg {
        CameraMessage::VideoChunk(buf, len) => {
            if pending.len() + len <= FRAME_BUFFER_SIZE {
                (pending + buf@@.take(len as int), id)
            } else {
                (pending, id)
            }
        },
        CameraMessage::EndOfFrame => {
            if pending.len() == 0 {
                (pending, id)
            } else {
                (Seq::empty(), next_frame_id(id))
            }
        },
        CameraMessage::HardwareError => (pending, id),
    }
}

/// `msg` ends a frame that has bytes, so the frame is sent.
pub open spec fn sends_frame(pending: Seq<u8>, msg: CameraMessage) -> bool {
    msg is EndOfFrame && pending.len() > 0
}

/// The sender's state after handling `msgs` in order.
pub open spec fn sender_run(pending: Seq<u8>, id: u16, msgs: Seq<CameraMessage>) -> (Seq<u8>, u16)
    decreases msgs.len(),
{
    if msgs.len() == 0 {
        (pending, id)
    } else {
        let s = sender_run(pending, id, msgs.drop_last());
        sender_step(s.0, s.1, msgs.last())
    }
}

/// How many frames are sent while handling `msgs` in order.
pub open spec fn frames_sent(pending: Seq<u8>, id: u16, msgs: Seq<CameraMessage>) -> nat
    decreases msgs.len(),
{
    if msgs.len() == 0 {
        0
    } else {
        let s = sender_run(pending, id, msgs.drop_last());
        frames_sent(pending, id, msgs.drop_last()) + if sends_frame(s.0, msgs.last()) {
            1nat
        } else {
            0nat
        }
    }
}

/// Frame ids count the frames sent: after any sequence of messages, the
/// next frame id is the starting id plus the number of frames sent (those
/// ended with bytes collected, whatever became of their datagrams), modulo
/// 65536. Every datagram of a frame carries the id the sender holds when
/// the frame ends, so the k-th frame a fresh sender sends carries id
/// k mod 65536.
pub proof fn law_frame_ids_count_frames(pending: Seq<u8>, id: u16, msgs: Seq<CameraMessage>)
    ensures
        sender_run(pending, id, msgs).1 == ((id + frames_sent(pending, id, msgs)) % 65536) as u16,
    decreases msgs.len(),
{
    if msgs.len() > 0 {
        law_frame_ids_count_frames(pending, id, msgs.drop_last());
    }
}

/// A fresh sender's next frame id is the number of frames it has sent,
/// modulo 65536.
pub proof fn law_fresh_sender_frame_ids(msgs: Seq<CameraMessage>)
    ensures
        sender_run(Seq::empty(), 0, msgs).1 == (frames_sent(Seq::empty(), 0, msgs) % 65536) as u16,
{
    law_frame_ids_count_frames(Seq::empty(), 0, msgs);
}

/// The network task's state: the bytes of the frame being collected and
/// the id the next frame is sent with.
pub struct FrameSender {
    frame: Vec<u8>,
    frame_id: u16,
}

impl FrameSender {
    /// Bytes collected for the current frame.
    pub closed spec fn pending(&self) -> Seq<u8> {
        self.frame@
    }

    /// Id the next sent frame carries.
    pub closed spec fn frame_id(&self) -> u16 {
        self.frame_id
    }

    /// The collected bytes fit in the frame buffer.
    pub open spec fn wf(&self) -> bool {
        self.pending().len() <= FRAME_BUFFER_SIZE
    }

    /// A video chunk that fits in the frame buffer claims no more valid
    /// bytes than its buffer holds (one that does not fit is dropped
    /// unread).
    pub open spec fn admits(&self, msg: &CameraMessage) -> bool {
        match *msg {
            CameraMessage::VideoChunk(_, len) => self.pending().len() + len <= FRAME_BUFFER_SIZE
                ==> len <= VIDEO_CHUNK_SIZE,
            _ => true,
        }
    }

    /// Number of bytes collected for the current frame.
    pub fn pending_len(&self) -> (n: usize)
        ensures
            n == self.pending().len(),
    {
        self.frame.len()
    }

    /// An empty sender whose first frame has id 0.
    pub fn new() -> (s: Self)
        ensures
            s.wf(),
            s.pending() == Seq::<u8>::empty(),
            s.frame_id() == 0,
    {
        FrameSender { frame: Vec::new(), frame_id: 0 }
    }

    /// Handles one message from the camera task.
    pub fn handle(&mut self, msg: CameraMessage) -> (action: SenderAction)
        requires
            old(self).wf(),
            old(self).admits(&msg),
        ensures
            final(self).wf(),
            (final(self).pending(), final(self).frame_id()) == sender_step(
                old(self).pending(),
                old(self).frame_id(),
                msg,
            ),
            match msg {
                CameraMessage::VideoChunk(buf, len) => {
                    if old(self).pending().len() + len <= FRAME_BUFFER_SIZE {
                        &&& action matches SenderAction::Buffered(b) && b@ == buf@
                        &&& final(self).pending() == old(self).pending() + buf@@.take(len as int)
                        &&& final(self).frame_id() == old(self).frame_id()
                    } else {
                        &&& action matches SenderAction::FrameTooBig(b) && b@ == buf@
                        &&& final(self).pending() == old(self).pending()
                        &&& final(self).frame_id() == old(self).frame_id()
                    }
                },
                CameraMessage::EndOfFrame => {
                    if old(self).pending().len() == 0 {
                        &&& action is NothingToSend
                        &&& final(self).pending() == old(self).pending()
                        &&& final(self).frame_id() == old(self).frame_id()
                    } else {
                        &&& action matches SenderAction::Send(chunks) && is_split_of(
                            chunks@,
                            old(self).pending(),
                            old(self).frame_id(),
                        )
                        &&& final(self).pending() == Seq::<u8>::empty()
                        &&& final(self).frame_id() == next_frame_id(old(self).frame_id())
                    }
                },
                CameraMessage::HardwareError => {
                    &&& action is HardwareError
                    &&& final(self).pending() == old(self).pending()
                    &&& final(self).frame_id() == old(self).frame_id()
                },
            },
    {
        match msg {
            CameraMessage::VideoChunk(buf, len) => {
                if len <= FRAME_BUFFER_SIZE - self.frame.len() {
                    let data = buf.get();
                    let mut j: usize = 0;
                    while j < len
                        invariant
                            len <= VIDEO_CHUNK_SIZE,
                            j <= len,
                            data@.len() == VIDEO_CHUNK_SIZE,
                            *data == buf@,
                            self.frame@ == old(self).frame@ + data@.take(j as int),
                            self.frame_id == old(self).frame_id,
                        decreases len - j,
                    {
                        self.frame.push(data[j]);
                        j = j + 1;
                        assert(self.frame@ =~= old(self).frame@ + data@.take(j as int));
                    }
                    SenderAction::Buffered(buf)
                } else {
                    SenderAction::FrameTooBig(buf)
                }
            },
            CameraMessage::EndOfFrame => {
                if self.frame.len() == 0 {
                    SenderAction::NothingToSend
                } else {
                    let chunks = split_frame(self.frame.as_slice(), self.frame_id);
                    self.frame_id = self.frame_id.wrapping_add(1);
                    self.frame.clear();
                    SenderAction::Send(chunks)
                }
            },
            CameraMessage::HardwareError => SenderAction::HardwareError,
        }
    }
}

} // verus!
