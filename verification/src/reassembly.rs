//! Putting one frame back together on the relay from the datagrams that
//! arrive, in any order: each chunk number has one slot, a chunk fills its
//! slot once, and the frame is ready when every slot is filled.
use crate::chunk::{law_decode_deterministic, parses_as, JpegFrameChunk, MAX_CHUNK_SIZE};
use crate::frame::{is_frame_chunk, is_split_of, reassemble};
use vstd::prelude::*;

verus! {

/// The bytes of a chunk's payload that belong to the frame.
pub open spec fn valid_payload(c: JpegFrameChunk) -> Seq<u8> {
    c.payload@.take(c.payload_len as int)
}

/// Chunk `c` is taken into `slots` of frame `id`: it belongs to the frame,
/// agrees on the chunk count, has a valid length, and its slot is empty.
pub open spec fn takes(id: u16, slots: Seq<Option<Seq<u8>>>, c: JpegFrameChunk) -> bool {
    &&& c.frame_id == id
    &&& c.total_chunks == slots.len()
    &&& c.chunk_id < slots.len()
    &&& c.payload_len <= MAX_CHUNK_SIZE
    &&& slots[c.chunk_id as int] is None
}

/// The slots after chunk `c` arrives.
pub open spec fn slots_after(id: u16, slots: Seq<Option<Seq<u8>>>, c: JpegFrameChunk) -> Seq<Option<Seq<u8>>> {
    if takes(id, slots, c) {
        slots.update(c.chunk_id as int, Some(valid_payload(c)))
    } else {
        slots
    }
}

/// The slots after `arrivals` arrive in order.
pub open spec fn slots_after_all(id: u16, slots: Seq<Option<Seq<u8>>>, arrivals: Seq<JpegFrameChunk>) -> Seq<Option<Seq<u8>>>
    decreases arrivals.len(),
{
    if arrivals.len() == 0 {
        slots
    } else {
        slots_after(id, slots_after_all(id, slots, arrivals.drop_last()), arrivals.last())
    }
}

/// Every slot is filled.
pub open spec fn all_filled(slots: Seq<Option<Seq<u8>>>) -> bool {
    forall|i: int| 0 <= i < slots.len() ==> (#[trigger] slots[i]) is Some
}

/// The contents of the filled slots, in order.
pub open spec fn joined(slots: Seq<Option<Seq<u8>>>) -> Seq<u8>
    decreases slots.len(),
{
    if slots.len() == 0 {
        seq![]
    } else {
        joined(slots.drop_last()) + match slots.last() {
            Some(b) => b,
            None => Seq::empty(),
        }
    }
}

/// `n` empty slots.
pub open spec fn empty_slots(n: nat) -> Seq<Option<Seq<u8>>> {
    Seq::new(n, |_i: int| None)
}

/// Every arrival is one of `chunks`.
pub open spec fn only_chunks_of(arrivals: Seq<JpegFrameChunk>, chunks: Seq<JpegFrameChunk>) -> bool {
    forall|m: int|
        #![trigger arrivals[m]]
        0 <= m < arrivals.len() ==> exists|j: int|
            #![trigger chunks[j]]
            0 <= j < chunks.len() && arrivals[m] == chunks[j]
}

/// Each of `chunks` arrives at least once.
pub open spec fn every_chunk_arrives(arrivals: Seq<JpegFrameChunk>, chunks: Seq<JpegFrameChunk>) -> bool {
    forall|j: int|
        #![trigger chunks[j]]
        0 <= j < chunks.len() ==> exists|m: int|
            #![trigger arrivals[m]]
            0 <= m < arrivals.len() && arrivals[m] == chunks[j]
}

/// The slots of one frame being put back together.
pub struct FrameAssembler {
    frame_id: u16,
    slots: Vec<Option<Vec<u8>>>,
}

impl FrameAssembler {
    /// Id of the frame being put together.
    pub closed spec fn id(&self) -> u16 {
        self.frame_id
    }

    /// The slots, one per chunk number.
    pub closed spec fn slots(&self) -> Seq<Option<Seq<u8>>> {
        self.slots@.map_values(
            |o: Option<Vec<u8>>|
                match o {
                    Some(v) => Some(v@),
                    None => None,
                },
        )
    }

    /// An assembler for frame `frame_id` of `total_chunks` chunks, with
    /// every slot empty.
    pub fn new(frame_id: u16, total_chunks: u8) -> (a: Self)
        ensures
            a.id() == frame_id,
            a.slots() == empty_slots(total_chunks as nat),
    {
        let mut slots: Vec<Option<Vec<u8>>> = Vec::new();
        let mut i: u8 = 0;
        while i < total_chunks
            invariant
                i <= total_chunks,
                slots@.len() == i,
                forall|k: int| 0 <= k < i ==> (#[trigger] slots@[k]) is None,
            decreases total_chunks - i,
        {
            slots.push(None);
            i = i + 1;
        }
        let a = FrameAssembler { frame_id, slots };
        assert(a.slots() =~= empty_slots(total_chunks as nat));
        a
    }

    /// Id of the frame being put together.
    pub fn frame_id(&self) -> (id: u16)
        ensures
            id == self.id(),
    {
        self.frame_id
    }

    /// Takes a chunk that arrived; returns whether it filled a slot.
    /// Chunks of another frame, with another chunk count, a chunk number
    /// or a length out of range, or for a filled slot are ignored.
    pub fn accept(&mut self, c: &JpegFrameChunk) -> (taken: bool)
        ensures
            taken == takes(old(self).id(), old(self).slots(), *c),
            final(self).id() == old(self).id(),
            final(self).slots() == slots_after(old(self).id(), old(self).slots(), *c),
    {
        let n = self.slots.len();
        if c.frame_id != self.frame_id || c.total_chunks as usize != n
            || c.chunk_id as usize >= n || c.payload_len as usize > MAX_CHUNK_SIZE {
            return false;
        }
        let i = c.chunk_id as usize;
        if self.slots[i].is_some() {
            return false;
        }
        let len = c.payload_len as usize;
        let mut bytes: Vec<u8> = Vec::new();
        let mut j: usize = 0;
        while j < len
            invariant
                len <= MAX_CHUNK_SIZE,
                j <= len,
                bytes@ == c.payload@.take(j as int),
            decreases len - j,
        {
            bytes.push(c.payload[j]);
            j = j + 1;
            assert(bytes@ =~= c.payload@.take(j as int));
        }
        let ghost before = self.slots();
        self.slots[i] = Some(bytes);
        assert(self.slots() =~= before.update(i as int, Some(valid_payload(*c))));
        true
    }

    /// The frame, once every slot is filled: the slots' contents in order.
    pub fn assembled(&self) -> (frame: Option<Vec<u8>>)
        ensures
            frame is Some <==> all_filled(self.slots()),
            frame matches Some(f) ==> f@ == joined(self.slots()),
    {
        let mut out: Vec<u8> = Vec::new();
        let mut i: usize = 0;
        while i < self.slots.len()
            invariant
                i <= self.slots@.len(),
                forall|k: int| 0 <= k < i ==> (#[trigger] self.slots()[k]) is Some,
                out@ == joined(self.slots().take(i as int)),
            decreases self.slots@.len() - i,
        {
            let ghost s = self.slots();
            assert(s.take(i + 1).drop_last() =~= s.take(i as int));
            match &self.slots[i] {
                Some(b) => {
                    let ghost before = out@;
                    let mut j: usize = 0;
                    while j < b.len()
                        invariant
                            j <= b@.len(),
                            out@ == before + b@.take(j as int),
                        decreases b@.len() - j,
                    {
                        out.push(b[j]);
                        j = j + 1;
                        assert(out@ =~= before + b@.take(j as int));
                    }
                    assert(b@.take(b@.len() as int) =~= b@);
                    assert(s[i as int] == Some(b@));
                },
                None => {
                    assert(s[i as int] is None);
                    return None;
                },
            }
            i = i + 1;
        }
        assert(self.slots().take(i as int) =~= self.slots());
        Some(out)
    }
}

/// The chunk a datagram decodes to (meaningful when it decodes at all).
pub open spec fn decoded(bytes: Seq<u8>) -> JpegFrameChunk {
    choose|c: JpegFrameChunk| parses_as(bytes, c)
}

/// The slots a chunk of frame `id` with `total` chunks is put into: those
/// of the frame being put together when it is the same frame, otherwise
/// fresh empty slots (the frame being put together is dropped).
pub open spec fn slots_for(state: Option<(u16, Seq<Option<Seq<u8>>>)>, id: u16, total: u8) -> Seq<Option<Seq<u8>>> {
    match state {
        Some((cur, slots)) => if cur == id {
            slots
        } else {
            empty_slots(total as nat)
        },
        None => empty_slots(total as nat),
    }
}

/// What a datagram does to the collector: the new state and the frame it
/// completes, if any. A datagram that does not decode changes nothing. A
/// chunk of another frame than the one being put together starts that
/// frame afresh. When the chunk fills the last empty slot, the frame is
/// delivered and the collector is left empty.
pub open spec fn collector_step(
    state: Option<(u16, Seq<Option<Seq<u8>>>)>,
    bytes: Seq<u8>,
) -> (Option<(u16, Seq<Option<Seq<u8>>>)>, Option<Seq<u8>>) {
    if bytes.len() < crate::chunk::STRUCT_CHUNK_SIZE {
        (state, None)
    } else {
        let c = decoded(bytes);
        let base = slots_for(state, c.frame_id, c.total_chunks);
        let next = slots_after(c.frame_id, base, c);
        if takes(c.frame_id, base, c) && all_filled(next) {
            (None, Some(joined(next)))
        } else {
            (Some((c.frame_id, next)), None)
        }
    }
}

/// The relay's receiver: puts frames back together from datagrams.
pub struct FrameCollector {
    current: Option<FrameAssembler>,
}

impl FrameCollector {
    /// The frame being put together and its slots, if any.
    pub closed spec fn state(&self) -> Option<(u16, Seq<Option<Seq<u8>>>)> {
        match self.current {
            Some(a) => Some((a.id(), a.slots())),
            None => None,
        }
    }

    /// A collector with no frame under way.
    pub fn new() -> (c: Self)
        ensures
            c.state() is None,
    {
        FrameCollector { current: None }
    }

    /// Takes one datagram; returns the frame it completes, if any.
    pub fn receive(&mut self, datagram: &[u8]) -> (frame: Option<Vec<u8>>)
        ensures
            (final(self).state(), match frame {
                Some(f) => Some(f@),
                None => None,
            }) == collector_step(old(self).state(), datagram@),
    {
        let c = match JpegFrameChunk::from_bytes(datagram) {
            None => return None,
            Some(c) => c,
        };
        proof {
            assert(parses_as(datagram@, decoded(datagram@)));
            law_decode_deterministic(datagram@, c, decoded(datagram@));
        }
        let mut a = match self.current.take() {
            Some(a) => {
                if a.frame_id() == c.frame_id {
                    a
                } else {
                    FrameAssembler::new(c.frame_id, c.total_chunks)
                }
            },
            None => FrameAssembler::new(c.frame_id, c.total_chunks),
        };
        assert(a.slots() == slots_for(old(self).state(), c.frame_id, c.total_chunks));
        let taken = a.accept(&c);
        if taken {
            match a.assembled() {
                Some(f) => {
                    return Some(f);
                },
                None => {},
            }
        }
        self.current = Some(a);
        None
    }
}

proof fn lemma_joined_filled(chunks: Seq<JpegFrameChunk>)
    ensures
        joined(Seq::new(chunks.len(), |i: int| Some(valid_payload(chunks[i])))) == reassemble(chunks),
    decreases chunks.len(),
{
    let f = Seq::new(chunks.len(), |i: int| Some(valid_payload(chunks[i])));
    if chunks.len() > 0 {
        lemma_joined_filled(chunks.drop_last());
        assert(f.drop_last() =~= Seq::new(
            chunks.drop_last().len(),
            |i: int| Some(valid_payload(chunks.drop_last()[i])),
        ));
    }
}

/// The slots after a prefix of the arrivals: filled for exactly the chunks
/// that arrived, each with that chunk's bytes.
proof fn lemma_slots_after_prefix(
    frame: Seq<u8>,
    id: u16,
    chunks: Seq<JpegFrameChunk>,
    arrivals: Seq<JpegFrameChunk>,
    k: int,
)
    requires
        is_split_of(chunks, frame, id),
        chunks.len() <= 255,
        only_chunks_of(arrivals, chunks),
        0 <= k <= arrivals.len(),
    ensures
        ({
            let s = slots_after_all(id, empty_slots(chunks.len()), arrivals.take(k));
            &&& s.len() == chunks.len()
            &&& forall|j: int|
                0 <= j < chunks.len() ==> (#[trigger] s[j]) == if exists|m: int|
                    0 <= m < k && arrivals[m] == chunks[j] {
                    Some(valid_payload(chunks[j]))
                } else {
                    None
                }
        }),
    decreases k,
{
    let n = chunks.len();
    if k == 0 {
        assert(arrivals.take(0) =~= Seq::<JpegFrameChunk>::empty());
    } else {
        lemma_slots_after_prefix(frame, id, chunks, arrivals, k - 1);
        assert(arrivals.take(k).drop_last() =~= arrivals.take(k - 1));
        assert(arrivals.take(k).last() == arrivals[k - 1]);
        let prev = slots_after_all(id, empty_slots(n), arrivals.take(k - 1));
        let s = slots_after_all(id, empty_slots(n), arrivals.take(k));
        assert(s == slots_after(id, prev, arrivals[k - 1]));
        let c = arrivals[k - 1];
        let j0 = choose|j: int| 0 <= j < n && c == chunks[j];
        assert(is_frame_chunk(chunks[j0], frame, id, j0));
        assert(c.chunk_id == j0);
        assert(c.total_chunks == n);
        assert forall|j: int| 0 <= j < n implies (#[trigger] s[j]) == if exists|m: int|
            0 <= m < k && arrivals[m] == chunks[j] {
            Some(valid_payload(chunks[j]))
        } else {
            None
        } by {
            if j == j0 {
                assert(arrivals[k - 1] == chunks[j]);
                if exists|m: int| 0 <= m < k - 1 && arrivals[m] == chunks[j] {
                } else {
                    assert(takes(id, prev, c));
                }
            } else {
                assert(chunks[j].chunk_id == j) by {
                    assert(is_frame_chunk(chunks[j], frame, id, j));
                }
                if exists|m: int| 0 <= m < k && arrivals[m] == chunks[j] {
                    let m = choose|m: int| 0 <= m < k && arrivals[m] == chunks[j];
                    if m == k - 1 {
                        assert(c.chunk_id == j);
                        assert(false);
                    }
                } else {
                }
            }
        }
    }
}

/// Whatever order the datagrams of a split frame arrive in, and however
/// often each arrives, once every chunk has arrived all slots are filled
/// and their contents in order are the frame.
pub proof fn law_any_arrival_order_gives_the_frame(
    frame: Seq<u8>,
    id: u16,
    chunks: Seq<JpegFrameChunk>,
    arrivals: Seq<JpegFrameChunk>,
)
    requires
        is_split_of(chunks, frame, id),
        chunks.len() <= 255,
        only_chunks_of(arrivals, chunks),
        every_chunk_arrives(arrivals, chunks),
    ensures
        all_filled(slots_after_all(id, empty_slots(chunks.len()), arrivals)),
        joined(slots_after_all(id, empty_slots(chunks.len()), arrivals)) == frame,
{
    let n = chunks.len();
    let k = arrivals.len() as int;
    lemma_slots_after_prefix(frame, id, chunks, arrivals, k);
    assert(arrivals.take(k) =~= arrivals);
    let s = slots_after_all(id, empty_slots(n), arrivals);
    let f = Seq::new(n, |i: int| Some(valid_payload(chunks[i])));
    assert forall|j: int| 0 <= j < n implies s[j] == f[j] by {
        let m = choose|m: int| 0 <= m < arrivals.len() && arrivals[m] == chunks[j];
        assert(arrivals[m] == chunks[j]);
    }
    assert(s =~= f);
    lemma_joined_filled(chunks);
    crate::frame::law_split_then_reassemble(chunks, frame, id);
}

/// The collector's state after the datagrams `datagrams`, and what each
/// datagram delivered.
pub open spec fn collector_run(
    state: Option<(u16, Seq<Option<Seq<u8>>>)>,
    datagrams: Seq<Seq<u8>>,
) -> (Option<(u16, Seq<Option<Seq<u8>>>)>, Seq<Option<Seq<u8>>>)
    decreases datagrams.len(),
{
    if datagrams.len() == 0 {
        (state, seq![])
    } else {
        let r = collector_run(state, datagrams.drop_last());
        let s = collector_step(r.0, datagrams.last());
        (s.0, r.1.push(s.1))
    }
}

/// The wire bytes of each chunk, in order.
pub open spec fn datagrams_of(arrivals: Seq<JpegFrameChunk>) -> Seq<Seq<u8>> {
    arrivals.map_values(|c: JpegFrameChunk| c.wire_bytes())
}

proof fn lemma_decoded_wire_bytes(c: JpegFrameChunk)
    ensures
        decoded(c.wire_bytes()) == c,
        c.wire_bytes().len() == crate::chunk::STRUCT_CHUNK_SIZE,
{
    assert(c.wire_bytes().take(crate::chunk::STRUCT_CHUNK_SIZE as int) =~= c.wire_bytes());
    assert(parses_as(c.wire_bytes(), c));
    crate::chunk::law_decode_after_encode(c, decoded(c.wire_bytes()));
}

proof fn lemma_all_filled_is_frame(
    frame: Seq<u8>,
    id: u16,
    chunks: Seq<JpegFrameChunk>,
    arrivals: Seq<JpegFrameChunk>,
    k: int,
)
    requires
        is_split_of(chunks, frame, id),
        chunks.len() <= 255,
        only_chunks_of(arrivals, chunks),
        0 <= k <= arrivals.len(),
        all_filled(slots_after_all(id, empty_slots(chunks.len()), arrivals.take(k))),
    ensures
        joined(slots_after_all(id, empty_slots(chunks.len()), arrivals.take(k))) == frame,
{
    let n = chunks.len();
    lemma_slots_after_prefix(frame, id, chunks, arrivals, k);
    let s = slots_after_all(id, empty_slots(n), arrivals.take(k));
    let f = Seq::new(n, |i: int| Some(valid_payload(chunks[i])));
    assert forall|j: int| 0 <= j < n implies s[j] == f[j] by {
        assert(s[j] is Some);
    }
    assert(s =~= f);
    lemma_joined_filled(chunks);
    crate::frame::law_split_then_reassemble(chunks, frame, id);
}

proof fn lemma_collector_prefix(
    frame: Seq<u8>,
    id: u16,
    chunks: Seq<JpegFrameChunk>,
    arrivals: Seq<JpegFrameChunk>,
    state: Option<(u16, Seq<Option<Seq<u8>>>)>,
    k: int,
)
    requires
        is_split_of(chunks, frame, id),
        1 <= chunks.len() <= 255,
        only_chunks_of(arrivals, chunks),
        state matches Some((other, _)) ==> other != id,
        0 <= k <= arrivals.len(),
    ensures
        ({
            let r = collector_run(state, datagrams_of(arrivals).take(k));
            let a = slots_after_all(id, empty_slots(chunks.len()), arrivals.take(k));
            &&& r.1.len() == k
            &&& (exists|m: int| 0 <= m < k && #[trigger] r.1[m] == Some(frame)) || (!all_filled(a)
                && r.0 == if k == 0 {
                state
            } else {
                Some((id, a))
            })
        }),
    decreases k,
{
    let n = chunks.len();
    let ds = datagrams_of(arrivals);
    if k == 0 {
        assert(ds.take(0) =~= Seq::<Seq<u8>>::empty());
        assert(arrivals.take(0) =~= Seq::<JpegFrameChunk>::empty());
        let a = empty_slots(n);
        assert(a[0] is None);
    } else {
        lemma_collector_prefix(frame, id, chunks, arrivals, state, k - 1);
        let r0 = collector_run(state, ds.take(k - 1));
        let r = collector_run(state, ds.take(k));
        assert(ds.take(k).drop_last() =~= ds.take(k - 1));
        assert(arrivals.take(k).drop_last() =~= arrivals.take(k - 1));
        let c = arrivals[k - 1];
        assert(ds.take(k).last() == c.wire_bytes());
        lemma_decoded_wire_bytes(c);
        let j0 = choose|j: int| 0 <= j < n && c == chunks[j];
        assert(is_frame_chunk(chunks[j0], frame, id, j0));
        assert(c.frame_id == id);
        assert(c.total_chunks == n);
        let a0 = slots_after_all(id, empty_slots(n), arrivals.take(k - 1));
        let a = slots_after_all(id, empty_slots(n), arrivals.take(k));
        assert(a == slots_after(id, a0, c));
        if exists|m: int| 0 <= m < k - 1 && #[trigger] r0.1[m] == Some(frame) {
            let m = choose|m: int| 0 <= m < k - 1 && #[trigger] r0.1[m] == Some(frame);
            assert(r.1[m] == r0.1[m]);
        } else {
            assert(slots_for(r0.0, id, c.total_chunks) == a0) by {
                if k - 1 == 0 {
                    assert(a0 =~= empty_slots(n));
                }
            }
            if takes(id, a0, c) && all_filled(a) {
                lemma_all_filled_is_frame(frame, id, chunks, arrivals, k);
                assert(r.1[k - 1] == Some(frame));
            } else if all_filled(a) {
                assert(a == a0);
                assert(false);
            }
        }
    }
}

/// Once every chunk of a split frame has arrived as a datagram, in any
/// order and however often, the collector has delivered the frame, as long
/// as it was not already putting together a frame with the same id.
pub proof fn law_collector_delivers_the_frame(
    frame: Seq<u8>,
    id: u16,
    chunks: Seq<JpegFrameChunk>,
    arrivals: Seq<JpegFrameChunk>,
    state: Option<(u16, Seq<Option<Seq<u8>>>)>,
)
    requires
        is_split_of(chunks, frame, id),
        1 <= chunks.len() <= 255,
        only_chunks_of(arrivals, chunks),
        every_chunk_arrives(arrivals, chunks),
        state matches Some((other, _)) ==> other != id,
    ensures
        exists|m: int|
            0 <= m < arrivals.len() && #[trigger] collector_run(state, datagrams_of(arrivals)).1[m]
                == Some(frame),
{
    let k = arrivals.len() as int;
    lemma_collector_prefix(frame, id, chunks, arrivals, state, k);
    law_any_arrival_order_gives_the_frame(frame, id, chunks, arrivals);
    assert(arrivals.take(k) =~= arrivals);
    assert(datagrams_of(arrivals).take(k) =~= datagrams_of(arrivals));
}

} // verus!
