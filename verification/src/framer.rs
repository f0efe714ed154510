//! Cutting the output of a long-running probe into documents.
//!
//! A probe writes one JSON document after another with nothing between them.
//! The framer keeps what it has read so far in a buffer. After each chunk it
//! tries to decode the whole buffer as one document: if that fails it needs
//! more bytes; if it succeeds the document is complete, is handed out, and the
//! buffer starts afresh. Reads are expected to block until the probe has written
//! something, so a probe that never completes a document is only given up once
//! its exit is noticed.
//!
//! The framer does no input or output itself. Its owner spawns the process,
//! checks for its exit, reads from its standard output and passes each outcome
//! to [`Framer::step`], which says what to do next.
use crate::json::{decode, parsed};
use crate::probe::JobError;
use serde_json::Value;
use vstd::prelude::*;

verus! {

/// How many bytes to ask for in one read from a probe.
pub const READ_CHUNK_LEN: usize = 4096;

/// What happened to a probe since the framer was last asked.
pub enum ProbeEvent<'a> {
    /// Starting the process failed.
    SpawnFailed,
    /// The process has ended; `diagnostic` is its standard error output.
    Exited { diagnostic: String },
    /// A read from its standard output failed.
    ReadFailed,
    /// A read returned these bytes.
    Chunk(&'a [u8]),
    /// The document handed out last could not be queued.
    SendFailed,
}

/// What the owner of a framer does next.
#[derive(Debug)]
pub enum FramerAction {
    /// Check whether the process has ended, and if not read another chunk.
    Continue,
    /// Queue this document for the sampler, then go on as for `Continue`.
    Deliver(Value),
    /// Give up the job with this error.
    Stop(JobError),
}

/// The state of a framer as contracts see it.
pub struct FramerState {
    /// The bytes read since the last complete document.
    pub buffer: Seq<u8>,
    /// The error the job ended with, once it has ended.
    pub stopped: Option<JobError>,
}

/// What happens to the buffer when a chunk arrives: the buffer left, and the
/// document completed by the chunk if there is one.
pub open spec fn absorb(buffer: Seq<u8>, chunk: Seq<u8>) -> (Seq<u8>, Option<Value>) {
    let joined = buffer + chunk;
    match parsed(joined) {
        Some(doc) => (Seq::empty(), Some(doc)),
        None => (joined, None),
    }
}

/// The error that an event ends the job with, if it does.
pub open spec fn failure_of(event: ProbeEvent) -> Option<JobError> {
    match event {
        ProbeEvent::SpawnFailed => Some(JobError::ProcessSpawn),
        ProbeEvent::Exited { diagnostic } => Some(JobError::ProcessExit { diagnostic }),
        ProbeEvent::ReadFailed => Some(JobError::Read),
        ProbeEvent::SendFailed => Some(JobError::Send),
        ProbeEvent::Chunk(_) => None,
    }
}

/// The transition of a framer: the state after `event`, and the action it
/// answers with.
///
/// A framer that has stopped stays as it is and repeats its error. A running
/// one stops on every event but a chunk. A chunk is appended to the buffer and
/// the whole buffer decoded: a document is delivered and the buffer emptied, or
/// the buffer is kept and more bytes are asked for.
pub open spec fn step_spec(state: FramerState, event: ProbeEvent) -> (FramerState, FramerAction) {
    match state.stopped {
        Some(error) => (state, FramerAction::Stop(error)),
        None => match event {
            ProbeEvent::Chunk(bytes) => {
                let (buffer, complete) = absorb(state.buffer, bytes@);
                (
                    FramerState { buffer, stopped: None },
                    match complete {
                        Some(doc) => FramerAction::Deliver(doc),
                        None => FramerAction::Continue,
                    },
                )
            },
            _ => (
                FramerState { buffer: state.buffer, stopped: failure_of(event) },
                FramerAction::Stop(failure_of(event)->0),
            ),
        },
    }
}

/// The documents that a running framer with `buffer` hands out for a run of
/// chunks, in order, and the buffer it is left with.
pub open spec fn delivered(buffer: Seq<u8>, chunks: Seq<Seq<u8>>) -> (Seq<Value>, Seq<u8>)
    decreases chunks.len(),
{
    if chunks.len() == 0 {
        (Seq::empty(), buffer)
    } else {
        let (next, complete) = absorb(buffer, chunks[0]);
        let (later, left) = delivered(next, chunks.skip(1));
        match complete {
            Some(doc) => (seq![doc] + later, left),
            None => (later, left),
        }
    }
}

/// The views of a run of chunks.
pub open spec fn chunk_views(chunks: Seq<Vec<u8>>) -> Seq<Seq<u8>> {
    chunks.map_values(|chunk: Vec<u8>| chunk@)
}

/// A frame: the bytes of one document, the whole of which decodes while no
/// shorter beginning of it does. Objects, arrays and strings are of this kind,
/// their last byte being the one that closes them.
pub open spec fn is_frame(bytes: Seq<u8>) -> bool {
    &&& bytes.len() > 0
    &&& parsed(bytes) is Some
    &&& forall|k: int| 0 <= k < bytes.len() ==> parsed(#[trigger] bytes.take(k)) is None
}

/// Reassembles documents from the chunks read from one probe.
pub struct Framer {
    buffer: Vec<u8>,
    stopped: Option<JobError>,
}

impl View for Framer {
    type V = FramerState;

    closed spec fn view(&self) -> FramerState {
        FramerState { buffer: self.buffer@, stopped: self.stopped }
    }
}

impl Framer {
    /// A running framer with an empty buffer.
    pub fn new() -> (r: Framer)
        ensures
            r@.buffer == Seq::<u8>::empty(),
            r@.stopped is None,
    {
        Framer { buffer: Vec::new(), stopped: None }
    }

    /// How many bytes are waiting for the rest of their document.
    pub fn buffered(&self) -> (r: usize)
        ensures
            r == self@.buffer.len(),
    {
        self.buffer.len()
    }

    /// Whether the job has ended.
    pub fn is_stopped(&self) -> (r: bool)
        ensures
            r == self@.stopped is Some,
    {
        self.stopped.is_some()
    }

    /// Takes in what happened to the probe and says what to do next.
    pub fn step(&mut self, event: ProbeEvent<'_>) -> (r: FramerAction)
        ensures
            (final(self)@, r) == step_spec(old(self)@, event),
    {
        if let Some(error) = &self.stopped {
            return FramerAction::Stop(error.clone());
        }
        match event {
            ProbeEvent::Chunk(bytes) => {
                append_bytes(&mut self.buffer, bytes);
                match decode(self.buffer.as_slice()) {
                    Ok(doc) => {
                        self.buffer.clear();
                        FramerAction::Deliver(doc)
                    },
                    Err(_) => FramerAction::Continue,
                }
            },
            ProbeEvent::SpawnFailed => self.stop(JobError::ProcessSpawn),
            ProbeEvent::Exited { diagnostic } => self.stop(JobError::ProcessExit { diagnostic }),
            ProbeEvent::ReadFailed => self.stop(JobError::Read),
            ProbeEvent::SendFailed => self.stop(JobError::Send),
        }
    }

    fn stop(&mut self, error: JobError) -> (r: FramerAction)
        requires
            old(self)@.stopped is None,
        ensures
            final(self)@ == (FramerState { buffer: old(self)@.buffer, stopped: Some(error) }),
            r == FramerAction::Stop(error),
    {
        self.stopped = Some(error.clone());
        FramerAction::Stop(error)
    }

    /// Takes in a run of chunks and returns the documents they complete, in
    /// order. A framer that has stopped takes nothing in.
    pub fn feed(&mut self, chunks: &[Vec<u8>]) -> (r: Vec<Value>)
        ensures
            old(self)@.stopped is Some ==> final(self)@ == old(self)@ && r@.len() == 0,
            old(self)@.stopped is None ==> final(self)@.stopped is None && (r@, final(self)@.buffer)
                == delivered(old(self)@.buffer, chunk_views(chunks@)),
    {
        let mut docs: Vec<Value> = Vec::new();
        if self.stopped.is_some() {
            return docs;
        }
        let ghost all = chunk_views(chunks@);
        let ghost start = self.buffer@;
        let mut i: usize = 0;
        proof {
            assert(all.skip(0) =~= all);
            assert(docs@ + delivered(start, all).0 =~= delivered(start, all).0);
        }
        while i < chunks.len()
            invariant
                i <= chunks.len(),
                all == chunk_views(chunks@),
                self@.stopped is None,
                delivered(start, all) == ({
                    let (later, left) = delivered(self@.buffer, all.skip(i as int));
                    (docs@ + later, left)
                }),
            decreases chunks.len() - i,
        {
            proof {
                let rest = all.skip(i as int);
                assert(rest[0] == chunks@[i as int]@);
                assert(rest.skip(1) =~= all.skip(i + 1));
            }
            match self.step(ProbeEvent::Chunk(chunks[i].as_slice())) {
                FramerAction::Deliver(doc) => {
                    proof {
                        let (later, left) = delivered(self@.buffer, all.skip(i + 1));
                        assert(docs@ + (seq![doc] + later) =~= docs@.push(doc) + later);
                    }
                    docs.push(doc);
                },
                _ => {},
            }
            i += 1;
        }
        proof {
            assert(all.skip(i as int) =~= Seq::<Seq<u8>>::empty());
            assert(docs@ + Seq::<Value>::empty() =~= docs@);
        }
        docs
    }
}

/// Appends `bytes` to `buffer`.
fn append_bytes(buffer: &mut Vec<u8>, bytes: &[u8])
    ensures
        final(buffer)@ == old(buffer)@ + bytes@,
{
    buffer.extend_from_slice(bytes);
    assert(buffer@ =~= old(buffer)@ + bytes@);
}

/// Feeding two runs of chunks one after the other is feeding their
/// concatenation.
pub proof fn lemma_delivered_concat(buffer: Seq<u8>, a: Seq<Seq<u8>>, b: Seq<Seq<u8>>)
    ensures
        delivered(buffer, a + b) == ({
            let (first, between) = delivered(buffer, a);
            let (second, left) = delivered(between, b);
            (first + second, left)
        }),
    decreases a.len(),
{
    if a.len() == 0 {
        assert(a + b =~= b);
        assert(Seq::<Value>::empty() + delivered(buffer, b).0 =~= delivered(buffer, b).0);
    } else {
        let (next, complete) = absorb(buffer, a[0]);
        lemma_delivered_concat(next, a.skip(1), b);
        assert((a + b)[0] == a[0]);
        assert((a + b).skip(1) =~= a.skip(1) + b);
        let (first, between) = delivered(next, a.skip(1));
        let (second, left) = delivered(between, b);
        if complete is Some {
            assert(seq![complete->0] + (first + second) =~= (seq![complete->0] + first) + second);
        }
    }
}

proof fn lemma_empty_chunks_deliver_nothing(buffer: Seq<u8>, pieces: Seq<Seq<u8>>)
    requires
        parsed(buffer) is None,
        pieces.flatten().len() == 0,
    ensures
        delivered(buffer, pieces) == (Seq::<Value>::empty(), buffer),
    decreases pieces.len(),
{
    if pieces.len() > 0 {
        assert(pieces.flatten() == pieces[0] + pieces.drop_first().flatten());
        assert(pieces.drop_first() =~= pieces.skip(1));
        assert(buffer + pieces[0] =~= buffer);
        lemma_empty_chunks_deliver_nothing(buffer, pieces.skip(1));
    }
}

proof fn lemma_frame_is_delivered(frame: Seq<u8>, k: int, pieces: Seq<Seq<u8>>)
    requires
        is_frame(frame),
        0 <= k < frame.len(),
        frame.take(k) + pieces.flatten() == frame,
    ensures
        delivered(frame.take(k), pieces) == (seq![parsed(frame)->0], Seq::<u8>::empty()),
    decreases pieces.len(),
{
    let buffer = frame.take(k);
    if pieces.len() == 0 {
        assert(buffer + pieces.flatten() =~= buffer);
    } else {
        let rest = pieces.skip(1);
        assert(pieces.flatten() == pieces[0] + pieces.drop_first().flatten());
        assert(pieces.drop_first() =~= rest);
        let joined = buffer + pieces[0];
        let reached = k + pieces[0].len();
        assert(joined + rest.flatten() =~= frame);
        assert(joined =~= frame.take(reached));
        if reached == frame.len() {
            assert(frame.take(reached) =~= frame);
            assert(frame.take(0) =~= Seq::<u8>::empty());
            lemma_empty_chunks_deliver_nothing(Seq::empty(), rest);
            assert(seq![parsed(frame)->0] + Seq::<Value>::empty() =~= seq![parsed(frame)->0]);
        } else {
            lemma_frame_is_delivered(frame, reached, rest);
        }
    }
}

/// However a stream of documents is cut into chunks, as long as no chunk
/// reaches across the end of a document, a fresh framer hands out every
/// document, once, in the order in which they were written, and is left with an
/// empty buffer.
///
/// `cuts[i]` is the run of chunks in which the `i`-th document arrives; the
/// bytes of that document are `cuts[i].flatten()`, and the chunks that the
/// framer is fed are `cuts.flatten()`. Chunks may be single bytes, and may be
/// empty. Every document has to be a frame in the sense of [`is_frame`].
pub proof fn lemma_frames_come_out_in_order(cuts: Seq<Seq<Seq<u8>>>)
    ensures
        (forall|i: int| 0 <= i < cuts.len() ==> is_frame(#[trigger] cuts[i].flatten()))
            ==> delivered(Seq::empty(), cuts.flatten()) == (
            Seq::new(cuts.len(), |i: int| parsed(cuts[i].flatten())->0),
            Seq::<u8>::empty(),
        ),
    decreases cuts.len(),
{
    if forall|i: int| 0 <= i < cuts.len() ==> is_frame(#[trigger] cuts[i].flatten()) {
        let docs = Seq::new(cuts.len(), |i: int| parsed(cuts[i].flatten())->0);
        if cuts.len() == 0 {
            assert(docs =~= Seq::<Value>::empty());
        } else {
            let later = cuts.drop_first();
            let frame = cuts[0].flatten();
            assert(forall|i: int| 0 <= i < later.len() ==> later[i] == cuts[i + 1]);
            assert(forall|i: int|
                0 <= i < later.len() ==> is_frame(#[trigger] later[i].flatten()));
            lemma_frames_come_out_in_order(later);
            assert(cuts.flatten() == cuts[0] + later.flatten());
            assert(is_frame(frame));
            assert(frame.take(0) =~= Seq::<u8>::empty());
            assert(frame.take(0) + frame =~= frame);
            lemma_frame_is_delivered(frame, 0, cuts[0]);
            lemma_delivered_concat(Seq::empty(), cuts[0], later.flatten());
            let later_docs = Seq::new(later.len(), |i: int| parsed(later[i].flatten())->0);
            assert(seq![parsed(frame)->0] + later_docs =~= docs);
        }
    }
}

/// Every byte of `bytes` as a chunk of its own.
pub open spec fn bytewise(bytes: Seq<u8>) -> Seq<Seq<u8>> {
    bytes.map_values(|byte: u8| seq![byte])
}

proof fn lemma_bytewise_concat(a: Seq<u8>, b: Seq<u8>)
    ensures
        bytewise(a + b) == bytewise(a) + bytewise(b),
{
    assert(bytewise(a + b) =~= bytewise(a) + bytewise(b));
}

proof fn lemma_bytewise_flatten(bytes: Seq<u8>)
    ensures
        bytewise(bytes).flatten() == bytes,
    decreases bytes.len(),
{
    let chunks = bytewise(bytes);
    if bytes.len() == 0 {
        assert(chunks.flatten() =~= bytes);
    } else {
        lemma_bytewise_flatten(bytes.drop_first());
        assert(chunks.drop_first() =~= bytewise(bytes.drop_first()));
        assert(chunks.first() + bytes.drop_first() =~= bytes);
    }
}

/// Documents written one after the other and read one byte at a time all come
/// out, in order: the case of [`lemma_frames_come_out_in_order`] in which every
/// chunk is a single byte.
pub proof fn lemma_frames_come_out_bytewise(frames: Seq<Seq<u8>>)
    ensures
        (forall|i: int| 0 <= i < frames.len() ==> is_frame(#[trigger] frames[i])) ==> delivered(
            Seq::empty(),
            bytewise(frames.flatten()),
        ) == (Seq::new(frames.len(), |i: int| parsed(frames[i])->0), Seq::<u8>::empty()),
{
    if forall|i: int| 0 <= i < frames.len() ==> is_frame(#[trigger] frames[i]) {
        let cuts = frames.map_values(|frame: Seq<u8>| bytewise(frame));
        assert forall|i: int| 0 <= i < cuts.len() implies is_frame(#[trigger] cuts[i].flatten()) by {
            lemma_bytewise_flatten(frames[i]);
        }
        lemma_frames_come_out_in_order(cuts);
        lemma_cuts_of_bytewise(frames);
        assert forall|i: int| 0 <= i < frames.len() implies parsed(cuts[i].flatten())->0 == parsed(
            frames[i],
        )->0 by {
            lemma_bytewise_flatten(frames[i]);
        }
        assert(Seq::new(cuts.len(), |i: int| parsed(cuts[i].flatten())->0) =~= Seq::new(
            frames.len(),
            |i: int| parsed(frames[i])->0,
        ));
    }
}

proof fn lemma_cuts_of_bytewise(frames: Seq<Seq<u8>>)
    ensures
        frames.map_values(|frame: Seq<u8>| bytewise(frame)).flatten() == bytewise(frames.flatten()),
    decreases frames.len(),
{
    let cuts = frames.map_values(|frame: Seq<u8>| bytewise(frame));
    if frames.len() == 0 {
        assert(cuts.flatten() =~= bytewise(frames.flatten()));
    } else {
        lemma_cuts_of_bytewise(frames.drop_first());
        assert(cuts.drop_first() =~= frames.drop_first().map_values(
            |frame: Seq<u8>| bytewise(frame),
        ));
        lemma_bytewise_concat(frames.first(), frames.drop_first().flatten());
    }
}

} // verus!
