//! The framing discipline: one message travels as `0x00 <json bytes> 0x00`,
//! and the whole frame, both NUL bytes included, may not exceed
//! [`crate::MAX_MESSAGE_SIZE`] bytes.
//!
//! Outgoing frames are built in one piece by [`encode_frame`]; incoming
//! bytes are accumulated by a [`FrameReader`], which recognises a complete
//! frame once more than one byte has arrived and the last byte received is
//! a NUL (the very first byte is itself a leading NUL, so a one-byte buffer
//! is never complete).

use vstd::prelude::*;

use crate::error::Error;
use crate::MAX_MESSAGE_SIZE;

verus! {

/// The frame that carries `payload`: a leading NUL, the payload, a trailing NUL.
pub open spec fn frame_of(payload: Seq<u8>) -> Seq<u8> {
    seq![0u8] + payload + seq![0u8]
}

/// Wraps a JSON payload in its frame, or reports `MessageTooLarge` when the
/// frame would exceed the capacity. Nothing is handed to the device in the
/// failure case, so an oversized message causes no partial write.
pub fn encode_frame(payload: &Vec<u8>) -> (r: Result<Vec<u8>, Error>)
    ensures
        payload@.len() + 2 <= MAX_MESSAGE_SIZE ==> (r matches Ok(f) && f@ == frame_of(payload@)),
        payload@.len() + 2 > MAX_MESSAGE_SIZE ==> r == Err::<Vec<u8>, Error>(Error::MessageTooLarge),
{
    if payload.len() > MAX_MESSAGE_SIZE - 2 {
        return Err(Error::MessageTooLarge);
    }
    let mut frame: Vec<u8> = Vec::new();
    frame.push(0u8);
    let mut i: usize = 0;
    while i < payload.len()
        invariant
            i <= payload@.len(),
            payload@.len() + 2 <= MAX_MESSAGE_SIZE,
            frame@ == seq![0u8] + payload@.take(i as int),
        decreases payload@.len() - i,
    {
        frame.push(payload[i]);
        i = i + 1;
        proof {
            assert(payload@.take(i as int) == payload@.take(i - 1).push(payload@[i - 1]));
        }
    }
    frame.push(0u8);
    proof {
        assert(payload@.take(payload@.len() as int) == payload@);
        assert(frame@ == frame_of(payload@));
    }
    Ok(frame)
}

/// What one read cycle does to the accumulated buffer `state` when the bytes
/// `chunk` arrive: end of stream on an empty read, overflow when the buffer
/// would grow past capacity, a complete frame once the last byte is a NUL and
/// more than one byte has been accumulated, and otherwise a longer buffer.
pub enum FeedOutcome {
    Eof,
    Overflow,
    More(Seq<u8>),
    Done(Seq<u8>),
}

/// The accumulation step itself, as a mathematical function.
pub open spec fn spec_feed(state: Seq<u8>, chunk: Seq<u8>) -> FeedOutcome {
    if chunk.len() == 0 {
        FeedOutcome::Eof
    } else if state.len() + chunk.len() > MAX_MESSAGE_SIZE {
        FeedOutcome::Overflow
    } else {
        let s = state + chunk;
        if s.len() > 1 && s.last() == 0u8 {
            FeedOutcome::Done(s.subrange(1, s.len() - 1))
        } else {
            FeedOutcome::More(s)
        }
    }
}

/// Folds [`spec_feed`] over a whole sequence of read cycles, stopping at the
/// first outcome that is not `More`. When the chunks run out the result is
/// `More` with the bytes accumulated so far.
pub open spec fn spec_feed_all(state: Seq<u8>, chunks: Seq<Seq<u8>>) -> FeedOutcome
    decreases chunks.len(),
{
    if chunks.len() == 0 {
        FeedOutcome::More(state)
    } else {
        match spec_feed(state, chunks.first()) {
            FeedOutcome::More(s) => spec_feed_all(s, chunks.drop_first()),
            FeedOutcome::Eof => FeedOutcome::Eof,
            FeedOutcome::Overflow => FeedOutcome::Overflow,
            FeedOutcome::Done(p) => FeedOutcome::Done(p),
        }
    }
}

/// A sequence of non-empty chunks flattens to a non-empty sequence.
proof fn lemma_flatten_nonempty(chunks: Seq<Seq<u8>>)
    requires
        chunks.len() > 0,
        forall|i: int| 0 <= i < chunks.len() ==> chunks[i].len() > 0,
    ensures
        chunks.flatten().len() > 0,
{
    assert(chunks.flatten() == chunks.first() + chunks.drop_first().flatten());
}

/// The induction behind [`lemma_frame_reassembly`]: feeding the rest of a
/// frame, starting from a proper prefix of it already accumulated,
/// reassembles exactly the frame's payload, and no earlier read cycle is
/// mistaken for a complete frame.
proof fn lemma_feed_from(payload: Seq<u8>, chunks: Seq<Seq<u8>>, m: int)
    requires
        payload.len() + 2 <= MAX_MESSAGE_SIZE,
        forall|i: int| 0 <= i < payload.len() ==> payload[i] != 0u8,
        chunks.len() > 0,
        forall|i: int| 0 <= i < chunks.len() ==> chunks[i].len() > 0,
        0 <= m < frame_of(payload).len(),
        chunks.flatten() == frame_of(payload).skip(m),
    ensures
        spec_feed_all(frame_of(payload).take(m), chunks)
            == FeedOutcome::Done(payload),
        forall|k: int|
            0 <= k < chunks.len()
                ==> spec_feed_all(frame_of(payload).take(m), chunks.take(k)) is More,
    decreases chunks.len(),
{
    let frame = frame_of(payload);
    let state = frame.take(m);
    let c = chunks.first();
    let rest = chunks.drop_first();
    assert(chunks.flatten() == c + rest.flatten());
    assert(c.len() + rest.flatten().len() == frame.len() - m);
    let m2 = m + c.len();
    assert(c =~= frame.subrange(m, m2)) by {
        assert(forall|j: int|
            0 <= j < c.len() ==> c[j] == #[trigger] frame.skip(m)[j]);
    }
    assert(state + c =~= frame.take(m2));
    let s = state + c;
    assert(frame[0] == 0u8);
    assert(frame[frame.len() - 1] == 0u8);
    assert(forall|i: int| 0 <= i < payload.len() ==> frame[i + 1] == payload[i]);
    if m2 == frame.len() {
        assert(s =~= frame);
        assert(s.last() == 0u8);
        assert(s.len() > 1);
        assert(s.subrange(1, s.len() - 1) =~= payload);
        assert(spec_feed(state, c) == FeedOutcome::Done(payload));
        assert(rest.flatten().len() == 0);
        if rest.len() > 0 {
            lemma_flatten_nonempty(rest);
        }
        assert(chunks.len() == 1);
        assert(spec_feed_all(state, chunks) == FeedOutcome::Done(payload));
        assert(chunks.take(0) =~= Seq::<Seq<u8>>::empty());
        assert(spec_feed_all(state, chunks.take(0)) is More);
    } else {
        // The buffer is still a proper prefix of the frame: its last byte is
        // either the leading NUL alone or a NUL-free payload byte.
        if m2 == 1 {
            assert(s.len() == 1);
        } else {
            assert(s.last() == frame[m2 - 1]);
            assert(frame[m2 - 1] == payload[m2 - 2]);
            assert(s.last() != 0u8);
        }
        assert(s.len() == m2 <= MAX_MESSAGE_SIZE);
        assert(spec_feed(state, c) == FeedOutcome::More(s));
        assert(rest.flatten().len() == frame.len() - m2);
        assert forall|j: int| 0 <= j < rest.flatten().len() implies rest.flatten()[j]
            == frame.skip(m2)[j] by {
            assert(rest.flatten()[j] == (c + rest.flatten())[j + c.len()]);
            assert(frame.skip(m)[j + c.len()] == frame[m + j + c.len()]);
            assert(frame.skip(m2)[j] == frame[m2 + j]);
        }
        assert(rest.flatten() =~= frame.skip(m2));
        assert(rest.len() > 0) by {
            if rest.len() == 0 {
                assert(rest.flatten().len() == 0);
                assert(frame.skip(m2).len() == frame.len() - m2);
            }
        }
        lemma_feed_from(payload, rest, m2);
        assert(spec_feed_all(state, chunks) == spec_feed_all(frame.take(m2), rest));
        assert(forall|k: int| 0 <= k < chunks.len() ==> spec_feed_all(
            frame.take(m),
            chunks.take(k),
        ) is More) by {
            assert forall|k: int| 0 <= k < chunks.len() implies spec_feed_all(
                state,
                chunks.take(k),
            ) is More by {
                if k == 0 {
                    assert(chunks.take(0) =~= Seq::<Seq<u8>>::empty());
                } else {
                    assert(chunks.take(k).first() == c);
                    assert(chunks.take(k).drop_first() =~= rest.take(k - 1));
                    assert(spec_feed_all(state, chunks.take(k))
                        == spec_feed_all(frame.take(m2), rest.take(k - 1)));
                }
            }
        }
    }
}

/// Framing reassembly: however a frame is split into non-empty read cycles,
/// feeding the cycles in order reports a complete frame exactly once the
/// trailing NUL arrives, with exactly the frame's payload, and reports
/// `NeedMore` after every earlier cycle. The payload must be NUL-free, as a
/// NUL inside it would end the frame early; [`crate::call::Call::encode`]
/// only ever produces NUL-free payloads.
pub proof fn lemma_frame_reassembly(payload: Seq<u8>, chunks: Seq<Seq<u8>>)
    requires
        payload.len() + 2 <= MAX_MESSAGE_SIZE,
        forall|i: int| 0 <= i < payload.len() ==> payload[i] != 0u8,
        chunks.len() > 0,
        forall|i: int| 0 <= i < chunks.len() ==> chunks[i].len() > 0,
        chunks.flatten() == frame_of(payload),
    ensures
        spec_feed_all(Seq::<u8>::empty(), chunks) == FeedOutcome::Done(payload),
        forall|k: int|
            0 <= k < chunks.len()
                ==> spec_feed_all(Seq::<u8>::empty(), chunks.take(k)) is More,
{
    let frame = frame_of(payload);
    assert(frame.skip(0) =~= frame);
    assert(frame.take(0) =~= Seq::<u8>::empty());
    lemma_feed_from(payload, chunks, 0);
}

/// Progress reported by [`FrameReader::feed`]: either the frame is still
/// incomplete, or it is complete and the payload between the two framing
/// NUL bytes is handed out.
pub enum ReadProgress {
    NeedMore,
    Complete(Vec<u8>),
}

/// Accumulates the bytes of one incoming frame. The buffer is bounded by
/// [`crate::MAX_MESSAGE_SIZE`]: a misbehaving peer cannot make it grow
/// without limit.
pub struct FrameReader {
    buf: Vec<u8>,
}

impl FrameReader {
    /// The bytes accumulated so far.
    pub closed spec fn view(&self) -> Seq<u8> {
        self.buf@
    }

    /// The bound on the buffer always holds.
    pub closed spec fn wf(&self) -> bool {
        self.buf@.len() <= MAX_MESSAGE_SIZE
    }

    /// A reader with nothing accumulated yet.
    pub fn new() -> (r: FrameReader)
        ensures
            r@ == Seq::<u8>::empty(),
            r.wf(),
    {
        FrameReader { buf: Vec::new() }
    }

    /// Accumulates the bytes of one read cycle, exactly as [`spec_feed`]
    /// describes: an empty read is `UnexpectedEndOfStream`, growth past
    /// capacity is `MessageTooLarge` (both leave the buffer unchanged), and
    /// a complete frame empties the reader and hands out the payload.
    pub fn feed(&mut self, chunk: &[u8]) -> (r: Result<ReadProgress, Error>)
        requires
            old(self).wf(),
        ensures
            final(self).wf(),
            match spec_feed(old(self)@, chunk@) {
                FeedOutcome::Eof => {
                    &&& r == Err::<ReadProgress, Error>(Error::UnexpectedEndOfStream)
                    &&& final(self)@ == old(self)@
                },
                FeedOutcome::Overflow => {
                    &&& r == Err::<ReadProgress, Error>(Error::MessageTooLarge)
                    &&& final(self)@ == old(self)@
                },
                FeedOutcome::More(s) => {
                    &&& r matches Ok(ReadProgress::NeedMore)
                    &&& final(self)@ == s
                },
                FeedOutcome::Done(p) => {
                    &&& r matches Ok(ReadProgress::Complete(payload)) && payload@ == p
                    &&& final(self)@ == Seq::<u8>::empty()
                },
            },
    {
        if chunk.len() == 0 {
            return Err(Error::UnexpectedEndOfStream);
        }
        if chunk.len() > MAX_MESSAGE_SIZE - self.buf.len() {
            return Err(Error::MessageTooLarge);
        }
        self.buf.extend_from_slice(chunk);
        let len = self.buf.len();
        if len > 1 && self.buf[len - 1] == 0u8 {
            let mut payload: Vec<u8> = Vec::new();
            let mut i: usize = 1;
            while i < len - 1
                invariant
                    1 <= i <= len - 1,
                    len == self.buf@.len(),
                    2 <= len,
                    payload@ == self.buf@.subrange(1, i as int),
                decreases len - 1 - i,
            {
                payload.push(self.buf[i]);
                i = i + 1;
                proof {
                    assert(self.buf@.subrange(1, i as int)
                        == self.buf@.subrange(1, i - 1).push(self.buf@[i - 1]));
                }
            }
            self.buf = Vec::new();
            Ok(ReadProgress::Complete(payload))
        } else {
            Ok(ReadProgress::NeedMore)
        }
    }
}

} // verus!
