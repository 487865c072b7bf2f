//! Message framing over a byte stream: the read-until-short-read
//! discipline. The transport reads into a fixed-size buffer; a full
//! buffer means more data follows, a short read ends the message, and a
//! zero-byte read means the peer closed the connection.
//!
//! This is a heuristic framing, not a length-prefixed protocol: it
//! assumes the peer never ends a message on an exact buffer boundary.

use vstd::prelude::*;

verus! {

/// The fixed read-buffer capacity, in bytes.
pub const BUFFER_SIZE: usize = 1024 * 8;

/// Where a framed read stands after some chunks.
#[derive(Clone, Copy, Debug, PartialEq, Eq, Structural)]
pub enum FrameState {
    /// The last chunk filled the buffer: more data follows.
    Reading,
    /// The last chunk was short: the message is complete.
    Complete,
    /// A zero-byte read: the peer closed the connection. What was
    /// accumulated is not a complete message.
    Closed,
}

/// One step of the framing discipline: the state after one more chunk
/// of `n` bytes has been read into a buffer of `cap` bytes.
pub open spec fn frame_step(n: nat, cap: nat) -> FrameState {
    if n == 0 {
        FrameState::Closed
    } else if n < cap {
        FrameState::Complete
    } else {
        FrameState::Reading
    }
}

/// The whole read loop over a sequence of chunks: the accumulated bytes
/// and the state after feeding them in order, stopping at the first
/// chunk that ends the loop.
pub open spec fn frame_outcome(chunks: Seq<Seq<u8>>, cap: nat) -> (Seq<u8>, FrameState)
    decreases chunks.len(),
{
    if chunks.len() == 0 {
        (Seq::empty(), FrameState::Reading)
    } else {
        let (acc, st) = frame_outcome(chunks.subrange(0, chunks.len() - 1), cap);
        if st is Reading {
            (acc + chunks[chunks.len() - 1], frame_step(chunks[chunks.len() - 1].len(), cap))
        } else {
            (acc, st)
        }
    }
}

/// The receiving end of one framed message: feeds each chunk the
/// transport read and accumulates the message bytes.
pub struct FrameReader {
    pub data: Vec<u8>,
    pub state: FrameState,
}

impl FrameReader {
    /// An empty reader, ready for the first chunk.
    pub fn new() -> (r: FrameReader)
        ensures
            r.data@ == Seq::<u8>::empty(),
            r.state == FrameState::Reading,
    {
        FrameReader { data: Vec::new(), state: FrameState::Reading }
    }

    /// Feeds one chunk of at most [`BUFFER_SIZE`] bytes, as returned by
    /// one transport read: appends its bytes and decides whether the
    /// message is complete, more data follows, or the peer closed.
    pub fn feed(&mut self, chunk: &[u8])
        requires
            old(self).state == FrameState::Reading,
            chunk@.len() <= BUFFER_SIZE,
        ensures
            final(self).data@ == old(self).data@ + chunk@,
            final(self).state == frame_step(chunk@.len(), BUFFER_SIZE as nat),
    {
        let mut k: usize = 0;
        let n = chunk.len();
        while k < n
            invariant
                k <= n,
                n == chunk@.len(),
                self.data@ == old(self).data@ + chunk@.subrange(0, k as int),
                self.state == old(self).state,
            decreases n - k,
        {
            self.data.push(chunk[k]);
            proof {
                assert(old(self).data@ + chunk@.subrange(0, k as int + 1) =~= (old(self).data@
                    + chunk@.subrange(0, k as int)).push(chunk@[k as int]));
            }
            k += 1;
        }
        proof {
            assert(chunk@.subrange(0, chunk@.len() as int) =~= chunk@);
        }
        if n == 0 {
            self.state = FrameState::Closed;
        } else if n < BUFFER_SIZE {
            self.state = FrameState::Complete;
        } else {
            self.state = FrameState::Reading;
        }
    }

    /// Whether the reader still expects another chunk.
    pub fn wants_more(&self) -> (r: bool)
        ensures
            r == (self.state == FrameState::Reading),
    {
        matches!(self.state, FrameState::Reading)
    }

    /// Hands out the accumulated message bytes and the final state.
    pub fn into_message(self) -> (r: (Vec<u8>, FrameState))
        ensures
            r.0@ == self.data@,
            r.1 == self.state,
    {
        (self.data, self.state)
    }
}

/// The read loop law: two buffer-filling chunks followed by a short,
/// non-empty one accumulate exactly their concatenation and end the
/// loop with a complete message after the third chunk.
pub proof fn lemma_read_loop_short_read(a: Seq<u8>, b: Seq<u8>, c: Seq<u8>)
    requires
        a.len() == BUFFER_SIZE,
        b.len() == BUFFER_SIZE,
        0 < c.len() < BUFFER_SIZE,
    ensures
        frame_outcome(seq![a, b, c], BUFFER_SIZE as nat) == (a + b + c, FrameState::Complete),
{
    let chunks = seq![a, b, c];
    assert(chunks.subrange(0, 2) =~= seq![a, b]);
    assert(seq![a, b].subrange(0, 1) =~= seq![a]);
    assert(seq![a].subrange(0, 0) =~= Seq::<Seq<u8>>::empty());
    assert(Seq::<u8>::empty() + a =~= a);
    reveal_with_fuel(frame_outcome, 4);
}

/// The read loop law, closed connection: a single zero-length chunk
/// accumulates nothing and reports the connection closed.
pub proof fn lemma_read_loop_closed(z: Seq<u8>)
    requires
        z.len() == 0,
    ensures
        frame_outcome(seq![z], BUFFER_SIZE as nat) == (Seq::<u8>::empty(), FrameState::Closed),
{
    let chunks = seq![z];
    assert(chunks.subrange(0, 0) =~= Seq::<Seq<u8>>::empty());
    assert(Seq::<u8>::empty() + z =~= Seq::<u8>::empty());
    reveal_with_fuel(frame_outcome, 2);
}

} // verus!
