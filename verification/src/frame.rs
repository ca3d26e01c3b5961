//! The streaming frame state machine of the control channel.
//!
//! A frame arrives as a two-byte length header and then `expected` bytes of
//! payload, possibly spread over many reads. The channel is either waiting
//! for a header or accumulating a body; a body never holds more bytes than
//! the header announced, and the state returns to `AwaitingHeader` exactly
//! when a completed payload is handed out. `lemma_partial_read_independence`
//! shows that how a payload was split across reads cannot change what is
//! handed out.

use vstd::prelude::*;

use crate::codec::frame_len;

verus! {

/// Parse state of the control channel between readiness notifications.
#[derive(Debug)]
pub enum FrameState {
    /// No frame in progress; the next two bytes are a length header.
    AwaitingHeader,
    /// A header announced `expected` payload bytes; `buffer` holds those
    /// received so far.
    AwaitingBody { expected: u16, buffer: Vec<u8> },
}

/// One step of body accumulation: the bytes held after a chunk arrives, and
/// the payload handed out if the chunk completed the frame.
pub open spec fn accept_model(expected: nat, got: Seq<u8>, chunk: Seq<u8>) -> (Seq<u8>, Option<
    Seq<u8>,
>) {
    let joined = got + chunk;
    if joined.len() == expected {
        (Seq::empty(), Some(joined))
    } else {
        (joined, None)
    }
}

impl FrameState {
    /// The body never outgrows the announced length.
    pub open spec fn wf(&self) -> bool {
        match self {
            FrameState::AwaitingHeader => true,
            FrameState::AwaitingBody { expected, buffer } => buffer@.len() <= *expected,
        }
    }

    /// A fresh channel awaits its first header.
    pub fn new() -> (r: FrameState)
        ensures
            r == FrameState::AwaitingHeader,
    {
        FrameState::AwaitingHeader
    }

    /// Consumes a length header read off the socket, in wire order.
    pub fn start_body(self, b0: u8, b1: u8) -> (r: FrameState)
        requires
            self is AwaitingHeader,
        ensures
            r is AwaitingBody,
            r->AwaitingBody_expected as nat == b0 as nat + 256 * b1 as nat,
            r->AwaitingBody_buffer@ == Seq::<u8>::empty(),
            r.wf(),
    {
        let expected = frame_len(b0, b1);
        FrameState::AwaitingBody { expected, buffer: Vec::new() }
    }

    /// How many payload bytes are still owed.
    pub fn missing(&self) -> (r: usize)
        requires
            self is AwaitingBody,
            self.wf(),
        ensures
            r == self->AwaitingBody_expected - self->AwaitingBody_buffer@.len(),
    {
        match self {
            FrameState::AwaitingBody { expected, buffer } => (*expected as usize) - buffer.len(),
            FrameState::AwaitingHeader => 0,
        }
    }

    /// Accepts one read's worth of payload bytes. Short chunks accumulate;
    /// the chunk that completes the body yields the payload, and the state
    /// returns to `AwaitingHeader` exactly then.
    pub fn accept_chunk(self, chunk: &[u8]) -> (r: (FrameState, Option<Vec<u8>>))
        requires
            self is AwaitingBody,
            self.wf(),
            chunk@.len() <= self->AwaitingBody_expected - self->AwaitingBody_buffer@.len(),
        ensures
            r.0.wf(),
            ({
                let step = accept_model(
                    self->AwaitingBody_expected as nat,
                    self->AwaitingBody_buffer@,
                    chunk@,
                );
                match step.1 {
                    Some(payload) => r.0 is AwaitingHeader && (r.1 matches Some(p) && p@
                        == payload),
                    None => r.1 is None && r.0 is AwaitingBody
                        && r.0->AwaitingBody_expected == self->AwaitingBody_expected
                        && r.0->AwaitingBody_buffer@ == step.0,
                }
            }),
    {
        match self {
            FrameState::AwaitingBody { expected, mut buffer } => {
                let ghost got = buffer@;
                let n = chunk.len();
                let mut i: usize = 0;
                while i < n
                    invariant
                        n == chunk@.len(),
                        i <= n,
                        buffer@ == got + chunk@.take(i as int),
                    decreases n - i,
                {
                    buffer.push(chunk[i]);
                    proof {
                        assert(got + chunk@.take(i + 1) =~= (got + chunk@.take(i as int)).push(
                            chunk@[i as int],
                        ));
                    }
                    i += 1;
                }
                proof {
                    assert(got + chunk@.take(n as int) =~= got + chunk@);
                }
                if buffer.len() == expected as usize {
                    (FrameState::AwaitingHeader, Some(buffer))
                } else {
                    (FrameState::AwaitingBody { expected, buffer }, None)
                }
            },
            FrameState::AwaitingHeader => (FrameState::AwaitingHeader, None),
        }
    }
}

/// All chunk contents, in arrival order.
pub open spec fn concat_chunks(chunks: Seq<Seq<u8>>) -> Seq<u8>
    decreases chunks.len(),
{
    if chunks.len() == 0 {
        Seq::empty()
    } else {
        chunks[0] + concat_chunks(chunks.skip(1))
    }
}

/// Runs the body accumulation over a whole sequence of chunks, returning the
/// held bytes and the last step's output.
pub open spec fn run_chunks(expected: nat, got: Seq<u8>, chunks: Seq<Seq<u8>>) -> (Seq<u8>, Option<
    Seq<u8>,
>)
    decreases chunks.len(),
{
    if chunks.len() == 0 {
        (got, None)
    } else {
        let step = accept_model(expected, got, chunks[0]);
        if chunks.len() == 1 {
            step
        } else {
            run_chunks(expected, step.0, chunks.skip(1))
        }
    }
}

proof fn lemma_run_chunks(expected: nat, got: Seq<u8>, chunks: Seq<Seq<u8>>)
    requires
        chunks.len() >= 1,
        forall|i: int| 0 <= i < chunks.len() ==> chunks[i].len() > 0,
        got.len() + concat_chunks(chunks).len() == expected,
    ensures
        run_chunks(expected, got, chunks).1 == Some(got + concat_chunks(chunks)),
    decreases chunks.len(),
{
    let joined = got + chunks[0];
    if chunks.len() == 1 {
        assert(concat_chunks(chunks.skip(1)) == Seq::<u8>::empty());
        assert(concat_chunks(chunks) =~= chunks[0]);
        assert(joined.len() == expected);
        assert(got + concat_chunks(chunks) =~= joined);
    } else {
        assert(chunks.skip(1)[0] == chunks[1]);
        assert(concat_chunks(chunks.skip(1)).len() >= chunks[1].len());
        assert(joined.len() < expected);
        assert(forall|i: int|
            0 <= i < chunks.skip(1).len() ==> chunks.skip(1)[i].len() > 0);
        assert(joined.len() + concat_chunks(chunks.skip(1)).len() == expected);
        lemma_run_chunks(expected, joined, chunks.skip(1));
        assert(joined + concat_chunks(chunks.skip(1)) =~= got + concat_chunks(chunks));
    }
}

/// Partial-read independence: a body of length `expected`, split into any
/// number of non-empty chunks in any way, is handed out exactly as if it had
/// arrived in one read — the same bytes, completed on the last chunk and not
/// before. Decoding the result therefore cannot depend on the split.
pub proof fn lemma_partial_read_independence(expected: nat, chunks: Seq<Seq<u8>>)
    requires
        chunks.len() >= 1,
        forall|i: int| 0 <= i < chunks.len() ==> chunks[i].len() > 0,
        concat_chunks(chunks).len() == expected,
    ensures
        run_chunks(expected, Seq::empty(), chunks).1 == Some(concat_chunks(chunks)),
        run_chunks(expected, Seq::empty(), seq![concat_chunks(chunks)]).1 == Some(
            concat_chunks(chunks),
        ),
{
    lemma_run_chunks(expected, Seq::empty(), chunks);
    assert(Seq::<u8>::empty() + concat_chunks(chunks) =~= concat_chunks(chunks));
    let single = seq![concat_chunks(chunks)];
    assert(run_chunks(expected, Seq::empty(), single).1 == Some(concat_chunks(chunks))) by {
        assert(Seq::<u8>::empty() + single[0] =~= concat_chunks(chunks));
    };
}

} // verus!
