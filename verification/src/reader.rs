//! Gathering the bytes of one request from a connection, read by read.
//!
//! Each read appends to what the earlier reads brought, and the whole buffer
//! is parsed anew: nothing is kept from an earlier, incomplete parse.

use vstd::prelude::*;

use crate::buffer::PooledBuffer;
use crate::head::{head_outcome, parse_head, HeadOutcome};
use crate::parser::{assemble, frame_outcome, Decoded, ParseError, ParseOutcome, DEFAULT_MAX_HEADERS};
use crate::request::{Request, RequestView};

verus! {

/// How large a frame may grow unless the caller says otherwise.
pub const DEFAULT_MAX_FRAME_LEN: usize = 1048576;

/// The bounds that a request has to keep.
#[derive(Debug, Clone, Copy)]
pub struct Limits {
    /// The most header fields that a request may have.
    pub max_headers: u16,
    /// The most bytes that are buffered for one request.
    pub max_frame_len: usize,
}

impl Default for Limits {
    fn default() -> (limits: Limits)
        ensures
            limits.max_headers == DEFAULT_MAX_HEADERS,
            limits.max_frame_len == DEFAULT_MAX_FRAME_LEN,
    {
        Limits { max_headers: DEFAULT_MAX_HEADERS, max_frame_len: DEFAULT_MAX_FRAME_LEN }
    }
}

/// Why reading a request failed.
pub enum ReadFailure {
    /// The connection ended before the request did.
    Eof,
    /// The request does not fit into `max_frame_len` bytes.
    TooLarge,
    /// The bytes are no request.
    Malformed(Seq<char>),
}

/// Why reading a request failed.
#[derive(Debug)]
pub enum ReadError {
    /// The connection ended before the request did.
    Eof,
    /// The request does not fit into `max_frame_len` bytes.
    TooLarge,
    /// The bytes are no request.
    Malformed(ParseError),
}

impl View for ReadError {
    type V = ReadFailure;

    open spec fn view(&self) -> ReadFailure {
        match self {
            ReadError::Eof => ReadFailure::Eof,
            ReadError::TooLarge => ReadFailure::TooLarge,
            ReadError::Malformed(e) => ReadFailure::Malformed(e@),
        }
    }
}

/// What one read comes to.
pub enum StepView {
    /// The request is not all there; this is what has been gathered so far.
    NeedMore(Seq<u8>),
    Ready(RequestView),
    Failed(ReadFailure),
}

/// What a read of `chunk` comes to after `buffered` has been gathered, where
/// `head` is what the head parser makes of the two together.
///
/// A read of no bytes is the end of the connection. A chunk that would take
/// the buffer over `max_frame_len` is refused.
pub open spec fn feed_outcome(
    buffered: Seq<u8>,
    chunk: Seq<u8>,
    limits: Limits,
    head: HeadOutcome,
) -> StepView {
    if chunk.len() == 0 {
        StepView::Failed(ReadFailure::Eof)
    } else if buffered.len() + chunk.len() > limits.max_frame_len {
        StepView::Failed(ReadFailure::TooLarge)
    } else {
        match frame_outcome(buffered + chunk, head, limits.max_headers as nat) {
            ParseOutcome::Complete(request, _) => StepView::Ready(request),
            ParseOutcome::Incomplete => StepView::NeedMore(buffered + chunk),
            ParseOutcome::Malformed(reason) => StepView::Failed(ReadFailure::Malformed(reason)),
        }
    }
}

/// What a run of reads comes to.
pub enum RunView {
    /// Every chunk was taken and the request is still not all there.
    Starved(Seq<u8>),
    /// The request, and the number of reads that it took.
    Ready(RequestView, nat),
    /// The failure, and the number of reads that it took.
    Failed(ReadFailure, nat),
}

impl RunView {
    /// The same outcome after `n` more reads in front.
    pub open spec fn later(self, n: nat) -> RunView {
        match self {
            RunView::Starved(buffered) => RunView::Starved(buffered),
            RunView::Ready(request, reads) => RunView::Ready(request, reads + n),
            RunView::Failed(failure, reads) => RunView::Failed(failure, reads + n),
        }
    }
}

/// What reading `chunks` one after the other comes to, after `buffered` has
/// been gathered, for a head parser `parser`. Reading stops with the first
/// read that yields a request or fails.
pub open spec fn run(
    parser: spec_fn(Seq<u8>) -> HeadOutcome,
    buffered: Seq<u8>,
    chunks: Seq<Seq<u8>>,
    limits: Limits,
) -> RunView
    decreases chunks.len(),
{
    if chunks.len() == 0 {
        RunView::Starved(buffered)
    } else {
        match feed_outcome(buffered, chunks[0], limits, parser(buffered + chunks[0])) {
            StepView::NeedMore(gathered) => run(parser, gathered, chunks.drop_first(), limits).later(1),
            StepView::Ready(request) => RunView::Ready(request, 1),
            StepView::Failed(failure) => RunView::Failed(failure, 1),
        }
    }
}

/// The head parser of this library, for requests of up to `max_headers` fields.
pub open spec fn head_parser(max_headers: nat) -> spec_fn(Seq<u8>) -> HeadOutcome {
    |buf: Seq<u8>| head_outcome(buf, max_headers)
}

/// What a list of chunks holds.
pub open spec fn chunk_views(chunks: Seq<Vec<u8>>) -> Seq<Seq<u8>> {
    Seq::new(chunks.len(), |i: int| chunks[i]@)
}

/// Gathers the bytes of one request.
#[derive(Debug)]
pub struct FrameReader {
    buf: PooledBuffer,
    limits: Limits,
}

/// What one read comes to.
#[derive(Debug)]
pub enum ReadStep {
    /// The request is not all there: read again, and feed this reader.
    NeedMore(FrameReader),
    /// The request. It holds the reader's buffer.
    Ready(Request),
    /// The failure, and the reader's buffer.
    Failed(ReadError, PooledBuffer),
}

impl ReadStep {
    /// Whether this is what a read comes to that `outcome` describes, for a
    /// reader with these `limits` that had gathered `buffered` and was fed
    /// `chunk`.
    pub open spec fn agrees(&self, buffered: Seq<u8>, chunk: Seq<u8>, limits: Limits, outcome: StepView) -> bool {
        match self {
            ReadStep::NeedMore(reader) => {
                &&& outcome == StepView::NeedMore(reader.buffered())
                &&& reader.limits() == limits
            },
            ReadStep::Ready(request) => outcome == StepView::Ready(request@),
            ReadStep::Failed(e, back) => {
                &&& outcome == StepView::Failed(e@)
                &&& back@ == if e is Malformed {
                    buffered + chunk
                } else {
                    buffered
                }
            },
        }
    }

    /// Whether this is what a run of reads comes to that `outcome` describes.
    pub open spec fn concludes(&self, limits: Limits, outcome: RunView) -> bool {
        match self {
            ReadStep::NeedMore(reader) => {
                &&& outcome == RunView::Starved(reader.buffered())
                &&& reader.limits() == limits
            },
            ReadStep::Ready(request) => outcome is Ready && outcome->Ready_0 == request@,
            ReadStep::Failed(e, _) => outcome is Failed && outcome->Failed_0 == e@,
        }
    }
}

impl FrameReader {
    #[verifier::type_invariant]
    spec fn within_limit(self) -> bool {
        self.buf@.len() <= self.limits.max_frame_len
    }

    /// The bytes gathered so far.
    pub closed spec fn buffered(&self) -> Seq<u8> {
        self.buf@
    }

    pub closed spec fn limits(&self) -> Limits {
        self.limits
    }

    /// A reader that gathers into `buf`. Whatever `buf` held is dropped.
    pub fn new(buf: PooledBuffer, limits: Limits) -> (reader: FrameReader)
        ensures
            reader.buffered() == Seq::<u8>::empty(),
            reader.limits() == limits,
    {
        let mut buf = buf;
        buf.clear();
        FrameReader { buf, limits }
    }

    /// The bytes gathered so far.
    pub fn gathered(&self) -> (bytes: &[u8])
        ensures
            bytes@ == self.buffered(),
            bytes@.len() <= self.limits().max_frame_len,
    {
        proof {
            use_type_invariant(self);
        }
        self.buf.as_slice()
    }

    /// The reader gives up its buffer, for the pool to take back.
    pub fn into_buffer(self) -> (buf: PooledBuffer)
        ensures
            buf@ == self.buffered(),
    {
        self.buf
    }

    /// Takes the bytes of one read.
    pub fn feed(self, chunk: &[u8]) -> (step: ReadStep)
        ensures
            step.agrees(
                self.buffered(),
                chunk@,
                self.limits(),
                feed_outcome(
                    self.buffered(),
                    chunk@,
                    self.limits(),
                    head_outcome(self.buffered() + chunk@, self.limits().max_headers as nat),
                ),
            ),
    {
        proof {
            use_type_invariant(&self);
        }
        let limits = self.limits;
        let mut buf = self.buf;
        if chunk.len() == 0 {
            return ReadStep::Failed(ReadError::Eof, buf);
        }
        if chunk.len() > limits.max_frame_len - buf.len() {
            return ReadStep::Failed(ReadError::TooLarge, buf);
        }
        buf.extend(chunk);
        let head = parse_head(buf.as_slice(), limits.max_headers);
        match assemble(buf, head, limits.max_headers) {
            Decoded::Request(request) => ReadStep::Ready(request),
            Decoded::Partial(back) => ReadStep::NeedMore(FrameReader { buf: back, limits }),
            Decoded::Malformed(e, back) => ReadStep::Failed(ReadError::Malformed(e), back),
        }
    }

    /// Takes the bytes of several reads, one read after the other, until one
    /// of them yields a request or fails. Also says how many reads were taken.
    pub fn feed_all(self, chunks: &Vec<Vec<u8>>) -> (r: (ReadStep, usize))
        ensures
            ({
                let outcome = run(
                    head_parser(self.limits().max_headers as nat),
                    self.buffered(),
                    chunk_views(chunks@),
                    self.limits(),
                );
                &&& r.0.concludes(self.limits(), outcome)
                &&& r.1 == match outcome {
                    RunView::Starved(_) => chunks@.len(),
                    RunView::Ready(_, reads) => reads,
                    RunView::Failed(_, reads) => reads,
                }
            }),
    {
        let ghost parser = head_parser(self.limits().max_headers as nat);
        let ghost all = chunk_views(chunks@);
        let ghost limits = self.limits();
        let ghost start = self.buffered();
        let mut reader = self;
        let mut i: usize = 0;
        proof {
            assert(all.skip(0) =~= all);
            assert(run(parser, start, all, limits).later(0) == run(parser, start, all, limits));
        }
        while i < chunks.len()
            invariant
                i <= chunks@.len(),
                all == chunk_views(chunks@),
                parser == head_parser(limits.max_headers as nat),
                limits == self.limits(),
                start == self.buffered(),
                reader.limits() == limits,
                run(parser, start, all, limits) == run(
                    parser,
                    reader.buffered(),
                    all.skip(i as int),
                    limits,
                ).later(i as nat),
            decreases chunks@.len() - i,
        {
            proof {
                let rest = all.skip(i as int);
                assert(rest[0] == chunks@[i as int]@);
                assert(rest.drop_first() =~= all.skip(i + 1));
                let gathered = reader.buffered() + rest[0];
                assert(parser(gathered) == head_outcome(gathered, limits.max_headers as nat));
                let tail = run(parser, gathered, all.skip(i + 1), limits);
                assert(tail.later(1).later(i as nat) == tail.later((i + 1) as nat));
            }
            match reader.feed(chunks[i].as_slice()) {
                ReadStep::NeedMore(next) => {
                    reader = next;
                },
                ReadStep::Ready(request) => {
                    return (ReadStep::Ready(request), i + 1);
                },
                ReadStep::Failed(e, back) => {
                    return (ReadStep::Failed(e, back), i + 1);
                },
            }
            i += 1;
        }
        proof {
            assert(all.skip(i as int).len() == 0);
        }
        (ReadStep::NeedMore(reader), i)
    }
}

/// On a head parser that reads the head of `whole` the same from every prefix
/// of `whole` that holds it, and sees no head in a shorter prefix.
pub open spec fn reads_head_stably(parser: spec_fn(Seq<u8>) -> HeadOutcome, whole: Seq<u8>) -> bool {
    &&& parser(whole) is Complete
    &&& forall|k: int|
        0 <= k <= whole.len() ==> #[trigger] parser(whole.take(k)) == if k < parser(whole)->Complete_1 {
            HeadOutcome::Partial
        } else {
            parser(whole)
        }
}

/// Whether `whole` is one request and nothing else.
pub open spec fn is_one_request(
    parser: spec_fn(Seq<u8>) -> HeadOutcome,
    whole: Seq<u8>,
    limits: Limits,
) -> bool {
    &&& whole.len() <= limits.max_frame_len
    &&& reads_head_stably(parser, whole)
    &&& frame_outcome(whole, parser(whole), limits.max_headers as nat) matches ParseOutcome::Complete(_, consumed)
    &&& consumed == whole.len()
}

/// The request that `whole` is.
pub open spec fn request_of(
    parser: spec_fn(Seq<u8>) -> HeadOutcome,
    whole: Seq<u8>,
    limits: Limits,
) -> RequestView {
    frame_outcome(whole, parser(whole), limits.max_headers as nat)->Complete_0
}

/// Of the bytes of one request, no shorter run from the front is a request or
/// malformed: the reader goes on to read until it has them all.
pub proof fn lemma_shorter_is_incomplete(
    parser: spec_fn(Seq<u8>) -> HeadOutcome,
    whole: Seq<u8>,
    limits: Limits,
    len: int,
)
    requires
        is_one_request(parser, whole, limits),
        0 <= len < whole.len(),
    ensures
        frame_outcome(whole.take(len), parser(whole.take(len)), limits.max_headers as nat)
            == ParseOutcome::Incomplete,
{
}

proof fn lemma_rest_of_run(
    parser: spec_fn(Seq<u8>) -> HeadOutcome,
    buffered: Seq<u8>,
    chunks: Seq<Seq<u8>>,
    whole: Seq<u8>,
    limits: Limits,
)
    requires
        chunks.len() > 0,
        forall|i: int| 0 <= i < chunks.len() ==> (#[trigger] chunks[i]).len() > 0,
        buffered + chunks.flatten() == whole,
        is_one_request(parser, whole, limits),
    ensures
        run(parser, buffered, chunks, limits) == RunView::Ready(request_of(parser, whole, limits), chunks.len()),
    decreases chunks.len(),
{
    let rest = chunks.drop_first();
    let gathered = buffered + chunks[0];
    assert(chunks.flatten() == chunks[0] + rest.flatten());
    assert(whole =~= gathered + rest.flatten());
    assert(whole.take(gathered.len() as int) =~= gathered);
    if rest.len() == 0 {
        assert(rest.flatten() =~= Seq::<u8>::empty());
        assert(gathered =~= whole);
    } else {
        assert(rest[0] == chunks[1]);
        assert(rest.flatten() == rest[0] + rest.drop_first().flatten());
        assert(gathered.len() < whole.len());
        assert forall|i: int| 0 <= i < rest.len() implies (#[trigger] rest[i]).len() > 0 by {
            assert(rest[i] == chunks[i + 1]);
        }
        lemma_rest_of_run(parser, gathered, rest, whole, limits);
    }
}

/// However the bytes of one request are cut into reads, the reader yields the
/// request that the uncut bytes are, and it yields it with the last read.
///
/// This is stated for every head parser that reads a head the same from every
/// prefix that holds it, and for chunks that are not empty: an empty read is
/// the end of the connection.
pub proof fn lemma_chunked_reads_recover_request(
    parser: spec_fn(Seq<u8>) -> HeadOutcome,
    chunks: Seq<Seq<u8>>,
    limits: Limits,
)
    requires
        chunks.len() > 0,
        forall|i: int| 0 <= i < chunks.len() ==> (#[trigger] chunks[i]).len() > 0,
        is_one_request(parser, chunks.flatten(), limits),
    ensures
        run(parser, Seq::empty(), chunks, limits) == RunView::Ready(
            request_of(parser, chunks.flatten(), limits),
            chunks.len(),
        ),
{
    assert(Seq::<u8>::empty() + chunks.flatten() =~= chunks.flatten());
    lemma_rest_of_run(parser, Seq::empty(), chunks, chunks.flatten(), limits);
}

} // verus!
