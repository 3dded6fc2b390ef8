//! One connection from the moment it is accepted to the moment it is closed.
//!
//! A connection serves one request. It is a value that takes events and
//! answers each with the next thing to do: the program reads and writes the
//! socket, runs the middleware and the handler, and reports back. Nothing in
//! a connection refers to another connection.

use vstd::prelude::*;

use crate::buffer::PooledBuffer;
use crate::head::head_outcome;
use crate::reader::{
    chunk_views, feed_outcome, head_parser, is_one_request, lemma_shorter_is_incomplete, request_of,
    FrameReader, Limits, ReadError, ReadFailure, ReadStep, StepView,
};
use crate::request::{Request, RequestView};
use crate::response::Response;
use crate::router::{composite_key, matched, not_found, params_view, Dispatch, Params, H1};

verus! {

/// Why a connection was given up.
pub enum Failure {
    /// The socket failed.
    Io,
    /// No request could be read.
    Read(ReadFailure),
    /// A middleware refused the request.
    Middleware,
    /// The handler failed.
    Handler,
    /// An event came that the connection was not waiting for.
    OutOfTurn,
}

/// Why a connection was given up.
#[derive(Debug)]
pub enum ConnError {
    /// The socket failed.
    Io,
    /// No request could be read.
    Read(ReadError),
    /// A middleware refused the request.
    Middleware,
    /// The handler failed.
    Handler,
    /// An event came that the connection was not waiting for.
    OutOfTurn,
}

impl View for ConnError {
    type V = Failure;

    open spec fn view(&self) -> Failure {
        match self {
            ConnError::Io => Failure::Io,
            ConnError::Read(e) => Failure::Read(e@),
            ConnError::Middleware => Failure::Middleware,
            ConnError::Handler => Failure::Handler,
            ConnError::OutOfTurn => Failure::OutOfTurn,
        }
    }
}

/// What the program reports to a connection.
#[derive(Debug)]
pub enum Event {
    /// The connection's task has started.
    Spawned,
    /// A read brought these bytes; none at all if the peer has closed.
    Read(Vec<u8>),
    ReadFailed,
    /// The middleware is done with the request and hands it back.
    MiddlewarePassed(Request),
    MiddlewareFailed(Request),
    /// The handler has answered.
    HandlerReturned(Response, Request),
    HandlerFailed(Request),
    /// The response is on the wire.
    Written,
    WriteFailed,
}

/// What a connection asks the program to do next.
#[derive(Debug)]
pub enum Action {
    /// Read from the socket and report what came.
    Read,
    /// Run this middleware on the request.
    RunMiddleware { middleware: usize, request: Request },
    /// Call this handler with the request and the parameters of its route.
    CallHandler { handler: usize, request: Request, params: Params },
    /// Encode the response and write it to the socket.
    Write(Response),
    /// Close the socket; the buffer goes back to the pool.
    Close(PooledBuffer),
    /// Close the socket and log the error; the buffer, if the connection
    /// still has it, goes back to the pool.
    Abort(ConnError, Option<PooledBuffer>),
    /// Nothing: the connection is over.
    Nothing,
}

/// A connection and where it stands.
#[derive(Debug)]
pub enum Connection {
    /// Accepted, with a buffer from the pool; its task has not started.
    Accepted(PooledBuffer, Limits),
    /// Gathering the request.
    Reading(FrameReader),
    /// The request is with the middleware at this place of the chain.
    Parsed(usize),
    /// The request is with its handler.
    Dispatching,
    /// The response is being written.
    Responding(PooledBuffer),
    Closed,
    Errored,
}

/// What an optional buffer holds.
pub open spec fn held(buf: Option<PooledBuffer>) -> Option<Seq<u8>> {
    match buf {
        Some(buf) => Some(buf@),
        None => None,
    }
}

/// The frame of the request that an event brings with it, if it brings one.
pub open spec fn brought(event: Event) -> Option<Seq<u8>> {
    match event {
        Event::MiddlewarePassed(request) => Some(request@.data),
        Event::MiddlewareFailed(request) => Some(request@.data),
        Event::HandlerReturned(_, request) => Some(request@.data),
        Event::HandlerFailed(request) => Some(request@.data),
        _ => None,
    }
}

/// The connection is given up for `failure`, and the buffer that it had
/// comes back, if it had one.
pub open spec fn aborted(after: Connection, action: Action, failure: Failure, buffer: Option<Seq<u8>>) -> bool {
    &&& after is Errored
    &&& action matches Action::Abort(e, back)
    &&& e@ == failure
    &&& held(back) == buffer
}

/// What is in the buffer of a reader whose read has failed: the chunk too
/// where the bytes were parsed, and only what was gathered before where the
/// chunk was refused.
pub open spec fn left_behind(buffered: Seq<u8>, chunk: Seq<u8>, failure: ReadFailure) -> Seq<u8> {
    if failure is Malformed {
        buffered + chunk
    } else {
        buffered
    }
}

/// The request goes on to the middleware at place `next` of the chain, or,
/// behind the last middleware, to where the router sends it: to its handler,
/// or straight to a `404 Not Found` response.
pub open spec fn proceeds(app: &H1, request: RequestView, next: nat, after: Connection, action: Action) -> bool {
    if next < app.chain().len() {
        &&& after == Connection::Parsed(next as usize)
        &&& action matches Action::RunMiddleware { middleware, request: r }
        &&& middleware == app.chain()[next as int]
        &&& r@ == request
    } else {
        match matched(app.routes(), composite_key(request.head.method, request.head.path)) {
            Some((handler, params)) => {
                &&& after is Dispatching
                &&& action matches Action::CallHandler { handler: h, request: r, params: p }
                &&& h == handler
                &&& r@ == request
                &&& params_view(p@) == params
            },
            None => {
                &&& after matches Connection::Responding(buf)
                &&& buf@ == request.data
                &&& action matches Action::Write(response)
                &&& response@ == not_found()
            },
        }
    }
}

/// Whether `after` and `action` are what the connection `before` makes of
/// `event`.
///
/// Each state waits for its own events. Any other event, and any failure that
/// is reported, ends the connection in `Errored`; the buffer that the
/// connection or the event had comes back with the error. `Closed` and
/// `Errored` take no event any more.
pub open spec fn follows(before: Connection, app: &H1, event: Event, after: Connection, action: Action) -> bool {
    match before {
        Connection::Closed | Connection::Errored => after == before && action is Nothing,
        Connection::Accepted(buf, limits) => match event {
            Event::Spawned => {
                &&& after matches Connection::Reading(reader)
                &&& reader.buffered() == Seq::<u8>::empty()
                &&& reader.limits() == limits
                &&& action is Read
            },
            _ => aborted(after, action, Failure::OutOfTurn, Some(buf@)),
        },
        Connection::Reading(reader) => match event {
            Event::Read(chunk) => match feed_outcome(
                reader.buffered(),
                chunk@,
                reader.limits(),
                head_outcome(reader.buffered() + chunk@, reader.limits().max_headers as nat),
            ) {
                StepView::NeedMore(gathered) => {
                    &&& after matches Connection::Reading(next)
                    &&& next.buffered() == gathered
                    &&& next.limits() == reader.limits()
                    &&& action is Read
                },
                StepView::Ready(request) => proceeds(app, request, 0, after, action),
                StepView::Failed(failure) => aborted(
                    after,
                    action,
                    Failure::Read(failure),
                    Some(left_behind(reader.buffered(), chunk@, failure)),
                ),
            },
            Event::ReadFailed => aborted(after, action, Failure::Io, Some(reader.buffered())),
            _ => aborted(after, action, Failure::OutOfTurn, Some(reader.buffered())),
        },
        Connection::Parsed(place) => match event {
            Event::MiddlewarePassed(request) => proceeds(app, request@, place as nat + 1, after, action),
            Event::MiddlewareFailed(request) => aborted(
                after,
                action,
                Failure::Middleware,
                Some(request@.data),
            ),
            _ => aborted(after, action, Failure::OutOfTurn, brought(event)),
        },
        Connection::Dispatching => match event {
            Event::HandlerReturned(response, request) => {
                &&& after matches Connection::Responding(buf)
                &&& buf@ == request@.data
                &&& action matches Action::Write(r)
                &&& r@ == response@
            },
            Event::HandlerFailed(request) => aborted(after, action, Failure::Handler, Some(request@.data)),
            _ => aborted(after, action, Failure::OutOfTurn, brought(event)),
        },
        Connection::Responding(buf) => match event {
            Event::Written => {
                &&& after is Closed
                &&& action matches Action::Close(back)
                &&& back@ == buf@
            },
            Event::WriteFailed => aborted(after, action, Failure::Io, Some(buf@)),
            _ => aborted(after, action, Failure::OutOfTurn, Some(buf@)),
        },
    }
}

/// The buffer that an event brings with its request, if it brings one.
fn buffer_of(event: Event) -> (back: Option<PooledBuffer>)
    ensures
        held(back) == brought(event),
{
    match event {
        Event::MiddlewarePassed(request) => Some(request.into_buffer()),
        Event::MiddlewareFailed(request) => Some(request.into_buffer()),
        Event::HandlerReturned(_, request) => Some(request.into_buffer()),
        Event::HandlerFailed(request) => Some(request.into_buffer()),
        _ => None,
    }
}

fn proceed(app: &H1, request: Request, next: usize) -> (r: (Connection, Action))
    ensures
        proceeds(app, request@, next as nat, r.0, r.1),
{
    let chain = app.middleware();
    if next < chain.len() {
        (Connection::Parsed(next), Action::RunMiddleware { middleware: chain[next], request })
    } else {
        match app.dispatch(&request) {
            Dispatch::Call { handler, params } => (
                Connection::Dispatching,
                Action::CallHandler { handler, request, params },
            ),
            Dispatch::NotFound(response) => (
                Connection::Responding(request.into_buffer()),
                Action::Write(response),
            ),
        }
    }
}

impl Connection {
    /// A connection that was just accepted and got `buf` from the pool.
    pub fn accept(buf: PooledBuffer, limits: Limits) -> (conn: Connection)
        ensures
            conn == Connection::Accepted(buf, limits),
    {
        Connection::Accepted(buf, limits)
    }

    /// Whether the connection is over.
    pub fn is_over(&self) -> (over: bool)
        ensures
            over == (self is Closed || self is Errored),
    {
        match self {
            Connection::Closed => true,
            Connection::Errored => true,
            _ => false,
        }
    }

    /// Takes an event and says what to do next.
    pub fn step(self, app: &H1, event: Event) -> (r: (Connection, Action))
        ensures
            follows(self, app, event, r.0, r.1),
    {
        match self {
            Connection::Closed => (Connection::Closed, Action::Nothing),
            Connection::Errored => (Connection::Errored, Action::Nothing),
            Connection::Accepted(buf, limits) => match event {
                Event::Spawned => (Connection::Reading(FrameReader::new(buf, limits)), Action::Read),
                _ => (Connection::Errored, Action::Abort(ConnError::OutOfTurn, Some(buf))),
            },
            Connection::Reading(reader) => read_on(reader, app, event),
            Connection::Parsed(place) => pass_on(place, app, event),
            Connection::Dispatching => match event {
                Event::HandlerReturned(response, request) => (
                    Connection::Responding(request.into_buffer()),
                    Action::Write(response),
                ),
                Event::HandlerFailed(request) => (
                    Connection::Errored,
                    Action::Abort(ConnError::Handler, Some(request.into_buffer())),
                ),
                _ => (Connection::Errored, Action::Abort(ConnError::OutOfTurn, buffer_of(event))),
            },
            Connection::Responding(buf) => match event {
                Event::Written => (Connection::Closed, Action::Close(buf)),
                Event::WriteFailed => (Connection::Errored, Action::Abort(ConnError::Io, Some(buf))),
                _ => (Connection::Errored, Action::Abort(ConnError::OutOfTurn, Some(buf))),
            },
        }
    }
}

/// A step of a connection that gathers its request.
fn read_on(reader: FrameReader, app: &H1, event: Event) -> (r: (Connection, Action))
    ensures
        follows(Connection::Reading(reader), app, event, r.0, r.1),
{
    match event {
        Event::Read(chunk) => match reader.feed(chunk.as_slice()) {
            ReadStep::NeedMore(next) => (Connection::Reading(next), Action::Read),
            ReadStep::Ready(request) => proceed(app, request, 0),
            ReadStep::Failed(e, back) => (Connection::Errored, Action::Abort(ConnError::Read(e), Some(back))),
        },
        Event::ReadFailed => (Connection::Errored, Action::Abort(ConnError::Io, Some(reader.into_buffer()))),
        _ => (Connection::Errored, Action::Abort(ConnError::OutOfTurn, Some(reader.into_buffer()))),
    }
}

/// A step of a connection whose request is with the middleware at `place`.
fn pass_on(place: usize, app: &H1, event: Event) -> (r: (Connection, Action))
    ensures
        follows(Connection::Parsed(place), app, event, r.0, r.1),
{
    match event {
        Event::MiddlewarePassed(request) => {
            if place < app.middleware().len() {
                proceed(app, request, place + 1)
            } else {
                proceed(app, request, place)
            }
        },
        Event::MiddlewareFailed(request) => (
            Connection::Errored,
            Action::Abort(ConnError::Middleware, Some(request.into_buffer())),
        ),
        _ => (Connection::Errored, Action::Abort(ConnError::OutOfTurn, buffer_of(event))),
    }
}

/// Whether `states` and `actions` are what a connection goes through that
/// takes the reads `chunks` one after the other, from `states[0]` on.
pub open spec fn takes_reads(
    app: &H1,
    states: Seq<Connection>,
    actions: Seq<Action>,
    chunks: Seq<Vec<u8>>,
) -> bool {
    &&& states.len() == chunks.len() + 1
    &&& actions.len() == chunks.len()
    &&& forall|i: int|
        0 <= i < chunks.len() ==> follows(states[i], app, Event::Read(chunks[i]), states[i + 1], #[trigger] actions[i])
}

proof fn lemma_still_reading(
    app: &H1,
    states: Seq<Connection>,
    actions: Seq<Action>,
    chunks: Seq<Vec<u8>>,
    limits: Limits,
    reads: int,
)
    requires
        0 <= reads < chunks.len(),
        forall|i: int| 0 <= i < chunks.len() ==> (#[trigger] chunks[i])@.len() > 0,
        takes_reads(app, states, actions, chunks),
        states[0] matches Connection::Reading(reader) && reader.buffered() == Seq::<u8>::empty()
            && reader.limits() == limits,
        is_one_request(head_parser(limits.max_headers as nat), chunk_views(chunks).flatten(), limits),
    ensures
        states[reads] matches Connection::Reading(reader) && reader.buffered() == chunk_views(chunks).take(
            reads,
        ).flatten() && reader.limits() == limits,
        forall|i: int| 0 <= i < reads ==> #[trigger] actions[i] is Read,
        chunk_views(chunks).take(reads).flatten() + chunk_views(chunks)[reads] == chunk_views(chunks).take(
            reads + 1,
        ).flatten(),
        chunk_views(chunks).take(reads + 1).flatten().len() <= chunk_views(chunks).flatten().len(),
        reads + 1 < chunks.len() ==> chunk_views(chunks).take(reads + 1).flatten().len() < chunk_views(
            chunks,
        ).flatten().len(),
        chunk_views(chunks).flatten().take(chunk_views(chunks).take(reads + 1).flatten().len() as int)
            == chunk_views(chunks).take(reads + 1).flatten(),
    decreases reads,
{
    let views = chunk_views(chunks);
    let whole = views.flatten();
    let parser = head_parser(limits.max_headers as nat);
    let before = views.take(reads);
    let upto = views.take(reads + 1);
    let behind = views.skip(reads + 1);
    assert(upto =~= before.push(views[reads]));
    before.lemma_flatten_push(views[reads]);
    assert(upto + behind =~= views);
    vstd::seq_lib::lemma_flatten_concat(upto, behind);
    assert(whole.take(upto.flatten().len() as int) =~= upto.flatten());
    if reads + 1 < chunks.len() {
        assert(behind[0] == views[reads + 1]);
        assert(behind[0] == chunks[reads + 1]@);
        assert(behind.flatten() == behind[0] + behind.drop_first().flatten());
    }
    if reads == 0 {
        assert(before.flatten() =~= Seq::<u8>::empty());
    } else {
        lemma_still_reading(app, states, actions, chunks, limits, reads - 1);
        let gathered = before.flatten();
        assert(views[reads - 1] == chunks[reads - 1]@);
        lemma_shorter_is_incomplete(parser, whole, limits, gathered.len() as int);
        assert(parser(gathered) == head_outcome(gathered, limits.max_headers as nat));
        assert(follows(states[reads - 1], app, Event::Read(chunks[reads - 1]), states[reads], actions[reads - 1]));
    }
}

/// A connection that reads the bytes of one request, in however many reads,
/// asks for another read after each read but the last, and with the last read
/// sends the request on its way: to the first middleware, to its handler, or
/// to the `404 Not Found` response.
pub proof fn lemma_connection_reads_one_request(
    app: &H1,
    states: Seq<Connection>,
    actions: Seq<Action>,
    chunks: Seq<Vec<u8>>,
    limits: Limits,
)
    requires
        chunks.len() > 0,
        forall|i: int| 0 <= i < chunks.len() ==> (#[trigger] chunks[i])@.len() > 0,
        takes_reads(app, states, actions, chunks),
        states[0] matches Connection::Reading(reader) && reader.buffered() == Seq::<u8>::empty()
            && reader.limits() == limits,
        is_one_request(head_parser(limits.max_headers as nat), chunk_views(chunks).flatten(), limits),
    ensures
        forall|i: int| 0 <= i < chunks.len() - 1 ==> #[trigger] actions[i] is Read,
        proceeds(
            app,
            request_of(head_parser(limits.max_headers as nat), chunk_views(chunks).flatten(), limits),
            0,
            states.last(),
            actions.last(),
        ),
{
    let last = chunks.len() - 1;
    let views = chunk_views(chunks);
    let whole = views.flatten();
    let parser = head_parser(limits.max_headers as nat);
    lemma_still_reading(app, states, actions, chunks, limits, last);
    assert(views.take(last + 1) =~= views);
    assert(views[last] == chunks[last]@);
    assert(whole.take(whole.len() as int) =~= whole);
    assert(parser(whole) == head_outcome(whole, limits.max_headers as nat));
    assert(follows(states[last], app, Event::Read(chunks[last]), states[last + 1], actions[last]));
}

/// Connections do not mix. Of any number of connections that share the
/// routes, each one that reads the bytes of one request sends on the request
/// that its own bytes are, to the place that the router names for it. The
/// order in which the connections take their steps does not come into it: a
/// step takes its own connection, its event and the routes, and nothing else.
pub proof fn lemma_connections_do_not_mix(
    app: &H1,
    states: Seq<Seq<Connection>>,
    actions: Seq<Seq<Action>>,
    chunks: Seq<Seq<Vec<u8>>>,
    limits: Limits,
)
    requires
        states.len() == chunks.len(),
        actions.len() == chunks.len(),
        forall|k: int|
            #![trigger chunks[k]]
            0 <= k < chunks.len() ==> {
                &&& chunks[k].len() > 0
                &&& forall|i: int| 0 <= i < chunks[k].len() ==> (#[trigger] chunks[k][i])@.len() > 0
                &&& takes_reads(app, states[k], actions[k], chunks[k])
                &&& states[k][0] matches Connection::Reading(reader) && reader.buffered() == Seq::<
                    u8,
                >::empty() && reader.limits() == limits
                &&& is_one_request(
                    head_parser(limits.max_headers as nat),
                    chunk_views(chunks[k]).flatten(),
                    limits,
                )
            },
    ensures
        forall|k: int|
            #![trigger chunks[k]]
            0 <= k < chunks.len() ==> proceeds(
                app,
                request_of(
                    head_parser(limits.max_headers as nat),
                    chunk_views(chunks[k]).flatten(),
                    limits,
                ),
                0,
                states[k].last(),
                actions[k].last(),
            ),
{
    assert forall|k: int| #![trigger chunks[k]] 0 <= k < chunks.len() implies proceeds(
        app,
        request_of(head_parser(limits.max_headers as nat), chunk_views(chunks[k]).flatten(), limits),
        0,
        states[k].last(),
        actions[k].last(),
    ) by {
        lemma_connection_reads_one_request(app, states[k], actions[k], chunks[k], limits);
    }
}

} // verus!
