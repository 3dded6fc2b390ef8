//! From a buffer to a request.
//!
//! A frame is a head followed by as many bytes of body as the head declares in
//! its `Content-Length` field, or by none if it has no such field.

use vstd::prelude::*;
use vstd::string::*;

use crate::buffer::PooledBuffer;
use crate::bytes::ByteTendril;
use crate::head::{head_outcome, parse_head, HeadOutcome, HeadParse};
use crate::request::{fields, HeaderView, InnerRequest, Request, RequestView};
use crate::text::{decimal_value, eq_ignore_case, read_decimal, same_ignoring_case, Reading};

verus! {

/// How many header fields a request may have unless the caller says otherwise.
pub const DEFAULT_MAX_HEADERS: u16 = 16;

/// Whether a header field is named `Content-Length`, in any case.
pub open spec fn names_length(name: Seq<u8>) -> bool {
    same_ignoring_case(name, "content-length".spec_bytes())
}

/// The values of the `Content-Length` fields, in the order of the fields.
pub open spec fn length_fields(headers: Seq<HeaderView>) -> Seq<Seq<u8>>
    decreases headers.len(),
{
    if headers.len() == 0 {
        Seq::empty()
    } else {
        let before = length_fields(headers.drop_last());
        if names_length(headers.last().0) {
            before.push(headers.last().1)
        } else {
            before
        }
    }
}

/// The length of the body that a head declares: zero without a
/// `Content-Length` field, the number in the field if there is one field and
/// it is a decimal number. Anything else declares no length at all.
pub open spec fn declared_length(headers: Seq<HeaderView>) -> Option<nat> {
    let found = length_fields(headers);
    if found.len() == 0 {
        Some(0)
    } else if found.len() == 1 {
        decimal_value(found[0])
    } else {
        None
    }
}

pub open spec fn too_many_headers() -> Seq<char> {
    "TooManyHeaders"@
}

pub open spec fn bad_version() -> Seq<char> {
    "Version"@
}

pub open spec fn bad_length() -> Seq<char> {
    "ContentLength"@
}

/// How far a frame reaches into a buffer.
pub enum Extent {
    /// The head ends at `head_len`, the frame at `total`.
    Frame { head_len: nat, total: nat },
    Incomplete,
    Malformed(Seq<char>),
}

/// Where the frame ends in a buffer of `available` bytes whose head was read
/// as `head`.
///
/// A head with more than `max_headers` fields, with a version other than 1.0
/// and 1.1, or without a usable body length is malformed, in this order. A
/// frame that ends beyond the buffer is incomplete.
pub open spec fn extent(available: nat, head: HeadOutcome, max_headers: nat) -> Extent {
    match head {
        HeadOutcome::Partial => Extent::Incomplete,
        HeadOutcome::Failed(reason) => Extent::Malformed(reason),
        HeadOutcome::Complete(h, head_len) => {
            if h.headers.len() > max_headers {
                Extent::Malformed(too_many_headers())
            } else if h.version > 1 {
                Extent::Malformed(bad_version())
            } else {
                match declared_length(h.headers) {
                    None => Extent::Malformed(bad_length()),
                    Some(body_len) => if head_len + body_len <= available {
                        Extent::Frame { head_len, total: head_len + body_len }
                    } else {
                        Extent::Incomplete
                    },
                }
            }
        },
    }
}

/// What parsing a buffer comes to.
pub enum ParseOutcome {
    /// A request, and the number of bytes of the buffer that are its frame.
    Complete(RequestView, nat),
    Incomplete,
    /// The bytes are no request; the text says why.
    Malformed(Seq<char>),
}

/// What a buffer holds, given what the head parser made of it.
pub open spec fn frame_outcome(buf: Seq<u8>, head: HeadOutcome, max_headers: nat) -> ParseOutcome {
    match extent(buf.len(), head, max_headers) {
        Extent::Frame { head_len, total } => ParseOutcome::Complete(
            RequestView { head: head->Complete_0, data: buf.take(total as int), head_len },
            total,
        ),
        Extent::Incomplete => ParseOutcome::Incomplete,
        Extent::Malformed(reason) => ParseOutcome::Malformed(reason),
    }
}

/// What a buffer holds.
pub open spec fn parse_outcome(buf: Seq<u8>, max_headers: nat) -> ParseOutcome {
    frame_outcome(buf, head_outcome(buf, max_headers), max_headers)
}

/// A request is accepted with the header fields that its head holds, all of
/// them, and with no more than `max_headers`: a head with more fields is
/// refused, never cut down.
pub proof fn lemma_header_limit(buf: Seq<u8>, head: HeadOutcome, max_headers: nat)
    ensures
        frame_outcome(buf, head, max_headers) matches ParseOutcome::Complete(request, _) ==> {
            &&& head matches HeadOutcome::Complete(h, _)
            &&& request.head == h
            &&& h.headers.len() <= max_headers
        },
        head matches HeadOutcome::Complete(h, _) && h.headers.len() > max_headers ==> frame_outcome(
            buf,
            head,
            max_headers,
        ) == ParseOutcome::Malformed(too_many_headers()),
{
}

/// Why a buffer is no request.
#[derive(Debug)]
pub struct ParseError {
    reason: String,
}

impl View for ParseError {
    type V = Seq<char>;

    closed spec fn view(&self) -> Seq<char> {
        self.reason@
    }
}

pub open spec fn message_prefix() -> Seq<char> {
    "failed to parse http request: "@
}

impl ParseError {
    pub fn new(reason: String) -> (e: ParseError)
        ensures
            e@ == reason@,
    {
        ParseError { reason }
    }

    /// The rule that the bytes break, by its name.
    pub fn reason(&self) -> (r: &str)
        ensures
            r@ == self@,
    {
        self.reason.as_str()
    }

    /// The error as a sentence.
    pub fn message(&self) -> (m: String)
        ensures
            m@ == message_prefix() + self@,
    {
        let mut m = "failed to parse http request: ".to_owned();
        m.append(self.reason.as_str());
        m
    }
}

/// What a declared body length reads as when lengths up to a limit are wanted.
pub open spec fn declared_reading(headers: Seq<HeaderView>, limit: nat) -> Reading {
    match declared_length(headers) {
        None => Reading::Invalid,
        Some(v) => if v <= limit {
            Reading::Within(v as usize)
        } else {
            Reading::Over
        },
    }
}

proof fn lemma_length_fields_step(headers: Seq<HeaderView>, i: int)
    requires
        0 <= i < headers.len(),
    ensures
        length_fields(headers.take(i + 1)) == if names_length(headers[i].0) {
            length_fields(headers.take(i)).push(headers[i].1)
        } else {
            length_fields(headers.take(i))
        },
{
    let t = headers.take(i + 1);
    assert(t.drop_last() =~= headers.take(i));
    assert(t.last() == headers[i]);
}

/// Reads the body length that the header fields declare.
fn read_declared(headers: &Vec<(Vec<u8>, Vec<u8>)>, limit: usize) -> (r: Reading)
    ensures
        r == declared_reading(fields(headers@), limit as nat),
{
    let ghost hs = fields(headers@);
    let mut count: usize = 0;
    let mut first: usize = 0;
    let mut i: usize = 0;
    while i < headers.len()
        invariant
            hs == fields(headers@),
            i <= headers@.len(),
            count <= 2,
            count < 2 ==> count == length_fields(hs.take(i as int)).len(),
            count == 2 ==> length_fields(hs.take(i as int)).len() >= 2,
            count == 1 ==> first < i && length_fields(hs.take(i as int))[0] == hs[first as int].1,
        decreases headers@.len() - i,
    {
        proof {
            lemma_length_fields_step(hs, i as int);
        }
        if eq_ignore_case(headers[i].0.as_slice(), "content-length".as_bytes()) {
            if count == 0 {
                first = i;
            }
            if count < 2 {
                count += 1;
            }
        }
        i += 1;
    }
    proof {
        assert(hs.take(i as int) =~= hs);
    }
    if count == 0 {
        Reading::Within(0)
    } else if count == 1 {
        read_decimal(headers[first].1.as_slice(), limit)
    } else {
        Reading::Invalid
    }
}

/// What parsing a buffer comes to.
#[derive(Debug)]
pub enum ParseStatus {
    /// A request, and the number of bytes of the buffer that are its frame.
    Complete(Request, usize),
    /// The buffer ends before the request does: more bytes are needed.
    Incomplete,
    /// The bytes are no request.
    Malformed(ParseError),
}

impl View for ParseStatus {
    type V = ParseOutcome;

    open spec fn view(&self) -> ParseOutcome {
        match self {
            ParseStatus::Complete(request, consumed) => ParseOutcome::Complete(
                request@,
                *consumed as nat,
            ),
            ParseStatus::Incomplete => ParseOutcome::Incomplete,
            ParseStatus::Malformed(e) => ParseOutcome::Malformed(e@),
        }
    }
}

/// What decoding a buffer comes to. Whatever it is, the buffer is handed on.
#[derive(Debug)]
pub enum Decoded {
    /// A request, which now holds the buffer, cut down to its frame.
    Request(Request),
    /// More bytes are needed; the buffer comes back as it was.
    Partial(PooledBuffer),
    /// The bytes are no request; the buffer comes back as it was.
    Malformed(ParseError, PooledBuffer),
}

impl Decoded {
    /// Whether this is what decoding `buf` comes to when parsing it comes to
    /// `outcome`.
    pub open spec fn agrees(&self, buf: Seq<u8>, outcome: ParseOutcome) -> bool {
        match self {
            Decoded::Request(request) => outcome == ParseOutcome::Complete(
                request@,
                request@.data.len(),
            ),
            Decoded::Partial(back) => outcome == ParseOutcome::Incomplete && back@ == buf,
            Decoded::Malformed(e, back) => outcome == ParseOutcome::Malformed(e@) && back@ == buf,
        }
    }
}

/// The head of a frame and where the frame ends.
enum Settled {
    Frame(InnerRequest, usize, usize),
    Incomplete,
    Malformed(ParseError),
}

impl Settled {
    spec fn agrees(&self, head: HeadOutcome, extent: Extent) -> bool {
        match self {
            Settled::Frame(h, head_len, total) => {
                &&& head is Complete
                &&& h@ == head->Complete_0
                &&& extent == (Extent::Frame { head_len: *head_len as nat, total: *total as nat })
            },
            Settled::Incomplete => extent == Extent::Incomplete,
            Settled::Malformed(e) => extent == Extent::Malformed(e@),
        }
    }
}

fn settle(available: usize, head: HeadParse, max_headers: u16) -> (r: Settled)
    ensures
        r.agrees(head@, extent(available as nat, head@, max_headers as nat)),
{
    match head {
        HeadParse::Partial => Settled::Incomplete,
        HeadParse::Failed(reason) => Settled::Malformed(ParseError::new(reason)),
        HeadParse::Complete(h, head_len) => {
            if h.headers().len() > max_headers as usize {
                Settled::Malformed(ParseError::new("TooManyHeaders".to_owned()))
            } else if h.version() > 1 {
                Settled::Malformed(ParseError::new("Version".to_owned()))
            } else if head_len > available {
                match read_declared(h.headers(), 0) {
                    Reading::Invalid => Settled::Malformed(ParseError::new("ContentLength".to_owned())),
                    _ => Settled::Incomplete,
                }
            } else {
                match read_declared(h.headers(), available - head_len) {
                    Reading::Invalid => Settled::Malformed(ParseError::new("ContentLength".to_owned())),
                    Reading::Over => Settled::Incomplete,
                    Reading::Within(body_len) => Settled::Frame(h, head_len, head_len + body_len),
                }
            }
        },
    }
}

/// Decodes a buffer whose head has been read as `head`.
///
/// If the buffer holds a whole frame, the request takes the buffer over, cut
/// down to the frame: bytes that follow the frame are dropped.
pub fn assemble(buf: PooledBuffer, head: HeadParse, max_headers: u16) -> (r: Decoded)
    ensures
        r.agrees(buf@, frame_outcome(buf@, head@, max_headers as nat)),
{
    let mut buf = buf;
    match settle(buf.len(), head, max_headers) {
        Settled::Frame(h, head_len, total) => {
            buf.truncate(total);
            Decoded::Request(Request::new(buf, h, head_len))
        },
        Settled::Incomplete => Decoded::Partial(buf),
        Settled::Malformed(e) => Decoded::Malformed(e, buf),
    }
}

/// Decodes a buffer: a request if the buffer holds a whole frame, the buffer
/// itself if it holds less, an error if it holds something else.
pub fn decode(buf: PooledBuffer, max_headers: u16) -> (r: Decoded)
    ensures
        r.agrees(buf@, parse_outcome(buf@, max_headers as nat)),
{
    let head = parse_head(buf.as_slice(), max_headers);
    assemble(buf, head, max_headers)
}

/// Parses a buffer whose head has been read as `head`. The request gets a
/// copy of its frame; `buf` is left alone.
pub fn frame(buf: &[u8], head: HeadParse, max_headers: u16) -> (r: ParseStatus)
    ensures
        r@ == frame_outcome(buf@, head@, max_headers as nat),
{
    match settle(buf.len(), head, max_headers) {
        Settled::Frame(h, head_len, total) => {
            let bytes = vstd::slice::slice_subrange(buf, 0, total);
            assert(bytes@ =~= buf@.take(total as int));
            ParseStatus::Complete(Request::new(PooledBuffer::from_slice(bytes), h, head_len), total)
        },
        Settled::Incomplete => ParseStatus::Incomplete,
        Settled::Malformed(e) => ParseStatus::Malformed(e),
    }
}

/// Parses one request from the front of a tendril. The tendril is cut down
/// to the frame, and the request gets a copy of it.
pub fn parse_request(buf: ByteTendril, max_headers: u16) -> (r: ParseStatus)
    ensures
        r@ == parse_outcome(buf@, max_headers as nat),
{
    let mut buf = buf;
    let head = parse_head(buf.as_slice(), max_headers);
    match settle(buf.len(), head, max_headers) {
        Settled::Frame(h, head_len, total) => {
            buf.truncate(total);
            ParseStatus::Complete(Request::new(PooledBuffer::from_slice(buf.as_slice()), h, head_len), total)
        },
        Settled::Incomplete => ParseStatus::Incomplete,
        Settled::Malformed(e) => ParseStatus::Malformed(e),
    }
}

} // verus!
