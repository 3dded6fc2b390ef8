//! Reading the head of a request: the request line and the header fields.
//!
//! The grammar is httparse's. This module hands it the bytes and takes what it
//! found as values of this library.

use httparse::Status;
use vstd::prelude::*;

use crate::request::{HeadView, InnerRequest};

verus! {

/// What the head parser made of a buffer.
pub enum HeadOutcome {
    /// The buffer starts with a whole head, which ends after so many bytes.
    Complete(HeadView, nat),
    /// The buffer ends before the head does.
    Partial,
    /// The buffer breaks the grammar; the text names the rule.
    Failed(Seq<char>),
}

/// What the head parser made of a buffer.
#[derive(Debug)]
pub enum HeadParse {
    /// The buffer starts with a whole head, which ends after so many bytes.
    Complete(InnerRequest, usize),
    /// The buffer ends before the head does.
    Partial,
    /// The buffer breaks the grammar; the text names the rule.
    Failed(String),
}

impl View for HeadParse {
    type V = HeadOutcome;

    open spec fn view(&self) -> HeadOutcome {
        match self {
            HeadParse::Complete(head, consumed) => HeadOutcome::Complete(head@, *consumed as nat),
            HeadParse::Partial => HeadOutcome::Partial,
            HeadParse::Failed(reason) => HeadOutcome::Failed(reason@),
        }
    }
}

/// What `httparse::Request::parse` makes of `buf` when it is given room for
/// `max_headers` header fields.
pub uninterp spec fn head_outcome(buf: Seq<u8>, max_headers: nat) -> HeadOutcome;

/// Runs `httparse::Request::parse` on `buf`, with room for `max_headers`
/// header fields.
///
/// The contract gives the result a name and claims nothing else of it: the
/// same bytes and the same room give the same result. On success the method,
/// the path, the version and the fields are copied out as they were found, and
/// the count is the offset at which the parser stopped. An error is handed on
/// as the name of its variant, such as `TooManyHeaders`.
#[verifier::external_body]
pub(crate) fn parse_head(buf: &[u8], max_headers: u16) -> (r: HeadParse)
    ensures
        r@ == head_outcome(buf@, max_headers as nat),
{
    let mut slots = vec![httparse::EMPTY_HEADER; max_headers as usize];
    let mut req = httparse::Request::new(&mut slots);
    match req.parse(buf) {
        Ok(Status::Complete(n)) => HeadParse::Complete(InnerRequest {
            method: req.method.unwrap_or("").to_string(),
            path: req.path.unwrap_or("").to_string(),
            version: req.version.unwrap_or(0),
            headers: req.headers.iter().map(|h| (h.name.as_bytes().to_vec(), h.value.to_vec())).collect(),
        }, n),
        Ok(Status::Partial) => HeadParse::Partial,
        Err(e) => HeadParse::Failed(format!("{:?}", e)),
    }
}

} // verus!
