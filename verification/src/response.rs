//! A response and its bytes on the wire.

use vstd::prelude::*;
use vstd::string::*;
use vstd::utf8::encode_utf8;

use crate::text::{decimal, decimal_value, lemma_decimal_round_trip, push_decimal};

verus! {

/// What a response holds.
pub struct ResponseView {
    /// The status code and its message; `None` stands for `200 OK`.
    pub status: Option<(u32, Seq<char>)>,
    /// The header fields that the handler set, in the order in which it set them.
    pub headers: Seq<(Seq<char>, Seq<char>)>,
    pub body: Seq<u8>,
}

/// What a list of header fields holds.
pub open spec fn pairs(headers: Seq<(String, String)>) -> Seq<(Seq<char>, Seq<char>)> {
    Seq::new(headers.len(), |i: int| (headers[i].0@, headers[i].1@))
}

/// The code and the message of the status line.
pub open spec fn status_text(status: Option<(u32, Seq<char>)>) -> Seq<u8> {
    match status {
        None => "200 OK".spec_bytes(),
        Some((code, message)) => decimal(code as nat) + " ".spec_bytes() + encode_utf8(message),
    }
}

/// One header field as a line.
pub open spec fn header_line(field: (Seq<char>, Seq<char>)) -> Seq<u8> {
    encode_utf8(field.0) + ": ".spec_bytes() + encode_utf8(field.1) + "\r\n".spec_bytes()
}

/// The lines of the header fields, in the order of the fields.
pub open spec fn header_lines(headers: Seq<(Seq<char>, Seq<char>)>) -> Seq<u8>
    decreases headers.len(),
{
    if headers.len() == 0 {
        Seq::empty()
    } else {
        header_lines(headers.drop_last()) + header_line(headers.last())
    }
}

/// The value of the `Content-Length` field: the length of the body, whatever
/// the handler's own header fields say.
pub open spec fn length_field(response: ResponseView) -> Seq<u8> {
    decimal(response.body.len())
}

/// Everything up to the body: the status line, the fields `Server`,
/// `Content-Length` and `Date`, the handler's fields, and an empty line.
pub open spec fn encoded_head(response: ResponseView, date: Seq<char>) -> Seq<u8> {
    "HTTP/1.1 ".spec_bytes() + status_text(response.status)
        + "\r\nServer: Example\r\nContent-Length: ".spec_bytes() + length_field(response)
        + "\r\nDate: ".spec_bytes() + encode_utf8(date) + "\r\n".spec_bytes() + header_lines(
        response.headers,
    ) + "\r\n".spec_bytes()
}

/// The response on the wire: the head, then the body as it is.
pub open spec fn encoded(response: ResponseView, date: Seq<char>) -> Seq<u8> {
    encoded_head(response, date) + response.body
}

#[derive(Debug)]
enum StatusMessage {
    Standard,
    Custom(u32, String),
}

impl Default for StatusMessage {
    fn default() -> (status: StatusMessage)
        ensures
            status is Standard,
    {
        StatusMessage::Standard
    }
}

/// What a handler answers.
#[derive(Debug)]
pub struct Response {
    headers: Vec<(String, String)>,
    response: Vec<u8>,
    status_message: StatusMessage,
}

impl View for Response {
    type V = ResponseView;

    closed spec fn view(&self) -> ResponseView {
        ResponseView {
            status: match self.status_message {
                StatusMessage::Standard => None,
                StatusMessage::Custom(code, message) => Some((code, message@)),
            },
            headers: pairs(self.headers@),
            body: self.response@,
        }
    }
}

impl Default for Response {
    /// `200 OK` with no header field and an empty body.
    fn default() -> (response: Response)
        ensures
            response@ == (ResponseView { status: None, headers: Seq::empty(), body: Seq::empty() }),
    {
        let response = Response {
            headers: Vec::new(),
            response: Vec::new(),
            status_message: StatusMessage::Standard,
        };
        assert(pairs(response.headers@) =~= Seq::empty());
        response
    }
}

impl Response {
    /// Sets the status code and its message.
    pub fn status_code(&mut self, code: u32, message: &str) -> (r: &mut Response)
        ensures
            r@ == (ResponseView { status: Some((code, message@)), ..old(self)@ }),
            *final(self) == *final(r),
    {
        self.status_message = StatusMessage::Custom(code, message.to_owned());
        self
    }

    /// Adds a header field behind those that are there.
    pub fn header(&mut self, name: &str, val: &str) -> (r: &mut Response)
        ensures
            r@ == (ResponseView { headers: old(self)@.headers.push((name@, val@)), ..old(self)@ }),
            *final(self) == *final(r),
    {
        self.headers.push((name.to_owned(), val.to_owned()));
        assert(pairs(self.headers@) =~= pairs(old(self).headers@).push((name@, val@)));
        self
    }

    /// Sets the body to the bytes of a string.
    pub fn body(&mut self, s: &str) -> (r: &mut Response)
        ensures
            r@ == (ResponseView { body: encode_utf8(s@), ..old(self)@ }),
            *final(self) == *final(r),
    {
        self.response = s.as_bytes_vec();
        self
    }

    /// Sets the body.
    pub fn body_bytes(&mut self, b: &[u8]) -> (r: &mut Response)
        ensures
            r@ == (ResponseView { body: b@, ..old(self)@ }),
            *final(self) == *final(r),
    {
        self.response = vstd::slice::slice_to_vec(b);
        self
    }

    /// The body as it goes on the wire.
    pub fn body_encoded(&self) -> (b: &[u8])
        ensures
            b@ == self@.body,
    {
        self.response.as_slice()
    }

    /// Everything that goes on the wire before the body. `date` is the time
    /// of the answer as an HTTP date.
    pub fn header_encoded(&self, date: &str) -> (head: Vec<u8>)
        ensures
            head@ == encoded_head(self@, date@),
    {
        let mut data: Vec<u8> = Vec::new();
        data.extend_from_slice("HTTP/1.1 ".as_bytes());
        match &self.status_message {
            StatusMessage::Standard => {
                data.extend_from_slice("200 OK".as_bytes());
            },
            StatusMessage::Custom(code, message) => {
                push_decimal(&mut data, *code as u64);
                data.extend_from_slice(" ".as_bytes());
                data.extend_from_slice(message.as_str().as_bytes());
            },
        }
        data.extend_from_slice("\r\nServer: Example\r\nContent-Length: ".as_bytes());
        push_decimal(&mut data, self.response.len() as u64);
        data.extend_from_slice("\r\nDate: ".as_bytes());
        data.extend_from_slice(date.as_bytes());
        data.extend_from_slice("\r\n".as_bytes());
        let ghost before = data@;
        let ghost all = pairs(self.headers@);
        let mut i: usize = 0;
        while i < self.headers.len()
            invariant
                i <= self.headers@.len(),
                all == pairs(self.headers@),
                data@ == before + header_lines(all.take(i as int)),
            decreases self.headers@.len() - i,
        {
            proof {
                let t = all.take(i + 1);
                assert(t.drop_last() =~= all.take(i as int));
                assert(t.last() == all[i as int]);
            }
            data.extend_from_slice(self.headers[i].0.as_str().as_bytes());
            data.extend_from_slice(": ".as_bytes());
            data.extend_from_slice(self.headers[i].1.as_str().as_bytes());
            data.extend_from_slice("\r\n".as_bytes());
            i += 1;
        }
        proof {
            assert(all.take(i as int) =~= all);
        }
        data.extend_from_slice("\r\n".as_bytes());
        data
    }

    /// The response on the wire. `date` is the time of the answer as an HTTP
    /// date.
    pub fn finalize(self, date: &str) -> (data: Vec<u8>)
        ensures
            data@ == encoded(self@, date@),
    {
        let mut data = self.header_encoded(date);
        data.extend_from_slice(self.response.as_slice());
        data
    }
}

/// What is read back from an encoded response is what went in: the bytes
/// behind the head are the body, and the `Content-Length` field is the
/// body's length in decimal.
pub proof fn lemma_encoded_carries_body(response: ResponseView, date: Seq<char>)
    ensures
        encoded(response, date).len() == encoded_head(response, date).len() + response.body.len(),
        encoded(response, date).take(encoded_head(response, date).len() as int) == encoded_head(
            response,
            date,
        ),
        encoded(response, date).skip(encoded_head(response, date).len() as int) == response.body,
        decimal_value(length_field(response)) == Some(response.body.len()),
{
    let head = encoded_head(response, date);
    assert(encoded(response, date).take(head.len() as int) =~= head);
    assert(encoded(response, date).skip(head.len() as int) =~= response.body);
    lemma_decimal_round_trip(response.body.len());
}

} // verus!
