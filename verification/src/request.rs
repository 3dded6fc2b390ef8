//! A parsed request and the frame it was read from.

use vstd::prelude::*;
use vstd::string::*;

use crate::buffer::PooledBuffer;

verus! {

/// One header field: its name and its value, as they stood on the wire.
pub type HeaderView = (Seq<u8>, Seq<u8>);

/// What a list of header fields holds.
pub open spec fn fields(headers: Seq<(Vec<u8>, Vec<u8>)>) -> Seq<HeaderView> {
    Seq::new(headers.len(), |i: int| (headers[i].0@, headers[i].1@))
}

/// The request line and the header fields of a request.
pub struct HeadView {
    pub method: Seq<char>,
    pub path: Seq<char>,
    pub version: u8,
    pub headers: Seq<HeaderView>,
}

/// The request line and the header fields of a request.
///
/// Header names and values are kept as raw bytes: a value need not be UTF-8.
#[derive(Debug)]
pub struct InnerRequest {
    pub(crate) method: String,
    pub(crate) path: String,
    pub(crate) version: u8,
    pub(crate) headers: Vec<(Vec<u8>, Vec<u8>)>,
}

impl View for InnerRequest {
    type V = HeadView;

    closed spec fn view(&self) -> HeadView {
        HeadView {
            method: self.method@,
            path: self.path@,
            version: self.version,
            headers: fields(self.headers@),
        }
    }
}

impl InnerRequest {
    pub fn new(method: String, path: String, version: u8, headers: Vec<(Vec<u8>, Vec<u8>)>) -> (head:
        InnerRequest)
        ensures
            head@.method == method@,
            head@.path == path@,
            head@.version == version,
            head@.headers == fields(headers@),
    {
        InnerRequest { method, path, version, headers }
    }

    pub fn method(&self) -> (m: &str)
        ensures
            m@ == self@.method,
    {
        self.method.as_str()
    }

    pub fn path(&self) -> (p: &str)
        ensures
            p@ == self@.path,
    {
        self.path.as_str()
    }

    /// The minor version: 0 for HTTP/1.0, 1 for HTTP/1.1.
    pub fn version(&self) -> (v: u8)
        ensures
            v == self@.version,
    {
        self.version
    }

    pub fn headers(&self) -> (h: &Vec<(Vec<u8>, Vec<u8>)>)
        ensures
            fields(h@) == self@.headers,
    {
        &self.headers
    }

    /// Adds a header field behind those that are there.
    pub fn insert_header(&mut self, name: &[u8], value: &[u8])
        ensures
            final(self)@ == (HeadView { headers: old(self)@.headers.push((name@, value@)), ..old(self)@ }),
    {
        self.headers.push((vstd::slice::slice_to_vec(name), vstd::slice::slice_to_vec(value)));
        assert(fields(self.headers@) =~= fields(old(self).headers@).push((name@, value@)));
    }
}

/// A request: its head, and the bytes of the frame that it came in.
pub struct RequestView {
    pub head: HeadView,
    /// The whole frame, head and body.
    pub data: Seq<u8>,
    /// Where in `data` the body starts.
    pub head_len: nat,
}

impl RequestView {
    pub open spec fn body(self) -> Seq<u8> {
        self.data.skip(self.head_len as int)
    }
}

/// One request, together with the buffer that holds its frame.
#[derive(Debug)]
pub struct Request {
    data: PooledBuffer,
    request: InnerRequest,
    head_len: usize,
}

impl View for Request {
    type V = RequestView;

    closed spec fn view(&self) -> RequestView {
        RequestView { head: self.request@, data: self.data@, head_len: self.head_len as nat }
    }
}

impl Request {
    #[verifier::type_invariant]
    spec fn body_in_frame(self) -> bool {
        self.head_len <= self.data@.len()
    }

    /// Puts a request together from a frame and the head that was read from it.
    pub fn new(data: PooledBuffer, request: InnerRequest, head_len: usize) -> (req: Request)
        requires
            head_len <= data@.len(),
        ensures
            req@ == (RequestView { head: request@, data: data@, head_len: head_len as nat }),
    {
        Request { data, request, head_len }
    }

    pub fn method(&self) -> (m: &str)
        ensures
            m@ == self@.head.method,
    {
        self.request.method()
    }

    pub fn path(&self) -> (p: &str)
        ensures
            p@ == self@.head.path,
    {
        self.request.path()
    }

    /// The minor version: 0 for HTTP/1.0, 1 for HTTP/1.1.
    pub fn version(&self) -> (v: u8)
        ensures
            v == self@.head.version,
    {
        self.request.version()
    }

    pub fn headers(&self) -> (h: &Vec<(Vec<u8>, Vec<u8>)>)
        ensures
            fields(h@) == self@.head.headers,
    {
        self.request.headers()
    }

    /// The bytes of the frame that follow the head.
    pub fn body(&self) -> (b: &[u8])
        ensures
            b@ == self@.body(),
            self@.head_len <= self@.data.len(),
    {
        proof {
            use_type_invariant(self);
        }
        let all = self.data.as_slice();
        let b = vstd::slice::slice_subrange(all, self.head_len, all.len());
        assert(b@ =~= self@.body());
        b
    }

    /// Adds a header field behind those that came with the request. The
    /// frame stays as it was read.
    pub fn insert_header(&mut self, name: &[u8], value: &[u8])
        ensures
            final(self)@ == (RequestView {
                head: HeadView {
                    headers: old(self)@.head.headers.push((name@, value@)),
                    ..old(self)@.head
                },
                ..old(self)@
            }),
    {
        proof {
            use_type_invariant(&*self);
        }
        let mut head = InnerRequest::new(String::new(), String::new(), 0, Vec::new());
        core::mem::swap(&mut self.request, &mut head);
        head.insert_header(name, value);
        core::mem::swap(&mut self.request, &mut head);
    }

    /// The request gives up its buffer, for the pool to take back.
    pub fn into_buffer(self) -> (buf: PooledBuffer)
        ensures
            buf@ == self@.data,
    {
        self.data
    }
}

} // verus!
