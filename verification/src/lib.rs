//! The connection-handling core of a minimal HTTP/1.1 server.
//!
//! Bytes read from a connection are gathered by a [`FrameReader`] until they
//! hold one request, which is handed through the middleware chain to the
//! router; the handler's [`Response`] is encoded back into bytes. Everything
//! here is plain computation on values: the sockets, the clock and the task
//! scheduler belong to the program around this library.

pub mod text;
pub mod date;
pub mod buffer;
pub mod bytes;
pub mod request;
pub mod head;
pub mod parser;
pub mod reader;
pub mod response;
pub mod router;
pub mod middleware;
pub mod connection;

pub use crate::buffer::{BufferPool, PooledBuffer};
pub use crate::bytes::ByteTendril;
pub use crate::connection::{Action, ConnError, Connection, Event};
pub use crate::middleware::Logger;
pub use crate::parser::{assemble, decode, frame, parse_request, Decoded, ParseError, ParseStatus};
pub use crate::reader::{FrameReader, Limits, ReadError, ReadStep};
pub use crate::request::{InnerRequest, Request};
pub use crate::response::Response;
pub use crate::router::{route, Dispatch, Params, H1};
