//! Middleware that comes with the library.

use vstd::prelude::*;
use vstd::string::*;

use crate::request::Request;

verus! {

/// The line that the logger writes for a request: the method in square
/// brackets, a space, the path.
pub open spec fn log_line(method: Seq<char>, path: Seq<char>) -> Seq<char> {
    seq!['['] + method + seq![']', ' '] + path
}

/// Logs every request.
///
/// The logger says what is to be written; writing it is left to the program.
#[derive(Debug)]
pub struct Logger {}

impl Default for Logger {
    fn default() -> Logger {
        Logger {  }
    }
}

impl Logger {
    /// The line for `request`.
    pub fn line(&self, request: &Request) -> (line: String)
        ensures
            line@ == log_line(request@.head.method, request@.head.path),
    {
        let mut line = "[".to_owned();
        line.append(request.method());
        line.append("] ");
        line.append(request.path());
        proof {
            reveal_strlit("[");
            reveal_strlit("] ");
            assert(line@ =~= log_line(request@.head.method, request@.head.path));
        }
        line
    }
}

} // verus!
