//! Routes and the middleware chain, and the way from a request to its handler.
//!
//! Handlers and middleware are the program's own. Here each is known by a
//! number that the program chose for it. Matching a path against the
//! registered patterns is the work of the `path-tree` crate; one tree serves
//! every method, with the method as the first segment of the key.

use vstd::prelude::*;
use vstd::string::*;

use crate::request::Request;
use crate::response::{status_text, Response, ResponseView};
use crate::text::decimal;

verus! {

/// `path_tree::PathTree`, the router. Nothing of a tree is seen here but the
/// calls of `insert` that were made on it, which `registered` lists. Every
/// tree in this library starts at `tree_new` and changes through
/// `tree_insert` alone.
#[verifier::external_type_specification]
#[verifier::external_body]
#[verifier::reject_recursive_types(T)]
pub struct ExPathTree<T>(path_tree::PathTree<T>);

/// The parameters that a pattern took from a path, by name, in the order of
/// the pattern.
pub type Params = Vec<(String, String)>;

/// What a list of parameters holds.
pub open spec fn params_view(params: Seq<(String, String)>) -> Seq<(Seq<char>, Seq<char>)> {
    Seq::new(params.len(), |i: int| (params[i].0@, params[i].1@))
}

/// The calls of `insert` that were made on a tree since it was new: the
/// pattern and the value of each, in the order of the calls. This is the
/// history of the tree, not its table of routes: a pattern that was put
/// twice stands here twice, while the tree keeps the later value only.
pub uninterp spec fn registered(tree: path_tree::PathTree<usize>) -> Seq<(Seq<char>, usize)>;

/// What `PathTree::find` answers for `key` in a tree into which `routes` were
/// put: the value of the pattern that matches, with the parameters that the
/// pattern took from the key, or nothing.
pub uninterp spec fn matched(routes: Seq<(Seq<char>, usize)>, key: Seq<char>) -> Option<
    (usize, Seq<(Seq<char>, Seq<char>)>),
>;

/// `PathTree::new`: a tree into which nothing was put.
#[verifier::external_body]
fn tree_new() -> (tree: path_tree::PathTree<usize>)
    ensures
        registered(tree) == Seq::<(Seq<char>, usize)>::empty(),
{
    path_tree::PathTree::new()
}

/// `PathTree::insert`: records one more pattern with its value. The tree
/// keeps the value under the pattern, in place of an earlier value where the
/// same pattern was put before; the contract only says that the call is now
/// part of what was put into the tree.
#[verifier::external_body]
fn tree_insert(tree: &mut path_tree::PathTree<usize>, pattern: &str, value: usize)
    ensures
        registered(*final(tree)) == registered(*old(tree)).push((pattern@, value)),
{
    let _ = tree.insert(pattern, value);
}

/// `PathTree::find`, with the parameters of the match as `Path::params` lists
/// them. The contract names the answer: it depends on the key and on what was
/// put into the tree, and on nothing else.
#[verifier::external_body]
fn tree_find(tree: &path_tree::PathTree<usize>, key: &str) -> (r: Option<(usize, Params)>)
    ensures
        match r {
            Some((value, params)) => matched(registered(*tree), key@) == Some(
                (value, params_view(params@)),
            ),
            None => matched(registered(*tree), key@) is None,
        },
{
    tree.find(key).map(|(value, path)| {
        (*value, path.params().into_iter().map(|(k, v)| (k.to_string(), v.to_string())).collect())
    })
}

/// The key under which a request is looked up: a slash, the method, a slash,
/// the path.
pub open spec fn composite_key(method: Seq<char>, path: Seq<char>) -> Seq<char> {
    seq!['/'] + method + seq!['/'] + path
}

/// The pattern under which a `GET` route is registered.
pub open spec fn get_pattern(route: Seq<char>) -> Seq<char> {
    seq!['/', 'G', 'E', 'T', '/'] + route
}

/// The answer to a request for which no route is registered.
pub open spec fn not_found() -> ResponseView {
    ResponseView { status: Some((404u32, "Not Found"@)), headers: Seq::empty(), body: Seq::empty() }
}

/// Where a request goes.
#[derive(Debug)]
pub enum Dispatch {
    /// To the handler of this number, with the parameters of the match.
    Call { handler: usize, params: Params },
    /// Nowhere: the response says so.
    NotFound(Response),
}

/// Where a request goes when the router answers `found` for its key.
pub open spec fn dispatched(found: Option<(usize, Seq<(Seq<char>, Seq<char>)>)>, to: Dispatch) -> bool {
    match found {
        Some((handler, params)) => to matches Dispatch::Call { handler: h, params: p } && h == handler
            && params_view(p@) == params,
        None => to matches Dispatch::NotFound(response) && response@ == not_found(),
    }
}

/// The routes and the middleware chain of a server.
pub struct H1 {
    router: path_tree::PathTree<usize>,
    middleware: Vec<usize>,
}

impl Default for H1 {
    /// A server without routes and without middleware.
    fn default() -> (app: H1)
        ensures
            app.routes() == Seq::<(Seq<char>, usize)>::empty(),
            app.chain() == Seq::<usize>::empty(),
    {
        H1 { router: tree_new(), middleware: Vec::new() }
    }
}

impl H1 {
    /// Every registration made so far, in the order in which it was made:
    /// the pattern and the number of the handler. A pattern that was
    /// registered again stands here once for each time; the router answers
    /// with the handler of the last.
    pub closed spec fn routes(&self) -> Seq<(Seq<char>, usize)> {
        registered(self.router)
    }

    /// The middleware registered so far, in the order in which it runs.
    pub closed spec fn chain(&self) -> Seq<usize> {
        self.middleware@
    }

    /// Registers `handler` for `GET` requests to `route`.
    pub fn get(self, route: &str, handler: usize) -> (app: H1)
        ensures
            app.routes() == self.routes().push((get_pattern(route@), handler)),
            app.chain() == self.chain(),
    {
        let mut app = self;
        let mut pattern = "/GET/".to_owned();
        pattern.append(route);
        proof {
            reveal_strlit("/GET/");
            assert("/GET/"@ =~= seq!['/', 'G', 'E', 'T', '/']);
        }
        tree_insert(&mut app.router, pattern.as_str(), handler);
        app
    }

    /// Adds middleware behind what is there.
    pub fn using(self, middleware: usize) -> (app: H1)
        ensures
            app.routes() == self.routes(),
            app.chain() == self.chain().push(middleware),
    {
        let mut app = self;
        app.middleware.push(middleware);
        app
    }

    /// The middleware, in the order in which it runs.
    pub fn middleware(&self) -> (chain: &Vec<usize>)
        ensures
            chain@ == self.chain(),
    {
        &self.middleware
    }

    /// Looks up the handler for a method and a path.
    pub fn find(&self, method: &str, path: &str) -> (r: Option<(usize, Params)>)
        ensures
            match r {
                Some((handler, params)) => matched(self.routes(), composite_key(method@, path@)) == Some(
                    (handler, params_view(params@)),
                ),
                None => matched(self.routes(), composite_key(method@, path@)) is None,
            },
    {
        let mut key = "/".to_owned();
        key.append(method);
        key.append("/");
        key.append(path);
        proof {
            reveal_strlit("/");
            assert("/"@ =~= seq!['/']);
        }
        tree_find(&self.router, key.as_str())
    }

    /// Decides where a request goes: to the handler that the router finds for
    /// its method and path, or to a `404 Not Found` response.
    pub fn dispatch(&self, request: &Request) -> (to: Dispatch)
        ensures
            dispatched(
                matched(self.routes(), composite_key(request@.head.method, request@.head.path)),
                to,
            ),
    {
        route(self.find(request.method(), request.path()))
    }
}

/// What the router found, as a list of plain values.
pub open spec fn found_view(found: Option<(usize, Params)>) -> Option<(usize, Seq<(Seq<char>, Seq<char>)>)> {
    match found {
        Some((handler, params)) => Some((handler, params_view(params@))),
        None => None,
    }
}

/// Decides where a request goes for which the router found `found`: to the
/// handler that it found, with the parameters of the match, or, where it
/// found none, to a `404 Not Found` response without header fields and
/// without body.
pub fn route(found: Option<(usize, Params)>) -> (to: Dispatch)
    ensures
        dispatched(found_view(found), to),
{
    match found {
        Some((handler, params)) => Dispatch::Call { handler, params },
        None => {
            let mut response = Response::default();
            response.status_code(404, "Not Found");
            Dispatch::NotFound(response)
        },
    }
}

/// A `GET` route is registered under the very key under which a `GET` request
/// for the same path is looked up.
pub proof fn lemma_get_route_key(route: Seq<char>)
    ensures
        get_pattern(route) == composite_key(seq!['G', 'E', 'T'], route),
{
    assert(get_pattern(route) =~= composite_key(seq!['G', 'E', 'T'], route));
}

/// The status line of the answer to a request without a route reads
/// `404 Not Found`.
pub proof fn lemma_not_found_status()
    ensures
        status_text(not_found().status) == "404 Not Found".spec_bytes(),
{
    let shown = status_text(not_found().status);
    let wanted = "404 Not Found".spec_bytes();
    reveal_strlit("Not Found");
    reveal_strlit(" ");
    reveal_strlit("404 Not Found");
    vstd::utf8::is_ascii_chars_encode_utf8("Not Found"@);
    vstd::utf8::is_ascii_chars_encode_utf8(" "@);
    vstd::utf8::is_ascii_chars_encode_utf8("404 Not Found"@);
    reveal_with_fuel(decimal, 3);
    assert(decimal(404) =~= seq![52u8, 48u8, 52u8]);
    assert(shown.len() == 13);
    assert(wanted.len() == 13);
    assert forall|i: int| 0 <= i < 13 implies shown[i] == wanted[i] by {
        if i >= 4 {
            assert(shown[i] == vstd::utf8::encode_utf8("Not Found"@)[i - 4]);
            assert("Not Found"@[i - 4] == "404 Not Found"@[i]);
        } else if i == 3 {
            assert(shown[i] == vstd::utf8::encode_utf8(" "@)[0]);
            assert(" "@[0] == "404 Not Found"@[3]);
        } else {
            assert("404 Not Found"@[i] as u8 == wanted[i]);
        }
    }
    assert(shown =~= wanted);
}

} // verus!
