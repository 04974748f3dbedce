//! The request dispatcher: from a request's path and query to an operation
//! of the store, and from its outcome to a response.
//!
//! Writing the store's document to its file is left to the caller. A request
//! that made a new entry therefore takes two steps: `handle` hands out the
//! document, and `finish_create` takes the news of how writing it went.

use crate::bimap::{has_second, Entries};
use crate::store::{
    add_post, exhausted, token_of, unwritable, url_of, without_token, Added, UrlMap,
};
use vstd::prelude::*;
use vstd::std_specs::iter::IteratorSpec;
use vstd::string::*;

verus! {

/// The path of a request that asks for a token.
pub const CREATE_PATH: &'static str = "/create";

/// What goes back to the client.
#[derive(Debug, PartialEq, Eq)]
pub enum Response {
    /// The URL has its token: status 200, with the base URL and the token as
    /// a plain text.
    Created { body: String },
    /// The token is known: status 301, to the URL that stands under it.
    Redirect { location: String },
    /// The token is not known: status 404.
    NotFound,
    /// The URL could be given no token: status 500.
    Failed,
}

/// What the caller is to do with a request that `handle` has seen.
#[derive(Debug, PartialEq, Eq)]
pub enum Step {
    /// Send the response.
    Reply(Response),
    /// A new entry stands under `token`: write `document` to the store's
    /// file, then call `finish_create`.
    Persist { token: String, document: String },
}

/// The number of `/` that `path` begins with.
pub open spec fn leading_slashes(path: Seq<char>) -> nat
    decreases path.len(),
{
    if path.len() > 0 && path[0] == '/' {
        1 + leading_slashes(path.drop_first())
    } else {
        0
    }
}

/// The token that a path names: the path without the `/` it begins with.
pub open spec fn token_in(path: Seq<char>) -> Seq<char> {
    path.skip(leading_slashes(path) as int)
}

impl Response {
    /// The status code.
    pub open spec fn spec_status(&self) -> u16 {
        match self {
            Response::Created { .. } => 200,
            Response::Redirect { .. } => 301,
            Response::NotFound => 404,
            Response::Failed => 500,
        }
    }

    /// The type of the body, where there is one.
    pub open spec fn spec_content_type(&self) -> Option<Seq<char>> {
        match self {
            Response::Redirect { .. } => None,
            _ => Some("text/plain"@),
        }
    }

    /// The address that the client is sent on to.
    pub open spec fn spec_location(&self) -> Option<Seq<char>> {
        match self {
            Response::Redirect { location } => Some(location@),
            _ => None,
        }
    }

    /// The body, a plain text.
    pub open spec fn spec_body(&self) -> Seq<char> {
        match self {
            Response::Created { body } => body@,
            Response::Redirect { .. } => Seq::empty(),
            Response::NotFound => "404: Page Not Found"@,
            Response::Failed => "500: Internal Server Error"@,
        }
    }

    /// The response as a gateway hands it to the web server: the header
    /// lines, an empty line, and the body.
    pub open spec fn spec_text(&self) -> Seq<char> {
        match self {
            Response::Created { body } => "Content-Type: text/plain\n\n"@ + body@,
            Response::Redirect { location } => "Status: 301\nLocation: "@ + location@ + "\n\n"@,
            Response::NotFound => "Status: 404\nContent-Type: text/plain\n\n404: Page Not Found"@,
            Response::Failed =>
                "Status: 500\nContent-Type: text/plain\n\n500: Internal Server Error"@,
        }
    }

    /// The status code.
    pub fn status(&self) -> (code: u16)
        ensures
            code == self.spec_status(),
    {
        match self {
            Response::Created { .. } => 200,
            Response::Redirect { .. } => 301,
            Response::NotFound => 404,
            Response::Failed => 500,
        }
    }

    /// The type of the body, where there is one.
    pub fn content_type(&self) -> (content_type: Option<&'static str>)
        ensures
            match content_type {
                Some(content_type) => self.spec_content_type() == Some(content_type@),
                None => self.spec_content_type() is None,
            },
    {
        match self {
            Response::Redirect { .. } => None,
            _ => Some("text/plain"),
        }
    }

    /// The address that the client is sent on to.
    pub fn location(&self) -> (location: Option<&str>)
        ensures
            match location {
                Some(location) => self.spec_location() == Some(location@),
                None => self.spec_location() is None,
            },
    {
        match self {
            Response::Redirect { location } => Some(location.as_str()),
            _ => None,
        }
    }

    /// The body, a plain text.
    pub fn body(&self) -> (body: &str)
        ensures
            body@ == self.spec_body(),
    {
        proof {
            reveal_strlit("");
        }
        match self {
            Response::Created { body } => body.as_str(),
            Response::Redirect { .. } => "",
            Response::NotFound => "404: Page Not Found",
            Response::Failed => "500: Internal Server Error",
        }
    }

    /// The response as a gateway hands it to the web server.
    pub fn text(&self) -> (text: String)
        ensures
            text@ == self.spec_text(),
    {
        match self {
            Response::Created { body } => {
                String::from_str("Content-Type: text/plain\n\n").concat(body.as_str())
            },
            Response::Redirect { location } => {
                String::from_str("Status: 301\nLocation: ").concat(location.as_str()).concat("\n\n")
            },
            Response::NotFound => {
                String::from_str("Status: 404\nContent-Type: text/plain\n\n404: Page Not Found")
            },
            Response::Failed => {
                String::from_str(
                    "Status: 500\nContent-Type: text/plain\n\n500: Internal Server Error",
                )
            },
        }
    }
}

/// Whether two texts are the same.
fn same_text(a: &str, b: &str) -> (same: bool)
    ensures
        same == (a@ == b@),
{
    broadcast use vstd::string::group_string_axioms;

    let mut left = a.chars();
    let mut right = b.chars();
    let ghost mut seen: int = 0;
    loop
        invariant_except_break
            left.remaining() == a@.skip(seen),
            right.remaining() == b@.skip(seen),
        invariant
            left.obeys_prophetic_iter_laws(),
            right.obeys_prophetic_iter_laws(),
            0 <= seen <= a@.len(),
            seen <= b@.len(),
            a@.take(seen) == b@.take(seen),
        decreases a@.len() - seen,
    {
        let x = left.next();
        let y = right.next();
        match (x, y) {
            (Some(c), Some(d)) => {
                if c != d {
                    return false;
                }
                proof {
                    seen = seen + 1;
                }
            },
            (None, None) => {
                assert(a@.take(seen) == a@);
                assert(b@.take(seen) == b@);
                return true;
            },
            _ => {
                return false;
            },
        }
    }
}

/// Whether `path` is the path of a request that asks for a token.
pub fn is_create(path: &str) -> (create: bool)
    ensures
        create == (path@ == CREATE_PATH@),
{
    same_text(path, CREATE_PATH)
}

/// The token that `path` names: `path` without the `/` it begins with.
pub fn token_of_path(path: &str) -> (token: &str)
    ensures
        token@ == token_in(path@),
{
    broadcast use vstd::string::group_string_axioms;

    let length: usize = path.unicode_len();
    let mut chars = path.chars();
    let mut slashes: usize = 0;
    loop
        invariant_except_break
            chars.remaining() == path@.skip(slashes as int),
        invariant
            chars.obeys_prophetic_iter_laws(),
            slashes <= length == path@.len(),
            leading_slashes(path@) == slashes + leading_slashes(path@.skip(slashes as int)),
        ensures
            slashes == leading_slashes(path@),
        decreases length - slashes,
    {
        match chars.next() {
            Some(c) => {
                if c != '/' {
                    break;
                }
                slashes = slashes + 1;
            },
            None => {
                break;
            },
        }
    }
    path.substring_char(slashes, length)
}

/// How a request for a token is answered, and what it does to the store.
///
/// The query is added to the store as a URL. Where the store held it
/// already, the reply names its token behind the base URL. Where it is new,
/// its entry is made and the document is to be written. The reply says that
/// the request failed only where the URL is new and can get no token: no
/// identifier is free, or the serializer writes no document for the entries
/// with the new one behind them.
pub open spec fn created(
    before: Entries,
    query: Seq<char>,
    base: Seq<char>,
    step: Step,
    after: Entries,
) -> bool {
    match step {
        Step::Reply(Response::Created { body }) => {
            &&& after == before
            &&& token_of(before, query) matches Some(token) && body@ == base + token
        },
        Step::Persist { token, document } => add_post(
            before,
            query,
            Ok(Added { token, document: Some(document) }),
            after,
        ),
        Step::Reply(Response::Failed) => {
            &&& !has_second(before, query)
            &&& exhausted(before) || unwritable(before, query)
            &&& after == before
        },
        _ => false,
    }
}

/// How a request that names a token is answered: the reply sends the client
/// on to the URL that stands under the token, or says that there is none.
pub open spec fn resolved(entries: Entries, path: Seq<char>, response: Response) -> bool {
    match url_of(entries, token_in(path)) {
        Some(url) => (response matches Response::Redirect { location } && location@ == url),
        None => response == Response::NotFound,
    }
}

/// How `handle` answers a request, and what it does to the store: a request
/// to the reserved path asks for a token, and any other names one.
pub open spec fn handled(
    before: Entries,
    path: Seq<char>,
    query: Seq<char>,
    base: Seq<char>,
    step: Step,
    after: Entries,
) -> bool {
    if path == CREATE_PATH@ {
        created(before, query, base, step, after)
    } else {
        after == before && (step matches Step::Reply(response) && resolved(before, path, response))
    }
}

/// Answers a request that names a token by its path.
pub fn resolve(store: &UrlMap, path: &str) -> (response: Response)
    ensures
        resolved(store@, path@, response),
{
    match store.get_url(token_of_path(path)) {
        Some(url) => Response::Redirect { location: String::from_str(url) },
        None => Response::NotFound,
    }
}

/// Answers a request for a token: `query` is the URL to shorten, as it came,
/// and `base` is the URL that the token is appended to in the reply.
pub fn create(store: &mut UrlMap, query: &str, base: &str) -> (step: Step)
    ensures
        final(store).spec_path() == old(store).spec_path(),
        created(old(store)@, query@, base@, step, final(store)@),
{
    match store.add_url(query) {
        Ok(added) => match added.document {
            None => Step::Reply(
                Response::Created { body: String::from_str(base).concat(added.token.as_str()) },
            ),
            Some(document) => Step::Persist { token: added.token, document },
        },
        Err(_) => Step::Reply(Response::Failed),
    }
}

/// Takes a request to the store. `path` and `query` are the request's, and
/// `base` is the URL that a token is appended to in the reply.
pub fn handle(store: &mut UrlMap, path: &str, query: &str, base: &str) -> (step: Step)
    ensures
        final(store).spec_path() == old(store).spec_path(),
        handled(old(store)@, path@, query@, base@, step, final(store)@),
{
    if is_create(path) {
        create(store, query, base)
    } else {
        Step::Reply(resolve(store, path))
    }
}

/// Ends a request whose new entry stands under `token`, once the caller has
/// tried to write the document: `written` says whether it is on disk. If it
/// is, the reply names the token behind the base URL. If it is not, the
/// entry is taken back and the reply says that the request failed.
pub fn finish_create(store: &mut UrlMap, token: &str, written: bool, base: &str) -> (response:
    Response)
    ensures
        final(store).spec_path() == old(store).spec_path(),
        written ==> final(store)@ == old(store)@,
        written ==> (response matches Response::Created { body } && body@ == base@ + token@),
        !written ==> final(store)@ == without_token(old(store)@, token@),
        !written ==> response == Response::Failed,
{
    match store.settle(token, written) {
        Ok(_) => Response::Created { body: String::from_str(base).concat(token) },
        Err(_) => Response::Failed,
    }
}

} // verus!
