//! What the ledger's HTTP front end decides: which operation a request
//! method stands for, and which reply goes back. The front end itself reads
//! requests, encodes values as JSON and writes replies.

use vstd::prelude::*;
use vstd::string::*;

verus! {

/// The operation that a request asks for.
#[derive(Debug, Clone, Copy, PartialEq, Eq, Structural)]
pub enum Route {
    /// Return the whole chain.
    ReadChain,
    /// Append a block for the payload in the request body.
    AppendBlock,
    /// Anything else.
    NotFound,
}

/// A reply, before it is written to the wire.
#[derive(Debug)]
pub struct Reply {
    /// HTTP status code.
    pub status: u16,
    /// Value of the `Content-Type` header, if the reply sets one.
    pub content_type: Option<String>,
    /// The body.
    pub body: String,
}

/// The route for a request method: `GET` reads, `POST` appends, every other
/// method is not found. Methods are compared as written, in upper case.
pub open spec fn route_of(method: Seq<char>) -> Route {
    if method == "GET"@ {
        Route::ReadChain
    } else if method == "POST"@ {
        Route::AppendBlock
    } else {
        Route::NotFound
    }
}

/// Whether `reply` is the plain-text reply with the given status and body.
pub open spec fn is_plain_reply(reply: Reply, status: u16, body: Seq<char>) -> bool {
    &&& reply.status == status
    &&& reply.content_type is None
    &&& reply.body@ == body
}

/// Whether `reply` is the successful reply that carries `json`.
pub open spec fn is_json_reply(reply: Reply, json: Seq<char>) -> bool {
    &&& reply.status == 200
    &&& reply.content_type matches Some(t) && t@ == "application/json"@
    &&& reply.body@ == json
}

/// Picks the route for a request method.
pub fn route(method: &str) -> (r: Route)
    ensures
        r == route_of(method@),
{
    let method = method.to_owned();
    if method == "GET".to_owned() {
        Route::ReadChain
    } else if method == "POST".to_owned() {
        Route::AppendBlock
    } else {
        Route::NotFound
    }
}

/// The reply for a value that was to be encoded as JSON: the text with
/// status 200 and content type `application/json` if encoding succeeded, a
/// server error if it failed.
pub fn json_reply(encoded: Result<String, String>) -> (reply: Reply)
    ensures
        match encoded {
            Ok(json) => is_json_reply(reply, json@),
            Err(_) => is_plain_reply(reply, 500, "Internal Server Error"@),
        },
{
    match encoded {
        Ok(json) => Reply {
            status: 200,
            content_type: Some("application/json".to_owned()),
            body: json,
        },
        Err(_) => Reply {
            status: 500,
            content_type: None,
            body: "Internal Server Error".to_owned(),
        },
    }
}

/// The reply to an append request whose body cannot be decoded. Such a
/// request is turned away before anything reaches the ledger.
pub fn bad_request() -> (reply: Reply)
    ensures
        is_plain_reply(reply, 400, "Bad Request"@),
{
    Reply { status: 400, content_type: None, body: "Bad Request".to_owned() }
}

/// The reply to a request whose method has no route.
pub fn not_found() -> (reply: Reply)
    ensures
        is_plain_reply(reply, 404, "Not Found"@),
{
    Reply { status: 404, content_type: None, body: "Not Found".to_owned() }
}

} // verus!
