//! The envelope that carries a script over the network, and a builder for
//! it.

use vstd::prelude::*;
use rand::distributions::{Alphanumeric, DistString};
use crate::error::Error as QueryError;
use crate::messaging::Response as Answer;
use crate::table::StringMap;
use crate::text::{chars_of, owned, push_str_chars, string_of};

verus! {

/// A script with its bindings, and an id that the answer carries back.
pub struct Request {
    pub id: String,
    pub query: String,
    pub vars: StringMap,
}

/// The answers to a script, under the id of its request.
pub struct Response {
    pub id: String,
    pub results: Vec<Answer>,
}

/// What the receiving end of a network gateway reads.
pub type QueryRequest = Request;

/// What a network gateway sends back.
pub type QueryResponse = Response;

/// What can go wrong on the client's side of the network.
#[derive(Debug, Clone, Copy, PartialEq, Eq, Structural)]
pub enum Error {
    HTTPRequestFail,
    ReadBodyFail,
    WebSocketConnectionFail,
    WebSocketSendFail,
    WebSocketRecvFail,
    WebSocketRecvTimeout,
}

pub open spec fn client_error_text(e: Error) -> Seq<char> {
    match e {
        Error::HTTPRequestFail => "Sending HTTP Request failed"@,
        Error::ReadBodyFail => "Reading body content failed"@,
        Error::WebSocketConnectionFail => "Connecting to WebSocket failed"@,
        Error::WebSocketSendFail => "Sending message to WebSocket failed"@,
        Error::WebSocketRecvFail => "Receive message from WebSocket failed"@,
        Error::WebSocketRecvTimeout => "Receive message from WebSocket timeout"@,
    }
}

impl Error {
    /// The human-readable text of the error.
    pub fn message(&self) -> (r: String)
        ensures
            r@ == client_error_text(*self),
    {
        match self {
            Error::HTTPRequestFail => owned("Sending HTTP Request failed"),
            Error::ReadBodyFail => owned("Reading body content failed"),
            Error::WebSocketConnectionFail => owned("Connecting to WebSocket failed"),
            Error::WebSocketSendFail => owned("Sending message to WebSocket failed"),
            Error::WebSocketRecvFail => owned("Receive message from WebSocket failed"),
            Error::WebSocketRecvTimeout => owned("Receive message from WebSocket timeout"),
        }
    }
}

/// `host` followed by `suffix`.
fn joined(host: &str, suffix: &str) -> (r: String)
    ensures
        r@ == host@ + suffix@,
{
    let mut text = chars_of(host);
    push_str_chars(&mut text, suffix);
    string_of(&text)
}

/// The address that takes scripts over HTTP.
pub fn query_endpoint(host: &str) -> (r: String)
    ensures
        r@ == host@ + "/query"@,
{
    joined(host, "/query")
}

/// The address of the WebSocket channel.
pub fn rpc_endpoint(host: &str) -> (r: String)
    ensures
        r@ == host@ + "/rpc"@,
{
    joined(host, "/rpc")
}

/// The reply to a script: its answers, or a single error answer when the
/// script failed. The flag tells whether it succeeded.
pub fn reply_for(id: String, outcome: Result<Vec<Answer>, QueryError>) -> (r: (bool, Response))
    ensures
        r.0 == outcome is Ok,
        r.1.id@ == id@,
        outcome is Ok ==> r.1.results == outcome->Ok_0,
        outcome is Err ==> r.1.results@ == seq![Answer::Error(outcome->Err_0)],
{
    match outcome {
        Ok(results) => (true, Response { id, results }),
        Err(error) => {
            let results = vec![error.as_response()];
            (false, Response { id, results })
        },
    }
}

pub open spec fn is_ascii_alphanumeric(c: char) -> bool {
    ('a' <= c && c <= 'z') || ('A' <= c && c <= 'Z') || ('0' <= c && c <= '9')
}

/// Relies on rand's `Alphanumeric` string sampling: `len` characters, each
/// an ASCII letter or digit, drawn from the thread's generator.
#[verifier::external_body]
fn random_alphanumeric(len: usize) -> (r: String)
    ensures
        r@.len() == len,
        forall|i: int| 0 <= i < r@.len() ==> is_ascii_alphanumeric(#[trigger] r@[i]),
{
    Alphanumeric.sample_string(&mut rand::thread_rng(), len)
}

/// Builds a `Request` step by step.
pub struct QueryBuilder {
    req: Request,
}

impl QueryBuilder {
    pub closed spec fn id(&self) -> Seq<char> {
        self.req.id@
    }

    pub closed spec fn query(&self) -> Seq<char> {
        self.req.query@
    }

    pub closed spec fn vars(&self) -> Map<Seq<char>, Seq<char>> {
        self.req.vars@
    }

    pub closed spec fn wf(&self) -> bool {
        self.req.vars.wf()
    }

    /// A builder with an empty id, an empty script and no bindings.
    pub fn new() -> (r: QueryBuilder)
        ensures
            r.wf(),
            r.id() == Seq::<char>::empty(),
            r.query() == Seq::<char>::empty(),
            r.vars() == Map::<Seq<char>, Seq<char>>::empty(),
    {
        QueryBuilder { req: Request { id: String::new(), query: String::new(), vars: StringMap::new() } }
    }

    /// A builder whose request has the given id.
    pub fn from_id(id: &str) -> (r: QueryBuilder)
        ensures
            r.wf(),
            r.id() == id@,
            r.query() == Seq::<char>::empty(),
            r.vars() == Map::<Seq<char>, Seq<char>>::empty(),
    {
        QueryBuilder { req: Request { id: owned(id), query: String::new(), vars: StringMap::new() } }
    }

    /// Binds `$key` to `value`, replacing an earlier binding.
    pub fn bind(self, key: &str, value: &str) -> (r: QueryBuilder)
        requires
            self.wf(),
        ensures
            r.wf(),
            r.id() == self.id(),
            r.query() == self.query(),
            r.vars() == self.vars().insert(key@, value@),
    {
        let mut b = self;
        b.req.vars.insert(owned(key), owned(value));
        b
    }

    /// Replaces every binding.
    pub fn bind_all(self, table: StringMap) -> (r: QueryBuilder)
        requires
            table.wf(),
        ensures
            r.wf(),
            r.id() == self.id(),
            r.query() == self.query(),
            r.vars() == table@,
    {
        let mut b = self;
        b.req.vars = table;
        b
    }

    /// Sets the id.
    pub fn set_id(self, id: &str) -> (r: QueryBuilder)
        requires
            self.wf(),
        ensures
            r.wf(),
            r.id() == id@,
            r.query() == self.query(),
            r.vars() == self.vars(),
    {
        let mut b = self;
        b.req.id = owned(id);
        b
    }

    /// Replaces the script.
    pub fn set_query(self, query: String) -> (r: QueryBuilder)
        requires
            self.wf(),
        ensures
            r.wf(),
            r.id() == self.id(),
            r.query() == query@,
            r.vars() == self.vars(),
    {
        let mut b = self;
        b.req.query = query;
        b
    }

    /// Appends a line to the script.
    pub fn add_query(self, query: &str) -> (r: QueryBuilder)
        requires
            self.wf(),
        ensures
            r.wf(),
            r.id() == self.id(),
            r.query() == self.query() + query@ + seq!['\n'],
            r.vars() == self.vars(),
    {
        let mut b = self;
        let mut text = chars_of(b.req.query.as_str());
        push_str_chars(&mut text, query);
        text.push('\n');
        b.req.query = string_of(&text);
        b
    }

    /// Gives the request a fresh id of sixteen random ASCII letters and
    /// digits.
    pub fn set_random_id(self) -> (r: QueryBuilder)
        requires
            self.wf(),
        ensures
            r.wf(),
            r.id().len() == 16,
            forall|i: int| 0 <= i < 16 ==> is_ascii_alphanumeric(#[trigger] r.id()[i]),
            r.query() == self.query(),
            r.vars() == self.vars(),
    {
        let mut b = self;
        b.req.id = random_alphanumeric(16);
        b
    }

    /// The request built so far.
    pub fn collect(self) -> (r: Request)
        ensures
            r.id@ == self.id(),
            r.query@ == self.query(),
            r.vars@ == self.vars(),
            self.wf() ==> r.vars.wf(),
    {
        self.req
    }
}

} // verus!
