//! The requests the daemon makes, and what their answers mean.

use vstd::prelude::*;

use crate::json::{Json, JsonView};
use crate::text;

verus! {

#[derive(Debug, Clone, Copy, PartialEq, Eq, Structural)]
pub enum Method {
    Get,
    Post,
    Patch,
    Delete,
}

#[derive(Debug)]
pub enum Payload {
    Empty,
    Json(Json),
    Plain(String),
}

/// One request.
#[derive(Debug)]
pub struct Call {
    pub method: Method,
    pub url: String,
    pub query: Vec<(String, String)>,
    /// The header that carries the credential, and its value.
    pub credential: (String, String),
    pub payload: Payload,
}

pub enum PayloadView {
    Empty,
    Json(JsonView),
    Plain(Seq<char>),
}

pub struct CallView {
    pub method: Method,
    pub url: Seq<char>,
    pub query: Seq<(Seq<char>, Seq<char>)>,
    pub credential: (Seq<char>, Seq<char>),
    pub payload: PayloadView,
}

impl View for Payload {
    type V = PayloadView;

    open spec fn view(&self) -> PayloadView {
        match self {
            Payload::Empty => PayloadView::Empty,
            Payload::Json(body) => PayloadView::Json(body@),
            Payload::Plain(body) => PayloadView::Plain(body@),
        }
    }
}

pub open spec fn query_view(query: Seq<(String, String)>) -> Seq<(Seq<char>, Seq<char>)> {
    query.map_values(|pair: (String, String)| (pair.0@, pair.1@))
}

impl View for Call {
    type V = CallView;

    open spec fn view(&self) -> CallView {
        CallView {
            method: self.method,
            url: self.url@,
            query: query_view(self.query@),
            credential: (self.credential.0@, self.credential.1@),
            payload: self.payload@,
        }
    }
}

/// A request with no query and no payload.
pub open spec fn bare(
    method: Method,
    url: Seq<char>,
    credential: (Seq<char>, Seq<char>),
) -> CallView {
    CallView { method, url, query: Seq::empty(), credential, payload: PayloadView::Empty }
}

impl Call {
    pub fn new(method: Method, url: String, header: &str, value: String) -> (res: Call)
        ensures
            res@ == bare(method, url@, (header@, value@)),
    {
        let res = Call {
            method,
            url,
            query: Vec::new(),
            credential: (header.to_owned(), value),
            payload: Payload::Empty,
        };
        proof {
            assert(query_view(res.query@) =~= Seq::<(Seq<char>, Seq<char>)>::empty());
        }
        res
    }

    /// The request with one more pair in its query.
    pub fn asking(self, key: &str, value: String) -> (res: Call)
        ensures
            res@ == (CallView { query: self@.query.push((key@, value@)), ..self@ }),
    {
        let ghost before = self@;
        let ghost pair = (key@, value@);
        let mut query = self.query;
        query.push((key.to_owned(), value));
        let res = Call {
            method: self.method,
            url: self.url,
            query,
            credential: self.credential,
            payload: self.payload,
        };
        proof {
            assert(res@.query =~= before.query.push(pair));
        }
        res
    }

    /// The request with this document as its payload.
    pub fn sending(self, body: Json) -> (res: Call)
        ensures
            res@ == (CallView { payload: PayloadView::Json(body@), ..self@ }),
    {
        Call {
            method: self.method,
            url: self.url,
            query: self.query,
            credential: self.credential,
            payload: Payload::Json(body),
        }
    }

    /// The request with this text as its payload.
    pub fn sending_text(self, body: String) -> (res: Call)
        ensures
            res@ == (CallView { payload: PayloadView::Plain(body@), ..self@ }),
    {
        Call {
            method: self.method,
            url: self.url,
            query: self.query,
            credential: self.credential,
            payload: Payload::Plain(body),
        }
    }
}

/// The answer to a request: the status as a number and as it is shown, and the body.
#[derive(Debug)]
pub struct Reply {
    pub code: u16,
    pub status: String,
    pub body: String,
}

pub const NOT_FOUND: u16 = 404;

pub open spec fn succeeded(code: u16) -> bool {
    200 <= code < 300
}

pub fn is_success(code: u16) -> (res: bool)
    ensures
        res == succeeded(code),
{
    200 <= code && code < 300
}

/// What is told of an answer that is no success; `shown` is what is told of its body.
pub open spec fn refused_text(what: Seq<char>, reply: Reply, shown: Seq<char>) -> Seq<char> {
    what + ": HTTP "@ + reply.status@ + ": "@ + shown
}

pub fn refused(what: &str, reply: &Reply, shown: &str) -> (res: String)
    ensures
        res@ == refused_text(what@, *reply, shown@),
{
    what.to_owned().concat(": HTTP ").concat(reply.status.as_str()).concat(": ").concat(shown)
}

/// What is told of a body that could not be read; `shown` is what is told of the body.
pub fn undecoded(what: &str, shown: &str) -> (res: String)
    ensures
        res@ == what@ + ": decoding "@ + shown@,
{
    what.to_owned().concat(": decoding ").concat(shown)
}

} // verus!
