//! The wire envelopes and the dispatcher's pure half: building request
//! envelopes and turning typed responses into the lines a caller
//! renders, driven by the closed status taxonomy.

use vstd::prelude::*;
use vstd::string::{StrSliceExecFns, StringExecFns};

use crate::render::{ser_model, to_text};
use crate::value::{object_models, Value, ValueModel};

verus! {

/// The request kinds the protocol knows.
#[derive(Clone, Copy, Debug, PartialEq, Eq, Structural)]
pub enum Type {
    Query,
    Ping,
    PreRequest,
    Cluster,
}

/// The closed status taxonomy of a response: three success statuses,
/// the client-caused errors, and the server-caused one.
#[derive(Clone, Copy, Debug, PartialEq, Eq, Structural)]
pub enum Status {
    Okay,
    Inserted,
    Updated,
    InvalidQuery,
    NotFound,
    AlreadyExists,
    BadBson,
    BadAuth,
    BadBody,
    NotAuthorized,
    Reserved,
    SyntaxError,
    InternalError,
}

/// The success family of the taxonomy.
pub open spec fn is_success(st: Status) -> bool {
    st == Status::Okay || st == Status::Inserted || st == Status::Updated
}

impl Status {
    /// Whether this status reports success.
    pub fn success(&self) -> (r: bool)
        ensures
            r == is_success(*self),
    {
        matches!(self, Status::Okay | Status::Inserted | Status::Updated)
    }

    /// The status name, as rendered after a success without a result
    /// document.
    pub fn name(&self) -> (r: &'static str)
        ensures
            r@ == self.spec_name(),
    {
        match self {
            Status::Okay => "Ok",
            Status::Inserted => "Inserted",
            Status::Updated => "Updated",
            Status::InvalidQuery => "InvalidQuery",
            Status::NotFound => "NotFound",
            Status::AlreadyExists => "AlreadyExists",
            Status::BadBson => "BadBson",
            Status::BadAuth => "BadAuth",
            Status::BadBody => "BadBody",
            Status::NotAuthorized => "NotAuthorized",
            Status::Reserved => "Reserved",
            Status::SyntaxError => "SyntaxError",
            Status::InternalError => "InternalError",
        }
    }

    /// The name text of each status.
    pub open spec fn spec_name(&self) -> Seq<char> {
        match self {
            Status::Okay => "Ok"@,
            Status::Inserted => "Inserted"@,
            Status::Updated => "Updated"@,
            Status::InvalidQuery => "InvalidQuery"@,
            Status::NotFound => "NotFound"@,
            Status::AlreadyExists => "AlreadyExists"@,
            Status::BadBson => "BadBson"@,
            Status::BadAuth => "BadAuth"@,
            Status::BadBody => "BadBody"@,
            Status::NotAuthorized => "NotAuthorized"@,
            Status::Reserved => "Reserved"@,
            Status::SyntaxError => "SyntaxError"@,
            Status::InternalError => "InternalError"@,
        }
    }
}

/// The request envelope's header: the request kind and an optional
/// authentication token.
#[derive(Debug, PartialEq)]
pub struct ReqHeader {
    pub type_: Type,
    pub auth: Option<String>,
}

/// The request envelope: a header and a document body.
#[derive(Debug, PartialEq)]
pub struct Request {
    pub body: Value,
    pub header: ReqHeader,
}

/// The response envelope's header: a status, optional server messages,
/// and the server's own error flag.
#[derive(Debug, PartialEq)]
pub struct ResHeader {
    pub status: Status,
    pub messages: Option<Vec<String>>,
    pub is_error: bool,
}

/// The response envelope: a header and an optional result document.
#[derive(Debug, PartialEq)]
pub struct Response {
    pub header: ResHeader,
    pub body: Option<Value>,
}

/// The body of a query request: `{ "query": ..., "database": ... }`.
pub open spec fn query_body_model(query: Seq<char>, database: Seq<char>) -> ValueModel {
    ValueModel::Object(
        seq![
            ("query"@, ValueModel::Str(query)),
            ("database"@, ValueModel::Str(database)),
        ],
    )
}

/// Builds the request envelope for one query line: type `Query`, no
/// token, and the body `{ "query": <text>, "database": <name> }`.
pub fn build_query_request(query: &str, database: &str) -> (r: Request)
    ensures
        r.header.type_ == Type::Query,
        r.header.auth is None,
        r.body@ == query_body_model(query@, database@),
{
    let mut pairs: Vec<(String, Value)> = Vec::new();
    pairs.push((String::from_str("query"), Value::Str(String::from_str(query))));
    pairs.push((String::from_str("database"), Value::Str(String::from_str(database))));
    let body = Value::Object(pairs);
    proof {
        reveal_with_fuel(object_models, 3);
        let ps = pairs@;
        assert(ps.subrange(1, 2) =~= seq![ps[1]]);
        assert(ps.subrange(1, 2).subrange(1, 1) =~= Seq::<(String, Value)>::empty());
        assert(object_models(ps) =~= seq![
            ("query"@, ValueModel::Str(query@)),
            ("database"@, ValueModel::Str(database@)),
        ]);
    }
    Request { body, header: ReqHeader { type_: Type::Query, auth: None } }
}

/// Turns a typed response into the lines to show, by the status
/// taxonomy: a success with a result document renders that document's
/// canonical text; a success without one renders the status name; an
/// error renders the server-supplied messages, one line each.
pub fn render_response(resp: &Response) -> (lines: Vec<String>)
    ensures
        is_success(resp.header.status) ==> (match resp.body {
            Some(v) => lines@.len() == 1 && lines@[0]@ == ser_model(v@),
            None => lines@.len() == 1 && lines@[0]@ == resp.header.status.spec_name(),
        }),
        !is_success(resp.header.status) ==> (match resp.header.messages {
            Some(msgs) => lines@.len() == msgs@.len() && (forall|i: int|
                0 <= i < msgs@.len() ==> (#[trigger] lines@[i])@ == msgs@[i]@),
            None => lines@.len() == 0,
        }),
{
    let mut lines: Vec<String> = Vec::new();
    if resp.header.status.success() {
        match &resp.body {
            Some(v) => {
                lines.push(to_text(v));
            },
            None => {
                lines.push(String::from_str(resp.header.status.name()));
            },
        }
    } else {
        match &resp.header.messages {
            Some(msgs) => {
                let mut i: usize = 0;
                while i < msgs.len()
                    invariant
                        i <= msgs.len(),
                        lines@.len() == i as int,
                        forall|y: int|
                            0 <= y < i as int ==> (#[trigger] lines@[y])@ == msgs@[y]@,
                    decreases msgs.len() - i,
                {
                    lines.push(msgs[i].clone());
                    i += 1;
                }
            },
            None => {},
        }
    }
    lines
}

} // verus!
