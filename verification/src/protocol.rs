//! The daemon's request/response protocol: a closed set of tagged messages
//! exchanged over a local inter-process channel, one request and one response
//! per connection.

use vstd::prelude::*;

verus! {

/// Asks the daemon to create a topic holding the given content.
pub struct CreateTopicRequest {
    pub topic_name: String,
    pub content: String,
}

/// Whether the creation succeeded.
pub struct CreateTopicResponse {
    pub success: bool,
}

/// Asks the daemon to overwrite a topic's content.
pub struct UpdateTopicRequest {
    pub topic_name: String,
    pub content: String,
}

/// Whether the update succeeded.
pub struct UpdateTopicResponse {
    pub success: bool,
}

/// Asks the daemon to search, within one topic when one is given.
pub struct SearchTopicRequest {
    pub topic_name: Option<String>,
    pub query: String,
    pub limit: u64,
}

/// The matching contents, best first.
pub struct SearchTopicResponse {
    pub results: Vec<String>,
}

/// Asks the daemon to enumerate a topic's contents.
pub struct ListTopicRequest {
    pub topic_name: String,
    pub limit: u32,
}

/// The topic's contents, at most the requested number.
pub struct ListTopicResponse {
    pub results: Vec<String>,
}

/// A request to the daemon.
pub enum Request {
    CreateTopic(CreateTopicRequest),
    UpdateTopic(UpdateTopicRequest),
    SearchTopic(SearchTopicRequest),
    ListTopic(ListTopicRequest),
}

/// The daemon's answer, of the same kind as the request.
pub enum Response {
    CreateTopic(CreateTopicResponse),
    UpdateTopic(UpdateTopicResponse),
    SearchTopic(SearchTopicResponse),
    ListTopic(ListTopicResponse),
}

/// The mathematical value of a [`Request`].
pub enum RequestAbs {
    CreateTopic { topic_name: Seq<char>, content: Seq<char> },
    UpdateTopic { topic_name: Seq<char>, content: Seq<char> },
    SearchTopic { topic_name: Option<Seq<char>>, query: Seq<char>, limit: u64 },
    ListTopic { topic_name: Seq<char>, limit: u32 },
}

/// The mathematical value of a [`Response`].
pub enum ResponseAbs {
    CreateTopic { success: bool },
    UpdateTopic { success: bool },
    SearchTopic { results: Seq<Seq<char>> },
    ListTopic { results: Seq<Seq<char>> },
}

/// The view of an optional string.
pub open spec fn opt_string_abs(o: Option<String>) -> Option<Seq<char>> {
    match o {
        Some(s) => Some(s@),
        None => None,
    }
}

/// The view of a list of strings.
pub open spec fn strings_abs(v: Seq<String>) -> Seq<Seq<char>> {
    v.map_values(|s: String| s@)
}

impl View for Request {
    type V = RequestAbs;

    open spec fn view(&self) -> RequestAbs {
        match self {
            Request::CreateTopic(q) => RequestAbs::CreateTopic {
                topic_name: q.topic_name@,
                content: q.content@,
            },
            Request::UpdateTopic(q) => RequestAbs::UpdateTopic {
                topic_name: q.topic_name@,
                content: q.content@,
            },
            Request::SearchTopic(q) => RequestAbs::SearchTopic {
                topic_name: opt_string_abs(q.topic_name),
                query: q.query@,
                limit: q.limit,
            },
            Request::ListTopic(q) => RequestAbs::ListTopic {
                topic_name: q.topic_name@,
                limit: q.limit,
            },
        }
    }
}

impl View for Response {
    type V = ResponseAbs;

    open spec fn view(&self) -> ResponseAbs {
        match self {
            Response::CreateTopic(p) => ResponseAbs::CreateTopic { success: p.success },
            Response::UpdateTopic(p) => ResponseAbs::UpdateTopic { success: p.success },
            Response::SearchTopic(p) => ResponseAbs::SearchTopic { results: strings_abs(p.results@) },
            Response::ListTopic(p) => ResponseAbs::ListTopic { results: strings_abs(p.results@) },
        }
    }
}

/// The text a request's dispatch must embed first: the content for writes,
/// the query for searches; a listing embeds nothing.
pub open spec fn spec_request_text(r: RequestAbs) -> Option<Seq<char>> {
    match r {
        RequestAbs::CreateTopic { content, .. } => Some(content),
        RequestAbs::UpdateTopic { content, .. } => Some(content),
        RequestAbs::SearchTopic { query, .. } => Some(query),
        RequestAbs::ListTopic { .. } => None,
    }
}

/// The text to embed before dispatching `r`, if the operation needs one.
pub fn request_text(r: &Request) -> (t: Option<&String>)
    ensures
        match t {
            Some(s) => spec_request_text(r@) == Some(s@),
            None => spec_request_text(r@) is None,
        },
{
    match r {
        Request::CreateTopic(q) => Some(&q.content),
        Request::UpdateTopic(q) => Some(&q.content),
        Request::SearchTopic(q) => Some(&q.query),
        Request::ListTopic(_) => None,
    }
}

} // verus!
