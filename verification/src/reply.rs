//! Answers that the relay gives by itself.

use vstd::prelude::*;

verus! {

/// What an answer carries.
#[derive(Clone, Debug, PartialEq, Eq)]
pub enum ReplyBody {
    Empty,
    /// Plain text.
    Text(String),
    /// A JSON object with the member `error` and, where there is one, the member `detail`.
    Error { error: String, detail: Option<String> },
}

/// An answer: the status code, the `Proxy-Authenticate` header where it has one, and the body.
#[derive(Clone, Debug, PartialEq, Eq)]
pub struct Reply {
    pub status: u16,
    pub proxy_authenticate: Option<String>,
    pub body: ReplyBody,
}

#[verifier::ext_equal]
pub enum BodyView {
    Empty,
    Text(Seq<char>),
    Error { error: Seq<char>, detail: Option<Seq<char>> },
}

#[verifier::ext_equal]
pub struct ReplyView {
    pub status: u16,
    pub proxy_authenticate: Option<Seq<char>>,
    pub body: BodyView,
}

pub open spec fn text_view(t: Option<String>) -> Option<Seq<char>> {
    match t {
        Some(s) => Some(s@),
        None => None,
    }
}

impl View for Reply {
    type V = ReplyView;

    open spec fn view(&self) -> ReplyView {
        ReplyView {
            status: self.status,
            proxy_authenticate: text_view(self.proxy_authenticate),
            body: match self.body {
                ReplyBody::Empty => BodyView::Empty,
                ReplyBody::Text(t) => BodyView::Text(t@),
                ReplyBody::Error { error, detail } => BodyView::Error {
                    error: error@,
                    detail: text_view(detail),
                },
            },
        }
    }
}

/// A plain text answer.
pub open spec fn text_answer(status: u16, body: Seq<char>) -> ReplyView {
    ReplyView { status, proxy_authenticate: None, body: BodyView::Text(body) }
}

/// A JSON answer that names an error.
pub open spec fn error_answer(status: u16, error: Seq<char>) -> ReplyView {
    ReplyView { status, proxy_authenticate: None, body: BodyView::Error { error, detail: None } }
}

/// A JSON answer that names an error and describes it.
pub open spec fn detailed_answer(status: u16, error: Seq<char>, detail: Seq<char>) -> ReplyView {
    ReplyView {
        status,
        proxy_authenticate: None,
        body: BodyView::Error { error, detail: Some(detail) },
    }
}

/// The answer to a proxy request without valid credentials.
pub open spec fn challenge() -> ReplyView {
    ReplyView {
        status: 407,
        proxy_authenticate: Some("Basic realm=\"omp-relayd\""@),
        body: BodyView::Text("proxy authentication required"@),
    }
}

/// The answer to a relay request without valid credentials.
pub open spec fn unauthorized() -> ReplyView {
    error_answer(401, "unauthorized"@)
}

/// The answer where the registry cannot be read or written.
pub open spec fn internal() -> ReplyView {
    error_answer(500, "internal"@)
}

pub fn text_reply(status: u16, body: &str) -> (r: Reply)
    ensures
        r@ == text_answer(status, body@),
{
    Reply { status, proxy_authenticate: None, body: ReplyBody::Text(body.to_owned()) }
}

pub fn error_reply(status: u16, error: &str) -> (r: Reply)
    ensures
        r@ == error_answer(status, error@),
{
    Reply {
        status,
        proxy_authenticate: None,
        body: ReplyBody::Error { error: error.to_owned(), detail: None },
    }
}

pub fn json_error(status: u16, error: &str, detail: &str) -> (r: Reply)
    ensures
        r@ == detailed_answer(status, error@, detail@),
{
    Reply {
        status,
        proxy_authenticate: None,
        body: ReplyBody::Error { error: error.to_owned(), detail: Some(detail.to_owned()) },
    }
}

pub fn proxy_auth_required() -> (r: Reply)
    ensures
        r@ == challenge(),
{
    let realm = "Basic realm=\"omp-relayd\"".to_owned();
    Reply {
        status: 407,
        proxy_authenticate: Some(realm),
        body: ReplyBody::Text("proxy authentication required".to_owned()),
    }
}

pub fn unauthorized_reply() -> (r: Reply)
    ensures
        r@ == unauthorized(),
{
    error_reply(401, "unauthorized")
}

pub fn internal_error() -> (r: Reply)
    ensures
        r@ == internal(),
{
    error_reply(500, "internal")
}

/// The answers, written out: the status and the text or the error are those that are given, whatever
/// they are, and only the challenge has a `Proxy-Authenticate` header.
pub proof fn law_answers_are_what_they_say(
    status: u16,
    body: Seq<char>,
    error: Seq<char>,
    detail: Seq<char>,
)
    ensures
        text_answer(status, body) == (ReplyView {
            status,
            proxy_authenticate: None,
            body: BodyView::Text(body),
        }),
        error_answer(status, error) == (ReplyView {
            status,
            proxy_authenticate: None,
            body: BodyView::Error { error, detail: None },
        }),
        detailed_answer(status, error, detail) == (ReplyView {
            status,
            proxy_authenticate: None,
            body: BodyView::Error { error, detail: Some(detail) },
        }),
        unauthorized().status == 401,
        unauthorized().proxy_authenticate is None,
        unauthorized().body == (BodyView::Error { error: "unauthorized"@, detail: None }),
        internal().status == 500,
        internal().proxy_authenticate is None,
        internal().body == (BodyView::Error { error: "internal"@, detail: None }),
        challenge().status == 407,
        challenge().proxy_authenticate == Some("Basic realm=\"omp-relayd\""@),
        challenge().body == BodyView::Text("proxy authentication required"@),
{
}

/// What an answer is seen as is what it holds.
pub proof fn law_views_of_answers_are_faithful(a: Reply, b: Reply)
    ensures
        a@ == b@ ==> a.status == b.status && text_view(a.proxy_authenticate) == text_view(
            b.proxy_authenticate,
        ),
        a@.status == a.status,
        a.body matches ReplyBody::Text(t) ==> a@.body == BodyView::Text(t@),
        a.body is Empty ==> a@.body is Empty,
        a.body matches ReplyBody::Error { error, detail } ==> a@.body == (BodyView::Error {
            error: error@,
            detail: text_view(detail),
        }),
        a.proxy_authenticate matches Some(t) ==> a@.proxy_authenticate == Some(t@),
        a.proxy_authenticate is None ==> a@.proxy_authenticate is None,
{
}

/// What an optional text is seen as is the text.
pub proof fn law_views_of_texts_are_faithful(t: Option<String>)
    ensures
        t matches Some(s) ==> text_view(t) == Some(s@),
        t is None ==> text_view(t) is None,
{
}

} // verus!
