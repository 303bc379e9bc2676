//! URIs and their authorities.

use vstd::prelude::*;

use crate::reply;

verus! {

/// The host and the port that an authority names.
#[derive(Clone, Debug, PartialEq, Eq)]
pub struct AuthorityParts {
    pub host: String,
    pub port: Option<u16>,
}

impl View for AuthorityParts {
    type V = (Seq<char>, Option<u16>);

    open spec fn view(&self) -> (Seq<char>, Option<u16>) {
        (self.host@, self.port)
    }
}

/// What the `http` crate reads in a text as an authority: its host and its port.
pub uninterp spec fn authority_of_text(text: Seq<char>) -> Option<(Seq<char>, Option<u16>)>;

/// `http::uri::Authority::from_str`, with the host and the port of what it reads. The result
/// depends on the text alone, and is an error where the text is no authority.
#[verifier::external_body]
pub(crate) fn parse_authority(text: &str) -> (r: Option<AuthorityParts>)
    ensures
        match r {
            Some(parts) => authority_of_text(text@) == Some(parts@),
            None => authority_of_text(text@) is None,
        },
{
    let authority = text.parse::<http::uri::Authority>().ok()?;
    Some(AuthorityParts { host: authority.host().to_owned(), port: authority.port_u16() })
}

/// The parts of a URI.
#[derive(Clone, Debug, PartialEq, Eq)]
pub struct UriParts {
    pub scheme: Option<String>,
    pub authority: Option<String>,
    pub host: Option<String>,
    pub port: Option<u16>,
    pub path_and_query: Option<String>,
}

#[verifier::ext_equal]
pub struct UriView {
    pub scheme: Option<Seq<char>>,
    pub authority: Option<Seq<char>>,
    pub host: Option<Seq<char>>,
    pub port: Option<u16>,
    pub path_and_query: Option<Seq<char>>,
}

impl View for UriParts {
    type V = UriView;

    open spec fn view(&self) -> UriView {
        UriView {
            scheme: reply::text_view(self.scheme),
            authority: reply::text_view(self.authority),
            host: reply::text_view(self.host),
            port: self.port,
            path_and_query: reply::text_view(self.path_and_query),
        }
    }
}

/// What the `http` crate reads in a text as a URI.
pub uninterp spec fn uri_of_text(text: Seq<char>) -> Option<UriView>;

/// `http::Uri::from_str`, with the parts of what it reads. The result depends on the text alone,
/// and is an error where the text is no URI.
#[verifier::external_body]
pub(crate) fn parse_uri(text: &str) -> (r: Option<UriParts>)
    ensures
        match r {
            Some(parts) => uri_of_text(text@) == Some(parts@),
            None => uri_of_text(text@) is None,
        },
{
    let uri = text.parse::<http::Uri>().ok()?;
    Some(UriParts {
        scheme: uri.scheme_str().map(str::to_owned),
        authority: uri.authority().map(|authority| authority.as_str().to_owned()),
        host: uri.host().map(str::to_owned),
        port: uri.port_u16(),
        path_and_query: uri.path_and_query().map(|path| path.as_str().to_owned()),
    })
}

/// What the parts of a URI are seen as is what they hold.
pub proof fn law_views_of_uris_are_faithful(parts: UriParts, authority: AuthorityParts)
    ensures
        parts.scheme matches Some(t) ==> parts@.scheme == Some(t@),
        parts.scheme is None ==> parts@.scheme is None,
        parts.authority matches Some(t) ==> parts@.authority == Some(t@),
        parts.authority is None ==> parts@.authority is None,
        parts.host matches Some(t) ==> parts@.host == Some(t@),
        parts.host is None ==> parts@.host is None,
        parts@.port == parts.port,
        parts.path_and_query matches Some(t) ==> parts@.path_and_query == Some(t@),
        parts.path_and_query is None ==> parts@.path_and_query is None,
        authority@.0 == authority.host@,
        authority@.1 == authority.port,
{
}

} // verus!
