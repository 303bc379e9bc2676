//! The forward proxy: who may use it, and where its requests may go.

use vstd::prelude::*;

use crate::address;
use crate::address::SocketAddress;
use crate::auth::AuthenticatedClient;
use crate::headers;
use crate::laws;
use crate::registry;
use crate::reply;
use crate::reply::{BodyView, Reply, ReplyBody, ReplyView};
use crate::text;
use crate::token;
use crate::token::Credentials;
use crate::uri;
use crate::uri::{AuthorityParts, UriParts, UriView};

verus! {

#[verifier::external_type_specification]
#[verifier::external_body]
pub struct ExUtf8Error(std::str::Utf8Error);

/// `std::str::from_utf8`: succeeds where the bytes are valid UTF-8, with the text that they encode.
pub assume_specification<'a>[ std::str::from_utf8 ](v: &'a [u8]) -> (r: Result<
    &'a str,
    std::str::Utf8Error,
>)
    ensures
        match r {
            Ok(s) => vstd::utf8::valid_utf8(v@) && vstd::utf8::encode_utf8(s@) == v@,
            Err(_) => !vstd::utf8::valid_utf8(v@),
        },
;

/// What follows the scheme name in a `Basic` authorization.
pub open spec fn basic_payload(value: Seq<char>) -> Option<Seq<char>> {
    if text::starts_with(value, "Basic "@) {
        Some(value.skip("Basic "@.len() as int))
    } else if text::starts_with(value, "basic "@) {
        Some(value.skip("basic "@.len() as int))
    } else {
        None
    }
}

fn basic_text(value: &str) -> (r: Option<String>)
    ensures
        match r {
            Some(t) => basic_payload(value@) == Some(t@),
            None => basic_payload(value@) is None,
        },
{
    match text::strip_prefix(value, "Basic ") {
        Some(rest) => Some(rest),
        None => text::strip_prefix(value, "basic "),
    }
}

/// What decoded credentials present.
pub open spec fn decoded_credentials(decoded: Option<Seq<u8>>) -> Option<(u128, Seq<char>)> {
    match decoded {
        Some(bytes) => if vstd::utf8::valid_utf8(bytes) {
            token::credentials_of(vstd::utf8::decode_utf8(bytes))
        } else {
            None
        },
        None => None,
    }
}

/// Reads the credentials in what a Base64 text decoded to.
pub fn credentials_from(decoded: Option<Vec<u8>>) -> (r: Option<Credentials>)
    ensures
        ({
            let bytes = match decoded {
                Some(b) => Some(b@),
                None => None,
            };
            match r {
                Some(credentials) => decoded_credentials(bytes) == Some(credentials@),
                None => decoded_credentials(bytes) is None,
            }
        }),
{
    match decoded {
        Some(bytes) => match std::str::from_utf8(bytes.as_slice()) {
            Ok(value) => {
                proof {
                    vstd::utf8::encode_utf8_decode_utf8(value@);
                }
                token::parse_credentials(value)
            },
            Err(_) => None,
        },
        None => None,
    }
}

/// What the fields of a proxy request present.
pub open spec fn proxy_credentials(fields: Seq<(Seq<char>, Seq<u8>)>) -> Option<(u128, Seq<char>)> {
    match headers::text_of_header(fields, text::lower("proxy-authorization"@)) {
        Some(value) => match basic_payload(value) {
            Some(encoded) => decoded_credentials(token::base64_decoded(encoded)),
            None => None,
        },
        None => None,
    }
}

/// The credentials of a proxy request, or the answer that asks for them.
pub fn authenticate_proxy(headers: &http::HeaderMap<http::HeaderValue>) -> (r: Result<
    Credentials,
    Reply,
>)
    ensures
        match r {
            Ok(credentials) => proxy_credentials(headers::header_fields(*headers)) == Some(credentials@),
            Err(refusal) => proxy_credentials(headers::header_fields(*headers)) is None && refusal@
                == reply::challenge(),
        },
{
    proof {
        reveal_strlit("proxy-authorization");
    }
    match headers::header_text(headers, "proxy-authorization") {
        Some(value) => match basic_text(value.as_str()) {
            Some(encoded) => {
                match credentials_from(token::decode_base64(encoded.as_str())) {
                    Some(credentials) => Ok(credentials),
                    None => Err(reply::proxy_auth_required()),
                }
            },
            None => Err(reply::proxy_auth_required()),
        },
        None => Err(reply::proxy_auth_required()),
    }
}

/// Where a proxy request is to go.
#[derive(Clone, Debug, PartialEq, Eq)]
pub struct Target {
    pub host: String,
    pub port: u16,
}

impl View for Target {
    type V = (Seq<char>, u16);

    open spec fn view(&self) -> (Seq<char>, u16) {
        (self.host@, self.port)
    }
}

/// The target of a `CONNECT` request, given whether it names an authority and what that was read
/// as.
pub open spec fn tunnel_target(named: bool, parts: Option<(Seq<char>, Option<u16>)>) -> Result<
    (Seq<char>, u16),
    ReplyView,
> {
    if !named {
        Err(reply::text_answer(400, "CONNECT target missing"@))
    } else {
        match parts {
            None => Err(reply::text_answer(400, "invalid CONNECT target"@)),
            Some((host, port)) => match port {
                None => Err(reply::text_answer(400, "CONNECT target port missing"@)),
                Some(p) => Ok((host, p)),
            },
        }
    }
}

pub open spec fn result_view(r: Result<Target, Reply>) -> Result<(Seq<char>, u16), ReplyView> {
    match r {
        Ok(target) => Ok(target@),
        Err(refusal) => Err(refusal@),
    }
}

pub open spec fn parts_view(parts: Option<AuthorityParts>) -> Option<(Seq<char>, Option<u16>)> {
    match parts {
        Some(p) => Some(p@),
        None => None,
    }
}

/// Decides the target of a `CONNECT` request.
pub fn tunnel_to(named: bool, parts: Option<AuthorityParts>) -> (r: Result<Target, Reply>)
    ensures
        result_view(r) == tunnel_target(named, parts_view(parts)),
{
    if !named {
        return Err(reply::text_reply(400, "CONNECT target missing"));
    }
    match parts {
        None => Err(reply::text_reply(400, "invalid CONNECT target")),
        Some(parts) => match parts.port {
            None => Err(reply::text_reply(400, "CONNECT target port missing")),
            Some(port) => Ok(Target { host: parts.host, port }),
        },
    }
}

/// The target of a `CONNECT` request for a URI.
pub open spec fn tunnel_of_uri(parts: Option<UriView>) -> Result<(Seq<char>, u16), ReplyView> {
    match parts {
        Some(view) => match view.authority {
            Some(authority) => tunnel_target(true, uri::authority_of_text(authority)),
            None => tunnel_target(false, None),
        },
        None => tunnel_target(false, None),
    }
}

/// The target of a `CONNECT` request, or the answer that refuses it.
pub fn connect_tunnel(parts: &Option<UriParts>) -> (r: Result<Target, Reply>)
    ensures
        result_view(r) == tunnel_of_uri(uri_view(*parts)),
{
    match parts {
        Some(parts) => match &parts.authority {
            Some(authority) => tunnel_to(true, uri::parse_authority(authority.as_str())),
            None => tunnel_to(false, None),
        },
        None => tunnel_to(false, None),
    }
}

pub open spec fn uri_view(parts: Option<UriParts>) -> Option<UriView> {
    match parts {
        Some(p) => Some(p@),
        None => None,
    }
}

/// The port of a URI that names none.
pub open spec fn default_port(scheme: Option<Seq<char>>) -> u16 {
    match scheme {
        Some(s) => if text::same_ignoring_case(s, "https"@) {
            443
        } else {
            80
        },
        None => 80,
    }
}

/// The target of a request for an absolute URI.
pub open spec fn absolute_target(parts: Option<UriView>) -> Result<(Seq<char>, u16), ReplyView> {
    match parts {
        Some(view) => if view.scheme is None || view.authority is None {
            Err(reply::text_answer(400, "absolute proxy URI required"@))
        } else {
            match view.host {
                None => Err(reply::text_answer(400, "proxy target host missing"@)),
                Some(host) => Ok(
                    (
                        host,
                        match view.port {
                            Some(p) => p,
                            None => default_port(view.scheme),
                        },
                    ),
                ),
            }
        },
        None => Err(reply::text_answer(400, "absolute proxy URI required"@)),
    }
}

/// The target of a request for an absolute URI, or the answer that refuses it.
pub fn forward_http(parts: &Option<UriParts>) -> (r: Result<Target, Reply>)
    ensures
        result_view(r) == absolute_target(uri_view(*parts)),
{
    let parts = match parts {
        Some(parts) => parts,
        None => {
            return Err(reply::text_reply(400, "absolute proxy URI required"));
        },
    };
    let scheme = match &parts.scheme {
        Some(scheme) => scheme,
        None => {
            return Err(reply::text_reply(400, "absolute proxy URI required"));
        },
    };
    if parts.authority.is_none() {
        return Err(reply::text_reply(400, "absolute proxy URI required"));
    }
    let host = match &parts.host {
        Some(host) => host,
        None => {
            return Err(reply::text_reply(400, "proxy target host missing"));
        },
    };
    let port: u16 = match parts.port {
        Some(port) => port,
        None => if text::eq_ignore_case(scheme.as_str(), "https") {
            443
        } else {
            80
        },
    };
    Ok(Target { host: host.clone(), port })
}

/// Host names that are never looked up: this machine and the metadata service of a cloud.
pub open spec fn forbidden_host(host: Seq<char>) -> bool {
    let name = text::lower(text::unbracketed(host));
    ||| name == "localhost"@
    ||| text::ends_with(name, ".localhost"@)
    ||| name == "metadata.google.internal"@
}

pub fn is_forbidden_host(host: &str) -> (r: bool)
    ensures
        r == forbidden_host(host@),
{
    let bare = text::trim_brackets(host);
    let name = text::to_lower(bare.as_str());
    let name = name.as_str();
    text::same_text(name, "localhost") || text::has_suffix(name, ".localhost") || text::same_text(
        name,
        "metadata.google.internal",
    )
}

/// Why a target is not connected to.
#[derive(Clone, Debug, PartialEq, Eq)]
pub enum TargetError {
    Forbidden,
    Resolution(String),
    Empty,
}

#[verifier::ext_equal]
pub enum TargetErrorView {
    Forbidden,
    Resolution(Seq<char>),
    Empty,
}

impl View for TargetError {
    type V = TargetErrorView;

    open spec fn view(&self) -> TargetErrorView {
        match self {
            TargetError::Forbidden => TargetErrorView::Forbidden,
            TargetError::Resolution(error) => TargetErrorView::Resolution(error@),
            TargetError::Empty => TargetErrorView::Empty,
        }
    }
}

/// Whether all of some addresses are public.
pub open spec fn all_public(addresses: Seq<SocketAddress>) -> bool {
    forall|k: int| 0 <= k < addresses.len() ==> !address::blocked((#[trigger] addresses[k]).ip_spec())
}

/// What a host name leads to, given the addresses that a lookup found or the error that it met.
pub open spec fn public_target(
    host: Seq<char>,
    lookup: Result<Seq<SocketAddress>, Seq<char>>,
) -> Result<Seq<SocketAddress>, TargetErrorView> {
    if forbidden_host(host) {
        Err(TargetErrorView::Forbidden)
    } else {
        match lookup {
            Err(error) => Err(TargetErrorView::Resolution(error)),
            Ok(addresses) => if addresses.len() == 0 {
                Err(TargetErrorView::Empty)
            } else if !all_public(addresses) {
                Err(TargetErrorView::Forbidden)
            } else {
                Ok(addresses)
            },
        }
    }
}

pub open spec fn lookup_view(lookup: Result<Vec<SocketAddress>, String>) -> Result<
    Seq<SocketAddress>,
    Seq<char>,
> {
    match lookup {
        Ok(addresses) => Ok(addresses@),
        Err(error) => Err(error@),
    }
}

pub open spec fn addresses_view(r: Result<Vec<SocketAddress>, TargetError>) -> Result<
    Seq<SocketAddress>,
    TargetErrorView,
> {
    match r {
        Ok(addresses) => Ok(addresses@),
        Err(error) => Err(error@),
    }
}

fn has_private(addresses: &Vec<SocketAddress>) -> (r: bool)
    ensures
        r == !all_public(addresses@),
{
    let mut i: usize = 0;
    while i < addresses.len()
        invariant
            i <= addresses@.len(),
            forall|k: int|
                0 <= k < i ==> !address::blocked((#[trigger] addresses@[k]).ip_spec()),
        decreases addresses@.len() - i,
    {
        if address::is_disallowed_ip(addresses[i].ip()) {
            assert(address::blocked(addresses@[i as int].ip_spec()));
            return true;
        }
        i += 1;
    }
    false
}

/// The addresses of a host, where they may be connected to: none of them is loopback, private,
/// link-local or otherwise not public. A forbidden name is refused whatever was looked up.
pub fn resolve_public_target(host: &str, lookup: Result<Vec<SocketAddress>, String>) -> (r: Result<
    Vec<SocketAddress>,
    TargetError,
>)
    ensures
        addresses_view(r) == public_target(host@, lookup_view(lookup)),
{
    if is_forbidden_host(host) {
        return Err(TargetError::Forbidden);
    }
    match lookup {
        Err(error) => Err(TargetError::Resolution(error)),
        Ok(addresses) => {
            if addresses.len() == 0 {
                return Err(TargetError::Empty);
            }
            if has_private(&addresses) {
                return Err(TargetError::Forbidden);
            }
            Ok(addresses)
        },
    }
}

/// The answer where a target is not connected to.
pub open spec fn target_answer(error: TargetErrorView) -> ReplyView {
    match error {
        TargetErrorView::Forbidden => reply::text_answer(
            403,
            "proxy target is not allowed: loopback, private, link-local, metadata, and other non-public destinations are blocked"@,
        ),
        TargetErrorView::Resolution(detail) => reply::text_answer(
            502,
            "target resolution failed: "@ + detail,
        ),
        TargetErrorView::Empty => reply::text_answer(502, "target resolved to no addresses"@),
    }
}

pub fn target_error_response(error: TargetError) -> (r: Reply)
    ensures
        r@ == target_answer(error@),
{
    match error {
        TargetError::Forbidden => reply::text_reply(
            403,
            "proxy target is not allowed: loopback, private, link-local, metadata, and other non-public destinations are blocked",
        ),
        TargetError::Resolution(detail) => {
            let message = text::joined("target resolution failed: ", detail.as_str());
            reply::text_reply(502, message.as_str())
        },
        TargetError::Empty => reply::text_reply(502, "target resolved to no addresses"),
    }
}

/// The answer where no client for a target could be built, for whatever reason.
pub open spec fn client_failure(error: Seq<char>) -> ReplyView {
    reply::text_answer(500, "failed to construct pinned HTTP client: "@ + error)
}

/// The answer where a target could not be reached, for whatever reason.
pub open spec fn upstream_failure(error: Seq<char>) -> ReplyView {
    reply::text_answer(502, "upstream connect failed: "@ + error)
}

/// The answer where no client for a target could be built.
pub fn pinned_client_failed(error: &str) -> (r: Reply)
    ensures
        r@ == reply::text_answer(500, "failed to construct pinned HTTP client: "@ + error@),
        r@ == client_failure(error@),
{
    let message = text::joined("failed to construct pinned HTTP client: ", error);
    reply::text_reply(500, message.as_str())
}

/// The answer where a target could not be reached.
pub fn upstream_failed(error: &str) -> (r: Reply)
    ensures
        r@ == reply::text_answer(502, "upstream connect failed: "@ + error@),
        r@ == upstream_failure(error@),
{
    let message = text::joined("upstream connect failed: ", error);
    reply::text_reply(502, message.as_str())
}

/// A proxy request whose credentials are to be looked up.
#[derive(Clone, Debug, PartialEq, Eq)]
pub struct ForwardRequest {
    pub credentials: Credentials,
    pub connect: bool,
    pub uri: String,
}

/// A proxy request of a known client, whose host is to be looked up.
#[derive(Clone, Debug, PartialEq, Eq)]
pub struct ForwardTarget {
    pub client: AuthenticatedClient,
    pub connect: bool,
    pub uri: String,
    pub target: Target,
}

/// A proxy request that may be carried out, with the addresses that it may connect to.
#[derive(Clone, Debug, PartialEq, Eq)]
pub struct ForwardRoute {
    pub client: AuthenticatedClient,
    pub connect: bool,
    pub uri: String,
    pub target: Target,
    pub addresses: Vec<SocketAddress>,
}

/// Takes up a proxy request, or asks for credentials.
pub fn forward_proxy(
    headers: &http::HeaderMap<http::HeaderValue>,
    connect: bool,
    uri: &str,
) -> (r: Result<ForwardRequest, Reply>)
    ensures
        match r {
            Ok(request) => {
                &&& proxy_credentials(headers::header_fields(*headers)) == Some(request.credentials@)
                &&& request.connect == connect
                &&& request.uri@ == uri@
            },
            Err(refusal) => {
                &&& proxy_credentials(headers::header_fields(*headers)) is None
                &&& refusal@ == reply::challenge()
            },
        },
{
    match authenticate_proxy(headers) {
        Ok(credentials) => Ok(ForwardRequest { credentials, connect, uri: uri.to_owned() }),
        Err(refusal) => Err(refusal),
    }
}

/// The target of a proxy request.
pub open spec fn request_target(connect: bool, parts: Option<UriView>) -> Result<
    (Seq<char>, u16),
    ReplyView,
> {
    if connect {
        tunnel_of_uri(parts)
    } else {
        absolute_target(parts)
    }
}

/// The target of a proxy request, where its host may be looked up.
pub open spec fn lookup_target(connect: bool, parts: Option<UriView>) -> Result<
    (Seq<char>, u16),
    ReplyView,
> {
    match request_target(connect, parts) {
        Err(refusal) => Err(refusal),
        Ok(target) => if forbidden_host(target.0) {
            Err(target_answer(TargetErrorView::Forbidden))
        } else {
            Ok(target)
        },
    }
}

impl ForwardRequest {
    /// Goes on with the request once its credentials were looked up. Whatever kept the client from
    /// being found, the answer asks for credentials. A forbidden host is refused before anything is
    /// looked up for it.
    pub fn authenticated(self, found: Result<AuthenticatedClient, Reply>) -> (r: Result<
        ForwardTarget,
        Reply,
    >)
        ensures
            match found {
                Err(_) => r is Err && r->Err_0@ == reply::challenge(),
                Ok(client) => match r {
                    Ok(next) => {
                        &&& lookup_target(self.connect, uri::uri_of_text(self.uri@)) == Ok::<
                            (Seq<char>, u16),
                            ReplyView,
                        >(next.target@)
                        &&& next.client == client
                        &&& next.connect == self.connect
                        &&& next.uri@ == self.uri@
                    },
                    Err(refusal) => lookup_target(self.connect, uri::uri_of_text(self.uri@)) == Err::<
                        (Seq<char>, u16),
                        ReplyView,
                    >(refusal@),
                },
            },
    {
        let client = match found {
            Ok(client) => client,
            Err(_) => {
                return Err(reply::proxy_auth_required());
            },
        };
        let parts = uri::parse_uri(self.uri.as_str());
        let target = if self.connect {
            connect_tunnel(&parts)
        } else {
            forward_http(&parts)
        };
        match target {
            Ok(target) => {
                if is_forbidden_host(target.host.as_str()) {
                    return Err(target_error_response(TargetError::Forbidden));
                }
                Ok(ForwardTarget { client, connect: self.connect, uri: self.uri, target })
            },
            Err(refusal) => Err(refusal),
        }
    }
}

impl ForwardTarget {
    /// Goes on with the request once its host was looked up.
    pub fn resolved(self, lookup: Result<Vec<SocketAddress>, String>) -> (r: Result<
        ForwardRoute,
        Reply,
    >)
        ensures
            match public_target(self.target@.0, lookup_view(lookup)) {
                Ok(addresses) => {
                    &&& r is Ok
                    &&& r->Ok_0.addresses@ == addresses
                    &&& r->Ok_0.client == self.client
                    &&& r->Ok_0.connect == self.connect
                    &&& r->Ok_0.uri == self.uri
                    &&& r->Ok_0.target == self.target
                },
                Err(error) => r is Err && r->Err_0@ == target_answer(error),
            },
    {
        match resolve_public_target(self.target.host.as_str(), lookup) {
            Ok(addresses) => Ok(
                ForwardRoute {
                    client: self.client,
                    connect: self.connect,
                    uri: self.uri,
                    target: self.target,
                    addresses,
                },
            ),
            Err(error) => Err(target_error_response(error)),
        }
    }
}

/// The answer to a `CONNECT` request that goes through.
pub fn tunnel_opened() -> (r: Reply)
    ensures
        r@ == (ReplyView { status: 200, proxy_authenticate: None, body: BodyView::Empty }),
{
    Reply { status: 200, proxy_authenticate: None, body: ReplyBody::Empty }
}

/// The next thing to do to open a tunnel.
#[derive(Clone, Debug, PartialEq, Eq)]
pub enum ConnectStep {
    Try(SocketAddress),
    GiveUp(String),
}

/// A step on the way to a connection, its error as a sequence of characters.
#[verifier::ext_equal]
pub enum ConnectView {
    Try(SocketAddress),
    GiveUp(Seq<char>),
}

impl View for ConnectStep {
    type V = ConnectView;

    open spec fn view(&self) -> ConnectView {
        match self {
            ConnectStep::Try(next) => ConnectView::Try(*next),
            ConnectStep::GiveUp(error) => ConnectView::GiveUp(error@),
        }
    }
}

/// What comes after some addresses were tried, given the last error.
pub open spec fn connect_step(
    addresses: Seq<SocketAddress>,
    tried: int,
    last_error: Option<Seq<char>>,
) -> ConnectView {
    if tried < addresses.len() {
        ConnectView::Try(addresses[tried])
    } else {
        match last_error {
            Some(error) => ConnectView::GiveUp(error),
            None => ConnectView::GiveUp("target resolved to no addresses"@),
        }
    }
}

/// The addresses of a target are tried in turn, as long as connecting fails; the last error stands
/// for all.
pub fn connect_any(
    addresses: &Vec<SocketAddress>,
    tried: usize,
    last_error: Option<String>,
) -> (r: ConnectStep)
    ensures
        match r {
            ConnectStep::Try(next) => tried < addresses@.len() && next == addresses@[tried as int],
            ConnectStep::GiveUp(error) => tried >= addresses@.len() && error@ == match last_error {
                Some(e) => e@,
                None => "target resolved to no addresses"@,
            },
        },
        r@ == connect_step(addresses@, tried as int, reply::text_view(last_error)),
{
    if tried < addresses.len() {
        return ConnectStep::Try(addresses[tried]);
    }
    match last_error {
        Some(error) => ConnectStep::GiveUp(error),
        None => ConnectStep::GiveUp("target resolved to no addresses".to_owned()),
    }
}

/// What becomes of a proxy request.
pub enum ForwardOutcome {
    Refused(ReplyView),
    Routed {
        client: (u128, Seq<char>),
        connect: bool,
        uri: Seq<char>,
        target: (Seq<char>, u16),
        addresses: Seq<SocketAddress>,
    },
}

/// What becomes of a proxy request, given the registry in which its credentials are looked up and
/// the addresses that are found for its host: `forward_proxy`, `ForwardRequest::authenticated` and
/// `ForwardTarget::resolved` one after the other.
pub open spec fn forward_outcome(
    fields: Seq<(Seq<char>, Seq<u8>)>,
    connect: bool,
    uri_text: Seq<char>,
    clients: registry::RegistryView,
    lookup: Result<Seq<SocketAddress>, Seq<char>>,
) -> ForwardOutcome {
    match proxy_credentials(fields) {
        None => ForwardOutcome::Refused(reply::challenge()),
        Some((uuid, token_hash)) => match registry::known_as(clients, uuid, token_hash) {
            None => ForwardOutcome::Refused(reply::challenge()),
            Some(name) => match lookup_target(connect, uri::uri_of_text(uri_text)) {
                Err(refusal) => ForwardOutcome::Refused(refusal),
                Ok(target) => match public_target(target.0, lookup) {
                    Err(error) => ForwardOutcome::Refused(target_answer(error)),
                    Ok(addresses) => ForwardOutcome::Routed {
                        client: (uuid, name),
                        connect,
                        uri: uri_text,
                        target,
                        addresses,
                    },
                },
            },
        },
    }
}

/// A proxy request goes through only with the credentials of a known client; without them it is
/// answered with the challenge, whatever it asks for.
pub proof fn law_proxying_requires_authentication(
    fields: Seq<(Seq<char>, Seq<u8>)>,
    connect: bool,
    uri_text: Seq<char>,
    clients: registry::RegistryView,
    lookup: Result<Seq<SocketAddress>, Seq<char>>,
)
    ensures
        match proxy_credentials(fields) {
            None => forward_outcome(fields, connect, uri_text, clients, lookup)
                == ForwardOutcome::Refused(reply::challenge()),
            Some((uuid, token_hash)) => registry::known_as(clients, uuid, token_hash) is None
                ==> forward_outcome(fields, connect, uri_text, clients, lookup)
                == ForwardOutcome::Refused(reply::challenge()),
        },
{
}

/// A revoked client cannot use the proxy.
pub proof fn law_revoked_clients_cannot_proxy(
    fields: Seq<(Seq<char>, Seq<u8>)>,
    connect: bool,
    uri_text: Seq<char>,
    clients: registry::RegistryView,
    uuid: u128,
    lookup: Result<Seq<SocketAddress>, Seq<char>>,
)
    requires
        proxy_credentials(fields) is None || proxy_credentials(fields)->Some_0.0 == uuid,
    ensures
        forward_outcome(fields, connect, uri_text, registry::revoked(clients, uuid), lookup)
            == ForwardOutcome::Refused(reply::challenge()),
{
    if let Some((id, token_hash)) = proxy_credentials(fields) {
        laws::law_revoked_clients_are_unknown(clients, uuid, token_hash);
    }
}

/// A request that goes through leads to the addresses that were found for its host, all of them
/// public, and keeps the URI that the client chose.
pub proof fn law_routes_are_public_and_exact(
    fields: Seq<(Seq<char>, Seq<u8>)>,
    connect: bool,
    uri_text: Seq<char>,
    clients: registry::RegistryView,
    lookup: Result<Seq<SocketAddress>, Seq<char>>,
)
    ensures
        forward_outcome(fields, connect, uri_text, clients, lookup) matches ForwardOutcome::Routed {
            client,
            connect: c,
            uri,
            target,
            addresses,
        } ==> {
            &&& c == connect
            &&& uri == uri_text
            &&& request_target(connect, uri::uri_of_text(uri_text)) == Ok::<
                (Seq<char>, u16),
                ReplyView,
            >(target)
            &&& lookup == Ok::<Seq<SocketAddress>, Seq<char>>(addresses)
            &&& addresses.len() > 0
            &&& all_public(addresses)
            &&& !forbidden_host(target.0)
        },
{
}

/// What pairing gives out is what the proxy takes: a client that was added is recognised by the
/// credential text of its identifier and its token, Base64-encoded in a `Basic` authorization, and
/// its request is refused for nothing but its target.
pub proof fn law_paired_clients_are_let_through(
    before: registry::RegistryView,
    uuid: u128,
    token: Seq<char>,
    name: Seq<char>,
    now: u64,
    fields: Seq<(Seq<char>, Seq<u8>)>,
    encoded: Seq<char>,
    connect: bool,
    uri_text: Seq<char>,
    lookup: Result<Seq<SocketAddress>, Seq<char>>,
)
    requires
        registry::known_as(before, uuid, token::hashed(token)) is None,
        token::credentials_of(token::credential_text(uuid, token)) == Some(
            (uuid, token::hashed(token)),
        ),
        headers::text_of_header(fields, text::lower("proxy-authorization"@)) == Some(
            "Basic "@ + encoded,
        ),
        token::base64_decoded(encoded) == Some(
            vstd::utf8::encode_utf8(token::credential_text(uuid, token)),
        ),
    ensures
        forward_outcome(
            fields,
            connect,
            uri_text,
            registry::enrolled(before, uuid, token, name, now),
            lookup,
        ) == match lookup_target(connect, uri::uri_of_text(uri_text)) {
            Err(refusal) => ForwardOutcome::Refused(refusal),
            Ok(target) => match public_target(target.0, lookup) {
                Err(error) => ForwardOutcome::Refused(target_answer(error)),
                Ok(addresses) => ForwardOutcome::Routed {
                    client: (uuid, name),
                    connect,
                    uri: uri_text,
                    target,
                    addresses,
                },
            },
        },
{
    let value = "Basic "@ + encoded;
    let credentials = token::credential_text(uuid, token);
    assert(value.subrange(0, "Basic "@.len() as int) =~= "Basic "@);
    assert(value.skip("Basic "@.len() as int) =~= encoded);
    vstd::utf8::encode_utf8_decode_utf8(credentials);
    vstd::utf8::encode_utf8_valid_utf8(credentials);
    laws::law_enrolled_clients_are_known(before, uuid, token, name, now);
}

/// A request for an absolute URI goes to the host of the URI, and to the port that the URI names,
/// whatever its scheme. Where it names none, the port is 443 for `https` in whatever case, and 80
/// for every other scheme.
pub proof fn law_http_targets_are_exact(
    view: UriView,
    scheme: Seq<char>,
    authority: Seq<char>,
    host: Seq<char>,
)
    requires
        view.scheme == Some(scheme),
        view.authority == Some(authority),
        view.host == Some(host),
    ensures
        view.port matches Some(port) ==> absolute_target(Some(view)) == Ok::<
            (Seq<char>, u16),
            ReplyView,
        >((host, port)),
        view.port is None && text::match_but_for_case(scheme, "https"@) ==> absolute_target(Some(view))
            == Ok::<(Seq<char>, u16), ReplyView>((host, 443)),
        view.port is None && !text::match_but_for_case(scheme, "https"@) ==> absolute_target(Some(view))
            == Ok::<(Seq<char>, u16), ReplyView>((host, 80)),
{
    text::law_case_is_ignored(scheme, "https"@);
}

/// A request without a scheme or an authority, or whose URI cannot be read, is told that an absolute
/// URI is required; one without a host, that the host is missing.
pub proof fn law_other_http_targets_are_refused(view: UriView)
    ensures
        absolute_target(None) == Err::<(Seq<char>, u16), ReplyView>(
            ReplyView {
                status: 400,
                proxy_authenticate: None,
                body: BodyView::Text("absolute proxy URI required"@),
            },
        ),
        view.scheme is None || view.authority is None ==> absolute_target(Some(view)) == Err::<
            (Seq<char>, u16),
            ReplyView,
        >(
            ReplyView {
                status: 400,
                proxy_authenticate: None,
                body: BodyView::Text("absolute proxy URI required"@),
            },
        ),
        view.scheme is Some && view.authority is Some && view.host is None ==> absolute_target(
            Some(view),
        ) == Err::<(Seq<char>, u16), ReplyView>(
            ReplyView {
                status: 400,
                proxy_authenticate: None,
                body: BodyView::Text("proxy target host missing"@),
            },
        ),
{
}

/// A tunnel goes to the host and the port that the authority of the request names. A request without
/// an authority, with one that cannot be read, or with one that has no port is refused.
pub proof fn law_tunnel_targets_are_exact(view: UriView, authority: Seq<char>)
    requires
        view.authority == Some(authority),
    ensures
        uri::authority_of_text(authority) matches Some((host, Some(port))) ==> tunnel_of_uri(Some(view))
            == Ok::<(Seq<char>, u16), ReplyView>((host, port)),
        uri::authority_of_text(authority) matches Some((host, None)) ==> tunnel_of_uri(Some(view))
            == Err::<(Seq<char>, u16), ReplyView>(
            ReplyView {
                status: 400,
                proxy_authenticate: None,
                body: BodyView::Text("CONNECT target port missing"@),
            },
        ),
        uri::authority_of_text(authority) is None ==> tunnel_of_uri(Some(view)) == Err::<
            (Seq<char>, u16),
            ReplyView,
        >(
            ReplyView {
                status: 400,
                proxy_authenticate: None,
                body: BodyView::Text("invalid CONNECT target"@),
            },
        ),
        forall|other: UriView| (#[trigger] other.authority) is None ==> tunnel_of_uri(Some(other))
            == tunnel_of_uri(None),
        tunnel_of_uri(None) == Err::<(Seq<char>, u16), ReplyView>(
            ReplyView {
                status: 400,
                proxy_authenticate: None,
                body: BodyView::Text("CONNECT target missing"@),
            },
        ),
{
}

/// What a tunnel leads to, given what its authority was read as: the host and the port, both as they
/// are.
pub proof fn law_named_tunnels_lead_there(host: Seq<char>, port: u16)
    ensures
        tunnel_target(true, Some((host, Some(port)))) == Ok::<(Seq<char>, u16), ReplyView>(
            (host, port),
        ),
        tunnel_target(true, Some((host, None))) is Err,
        tunnel_target(true, None) is Err,
        tunnel_target(false, Some((host, Some(port)))) is Err,
{
}

/// Whether an address is one of those that nothing is forwarded to.
pub open spec fn is_not_public(a: SocketAddress) -> bool {
    match a {
        SocketAddress::V4 { v4, port } => address::blocked(address::IpAddress::V4(v4)),
        SocketAddress::V6 { v6, port, flowinfo, scope_id } => address::blocked(
            address::IpAddress::V6(v6),
        ),
    }
}

/// A host that is not forbidden, and for which only public addresses were found, is never refused:
/// the result is the addresses that were found, all of them and in their order.
pub proof fn law_public_targets_go_through(host: Seq<char>, addresses: Seq<SocketAddress>)
    requires
        !forbidden_host(host),
        addresses.len() > 0,
        forall|k: int| 0 <= k < addresses.len() ==> !is_not_public(#[trigger] addresses[k]),
    ensures
        public_target(host, Ok(addresses)) == Ok::<Seq<SocketAddress>, TargetErrorView>(addresses),
{
}

/// The other targets are refused, each for its reason: a forbidden host whatever was found for it,
/// a failed lookup with its error, no addresses, and any address that is not public.
pub proof fn law_other_targets_are_refused(
    host: Seq<char>,
    lookup: Result<Seq<SocketAddress>, Seq<char>>,
)
    ensures
        forbidden_host(host) ==> public_target(host, lookup) == Err::<
            Seq<SocketAddress>,
            TargetErrorView,
        >(TargetErrorView::Forbidden),
        !forbidden_host(host) ==> (lookup matches Err(error) ==> public_target(host, lookup) == Err::<
            Seq<SocketAddress>,
            TargetErrorView,
        >(TargetErrorView::Resolution(error))),
        !forbidden_host(host) ==> (lookup matches Ok(addresses) ==> {
            &&& addresses.len() == 0 ==> public_target(host, lookup) == Err::<
                Seq<SocketAddress>,
                TargetErrorView,
            >(TargetErrorView::Empty)
            &&& (exists|k: int| 0 <= k < addresses.len() && is_not_public(#[trigger] addresses[k]))
                ==> public_target(host, lookup) == Err::<Seq<SocketAddress>, TargetErrorView>(
                TargetErrorView::Forbidden,
            )
        }),
{
    if let Ok(addresses) = lookup {
        if exists|k: int| 0 <= k < addresses.len() && is_not_public(#[trigger] addresses[k]) {
            let k = choose|k: int| 0 <= k < addresses.len() && is_not_public(#[trigger] addresses[k]);
            assert(address::blocked(addresses[k].ip_spec()));
        }
    }
}

/// A refused target is answered with the reason, in words; the error of a lookup is passed on as it
/// is.
pub proof fn law_refused_targets_are_explained(error: Seq<char>)
    ensures
        target_answer(TargetErrorView::Forbidden) == (ReplyView {
            status: 403,
            proxy_authenticate: None,
            body: BodyView::Text(
                "proxy target is not allowed: loopback, private, link-local, metadata, and other non-public destinations are blocked"@,
            ),
        }),
        target_answer(TargetErrorView::Resolution(error)) == (ReplyView {
            status: 502,
            proxy_authenticate: None,
            body: BodyView::Text("target resolution failed: "@ + error),
        }),
        target_answer(TargetErrorView::Empty) == (ReplyView {
            status: 502,
            proxy_authenticate: None,
            body: BodyView::Text("target resolved to no addresses"@),
        }),
{
}

/// Without the square brackets around it, a host is forbidden exactly where it is `localhost`, ends
/// with `.localhost` or is `metadata.google.internal`, in whatever case.
pub proof fn law_forbidden_hosts_are_exact(before: Seq<char>, core: Seq<char>, after: Seq<char>)
    requires
        forall|k: int| 0 <= k < before.len() ==> (#[trigger] before[k]) == '[' || before[k] == ']',
        forall|k: int| 0 <= k < after.len() ==> (#[trigger] after[k]) == '[' || after[k] == ']',
        core.len() > 0 ==> core[0] != '[' && core[0] != ']' && core.last() != '[' && core.last()
            != ']',
    ensures
        forbidden_host(before + core + after) <==> {
            ||| text::match_but_for_case(core, "localhost"@)
            ||| text::match_but_for_case(core, "metadata.google.internal"@)
            ||| core.len() >= 10 && text::match_but_for_case(core.skip(core.len() - 10), ".localhost"@)
        },
{
    text::law_brackets_are_taken_away(before, core, after);
    text::law_case_is_ignored(core, "localhost"@);
    text::law_case_is_ignored(core, "metadata.google.internal"@);
    reveal_strlit("localhost");
    reveal_strlit("metadata.google.internal");
    reveal_strlit(".localhost");
    assert(text::lower("localhost"@) =~= "localhost"@);
    assert(text::lower("metadata.google.internal"@) =~= "metadata.google.internal"@);
    assert(text::lower(".localhost"@) =~= ".localhost"@);
    let name = text::lower(core);
    if core.len() >= 10 {
        let tail = core.skip(core.len() - 10);
        text::law_case_is_ignored(tail, ".localhost"@);
        assert(name.subrange(name.len() - 10, name.len() as int) =~= text::lower(tail));
    }
}

/// `Basic` and `basic` with one space are the only ways to announce what follows, which is taken as it
/// is.
pub proof fn law_basic_payloads_are_exact(value: Seq<char>, payload: Seq<char>)
    ensures
        basic_payload(seq!['B', 'a', 's', 'i', 'c', ' '] + payload) == Some(payload),
        basic_payload(seq!['b', 'a', 's', 'i', 'c', ' '] + payload) == Some(payload),
        basic_payload(value) matches Some(rest) ==> value == seq!['B', 'a', 's', 'i', 'c', ' '] + rest
            || value == seq!['b', 'a', 's', 'i', 'c', ' '] + rest,
{
    reveal_strlit("Basic ");
    reveal_strlit("basic ");
    let upper = seq!['B', 'a', 's', 'i', 'c', ' '];
    let lower = seq!['b', 'a', 's', 'i', 'c', ' '];
    assert("Basic "@ =~= upper);
    assert("basic "@ =~= lower);
    text::law_starts_and_ends_are_exact(upper, payload, value, upper);
    text::law_starts_and_ends_are_exact(lower, payload, value, lower);
    assert((upper + payload).skip(6) =~= payload);
    assert((lower + payload).skip(6) =~= payload);
    assert(!text::starts_with(lower + payload, upper)) by {
        assert((lower + payload).subrange(0, 6)[0] == 'b');
    }
}

/// Decoded credentials are read as the text that their bytes encode; bytes that encode none are no
/// credentials.
pub proof fn law_decoded_credentials_are_text(value: Seq<char>, bytes: Seq<u8>)
    ensures
        decoded_credentials(Some(vstd::utf8::encode_utf8(value))) == token::credentials_of(value),
        !vstd::utf8::valid_utf8(bytes) ==> decoded_credentials(Some(bytes)) is None,
        decoded_credentials(None) is None,
{
    vstd::utf8::encode_utf8_decode_utf8(value);
    vstd::utf8::encode_utf8_valid_utf8(value);
}

/// The credentials of a proxy request are those in its `Proxy-Authorization` field and in no other.
pub proof fn law_proxy_credentials_come_from_their_field(
    fields: Seq<(Seq<char>, Seq<u8>)>,
    encoded: Seq<char>,
)
    ensures
        headers::text_of_header(fields, "proxy-authorization"@) is None ==> proxy_credentials(fields) is None,
        headers::text_of_header(fields, "proxy-authorization"@) == Some(
            seq!['B', 'a', 's', 'i', 'c', ' '] + encoded,
        ) ==> proxy_credentials(fields) == decoded_credentials(token::base64_decoded(encoded)),
        headers::text_of_header(fields, "proxy-authorization"@) == Some(
            seq!['b', 'a', 's', 'i', 'c', ' '] + encoded,
        ) ==> proxy_credentials(fields) == decoded_credentials(token::base64_decoded(encoded)),
{
    reveal_strlit("proxy-authorization");
    assert(text::lower("proxy-authorization"@) =~= "proxy-authorization"@);
    law_basic_payloads_are_exact(encoded, encoded);
}

/// A request of a known client for an absolute URI with a public host is carried out: for that client,
/// with its URI, to its host, to the port that it names or that its scheme has, and to the addresses
/// that were found.
pub proof fn law_public_requests_are_carried_out(
    fields: Seq<(Seq<char>, Seq<u8>)>,
    uri_text: Seq<char>,
    view: UriView,
    scheme: Seq<char>,
    authority: Seq<char>,
    host: Seq<char>,
    clients: registry::RegistryView,
    uuid: u128,
    token_hash: Seq<char>,
    name: Seq<char>,
    addresses: Seq<SocketAddress>,
)
    requires
        proxy_credentials(fields) == Some((uuid, token_hash)),
        registry::known_as(clients, uuid, token_hash) == Some(name),
        uri::uri_of_text(uri_text) == Some(view),
        view.scheme == Some(scheme),
        view.authority == Some(authority),
        view.host == Some(host),
        !forbidden_host(host),
        addresses.len() > 0,
        forall|k: int| 0 <= k < addresses.len() ==> !is_not_public(#[trigger] addresses[k]),
    ensures
        forward_outcome(fields, false, uri_text, clients, Ok(addresses)) == (ForwardOutcome::Routed {
            client: (uuid, name),
            connect: false,
            uri: uri_text,
            target: (
                host,
                match view.port {
                    Some(port) => port,
                    None => if text::match_but_for_case(scheme, "https"@) {
                        443u16
                    } else {
                        80u16
                    },
                },
            ),
            addresses,
        }),
{
    law_http_targets_are_exact(view, scheme, authority, host);
    law_public_targets_go_through(host, addresses);
}

/// A tunnel of a known client to a public host is opened: for that client, to the host and the port
/// that it names, and to the addresses that were found.
pub proof fn law_public_tunnels_are_opened(
    fields: Seq<(Seq<char>, Seq<u8>)>,
    uri_text: Seq<char>,
    view: UriView,
    authority: Seq<char>,
    host: Seq<char>,
    port: u16,
    clients: registry::RegistryView,
    uuid: u128,
    token_hash: Seq<char>,
    name: Seq<char>,
    addresses: Seq<SocketAddress>,
)
    requires
        proxy_credentials(fields) == Some((uuid, token_hash)),
        registry::known_as(clients, uuid, token_hash) == Some(name),
        uri::uri_of_text(uri_text) == Some(view),
        view.authority == Some(authority),
        uri::authority_of_text(authority) == Some((host, Some(port))),
        !forbidden_host(host),
        addresses.len() > 0,
        forall|k: int| 0 <= k < addresses.len() ==> !is_not_public(#[trigger] addresses[k]),
    ensures
        forward_outcome(fields, true, uri_text, clients, Ok(addresses)) == (ForwardOutcome::Routed {
            client: (uuid, name),
            connect: true,
            uri: uri_text,
            target: (host, port),
            addresses,
        }),
{
    law_tunnel_targets_are_exact(view, authority);
    law_public_targets_go_through(host, addresses);
}

/// What a request asks for is looked up exactly where its target is named and not forbidden.
pub proof fn law_lookups_follow_the_target(connect: bool, parts: Option<UriView>)
    ensures
        request_target(true, parts) == tunnel_of_uri(parts),
        request_target(false, parts) == absolute_target(parts),
        request_target(connect, parts) matches Ok(target) ==> if forbidden_host(target.0) {
            lookup_target(connect, parts) == Err::<(Seq<char>, u16), ReplyView>(
                target_answer(TargetErrorView::Forbidden),
            )
        } else {
            lookup_target(connect, parts) == Ok::<(Seq<char>, u16), ReplyView>(target)
        },
        request_target(connect, parts) matches Err(refusal) ==> lookup_target(connect, parts) == Err::<
            (Seq<char>, u16),
            ReplyView,
        >(refusal),
{
}

/// What the results of this module are seen as is what they hold.
pub proof fn law_views_of_targets_are_faithful(
    target: Target,
    error: TargetError,
    addresses: Vec<SocketAddress>,
    message: String,
    refusal: Reply,
)
    ensures
        target@ == (target.host@, target.port),
        error is Forbidden ==> error@ is Forbidden,
        error is Empty ==> error@ is Empty,
        error matches TargetError::Resolution(e) ==> error@ == TargetErrorView::Resolution(e@),
        result_view(Ok(target)) == Ok::<(Seq<char>, u16), ReplyView>((target.host@, target.port)),
        result_view(Err(refusal)) == Err::<(Seq<char>, u16), ReplyView>(refusal@),
        lookup_view(Ok(addresses)) == Ok::<Seq<SocketAddress>, Seq<char>>(addresses@),
        lookup_view(Err(message)) == Err::<Seq<SocketAddress>, Seq<char>>(message@),
        addresses_view(Ok(addresses)) == Ok::<Seq<SocketAddress>, TargetErrorView>(addresses@),
        addresses_view(Err(error)) == Err::<Seq<SocketAddress>, TargetErrorView>(error@),
        uri_view(None) is None,
        parts_view(None) is None,
{
}

/// The addresses that are tried one after the other, as long as each connection fails with an error of
/// its own, and the error that is left in the end.
pub open spec fn failing_run(
    addresses: Seq<SocketAddress>,
    tried: int,
    last_error: Option<Seq<char>>,
    errors: Seq<Seq<char>>,
) -> (Seq<SocketAddress>, Option<Seq<char>>)
    decreases addresses.len() - tried,
{
    if 0 <= tried < addresses.len() && errors.len() == addresses.len() {
        match connect_step(addresses, tried, last_error) {
            ConnectView::Try(next) => {
                let (rest, error) = failing_run(addresses, tried + 1, Some(errors[tried]), errors);
                (seq![next] + rest, error)
            },
            ConnectView::GiveUp(error) => (Seq::empty(), Some(error)),
        }
    } else {
        match connect_step(addresses, tried, last_error) {
            ConnectView::Try(_) => (Seq::empty(), None),
            ConnectView::GiveUp(error) => (Seq::empty(), Some(error)),
        }
    }
}

proof fn lemma_failing_run(
    addresses: Seq<SocketAddress>,
    tried: int,
    last_error: Option<Seq<char>>,
    errors: Seq<Seq<char>>,
)
    requires
        0 <= tried <= addresses.len(),
        errors.len() == addresses.len(),
    ensures
        failing_run(addresses, tried, last_error, errors).0 == addresses.skip(tried),
        failing_run(addresses, tried, last_error, errors).1 == if tried < addresses.len() {
            Some(errors.last())
        } else {
            match last_error {
                Some(error) => Some(error),
                None => Some("target resolved to no addresses"@),
            }
        },
    decreases addresses.len() - tried,
{
    if tried < addresses.len() {
        lemma_failing_run(addresses, tried + 1, Some(errors[tried]), errors);
        assert(seq![addresses[tried]] + addresses.skip(tried + 1) =~= addresses.skip(tried));
    } else {
        assert(addresses.skip(tried) =~= Seq::empty());
    }
}

/// Where nothing can be connected to, every address is tried once, in its order, and the error of the
/// last one is what is left; without addresses it is said that there are none.
pub proof fn law_every_address_is_tried(addresses: Seq<SocketAddress>, errors: Seq<Seq<char>>)
    requires
        errors.len() == addresses.len(),
    ensures
        failing_run(addresses, 0, None, errors).0 == addresses,
        addresses.len() > 0 ==> failing_run(addresses, 0, None, errors).1 == Some(errors.last()),
        addresses.len() == 0 ==> failing_run(addresses, 0, None, errors).1 == Some(
            "target resolved to no addresses"@,
        ),
{
    lemma_failing_run(addresses, 0, None, errors);
    assert(addresses.skip(0) =~= addresses);
}

/// An address that has not been tried is the next one, whatever went wrong before it.
pub proof fn law_the_next_address_is_tried(
    addresses: Seq<SocketAddress>,
    tried: int,
    last_error: Option<Seq<char>>,
)
    requires
        0 <= tried < addresses.len(),
    ensures
        connect_step(addresses, tried, last_error) == ConnectView::Try(addresses[tried]),
{
}

/// Where a target cannot be reached, the answer ends with the reason, as it is.
pub proof fn law_failures_are_explained(error: Seq<char>)
    ensures
        client_failure(error) == (ReplyView {
            status: 500,
            proxy_authenticate: None,
            body: BodyView::Text("failed to construct pinned HTTP client: "@ + error),
        }),
        upstream_failure(error) == (ReplyView {
            status: 502,
            proxy_authenticate: None,
            body: BodyView::Text("upstream connect failed: "@ + error),
        }),
{
}

} // verus!
