//! The relay's own routes, in which the client's identifier and the upstream host stand in the
//! path.

use tokio_tungstenite::tungstenite::client::IntoClientRequest;
use vstd::prelude::*;

use crate::auth;
use crate::auth::AuthenticatedClient;
use crate::headers;
use crate::headers::HeaderField;
use crate::laws;
use crate::registry;
use crate::reply;
use crate::reply::{Reply, ReplyView};
use crate::text;
use crate::token;
use crate::uri;
use crate::uri::AuthorityParts;

verus! {

/// A character that no host may hold.
pub open spec fn bad_host_char(c: char) -> bool {
    c == '/' || c == '\\' || c == '@' || c == '#' || c == '?' || text::is_white_space(c)
}

/// Whether a text is a host with an optional port, given what it was read as.
pub open spec fn is_valid_host(host: Seq<char>, parts: Option<(Seq<char>, Option<u16>)>) -> bool {
    &&& host.len() > 0
    &&& forall|k: int| 0 <= k < host.len() ==> !bad_host_char(#[trigger] host[k])
    &&& match parts {
        None => false,
        Some((name, port)) => {
            &&& name.len() > 0
            &&& port is Some || !(text::after_last(host, ':') is Some && text::all_digits(
                text::after_last(host, ':')->Some_0,
            ))
        },
    }
}

fn has_bad_char(host: &str) -> (r: bool)
    ensures
        r == exists|k: int| 0 <= k < host@.len() && bad_host_char(#[trigger] host@[k]),
{
    let v = text::chars_of(host);
    let mut i: usize = 0;
    while i < v.len()
        invariant
            i <= v@.len(),
            v@ == host@,
            forall|k: int| 0 <= k < i ==> !bad_host_char(#[trigger] host@[k]),
        decreases v@.len() - i,
    {
        let c: char = v[i];
        if c == '/' || c == '\\' || c == '@' || c == '#' || c == '?' || text::char_is_white_space(c) {
            assert(bad_host_char(host@[i as int]));
            return true;
        }
        i += 1;
    }
    false
}

/// Whether a text is a host with an optional port, given what it was read as.
pub fn valid_authority(host: &str, parts: Option<AuthorityParts>) -> (r: bool)
    ensures
        r == is_valid_host(
            host@,
            match parts {
                Some(p) => Some(p@),
                None => None,
            },
        ),
{
    if host.is_empty() || has_bad_char(host) {
        return false;
    }
    match parts {
        None => false,
        Some(parts) => {
            if parts.host.as_str().is_empty() {
                return false;
            }
            if parts.port.is_some() {
                return true;
            }
            match text::text_after_last(host, ':') {
                Some(suffix) => !text::is_all_digits(suffix.as_str()),
                None => true,
            }
        },
    }
}

/// Whether a text is a DNS name or an IP address with an optional port.
pub fn valid_host(host: &str) -> (r: bool)
    ensures
        r == is_valid_host(host@, uri::authority_of_text(host@)),
{
    valid_authority(host, uri::parse_authority(host))
}

/// Whether the fields of a request ask for a WebSocket.
pub open spec fn asks_for_websocket(fields: Seq<(Seq<char>, Seq<u8>)>) -> bool {
    match headers::first_value(fields, text::lower("upgrade"@)) {
        Some(value) => text::same_ignoring_case(headers::byte_chars(value), "websocket"@),
        None => false,
    }
}

/// The scheme of the upstream URL: unencrypted where the client asks for `http`.
pub open spec fn scheme_for(fields: Seq<(Seq<char>, Seq<u8>)>, websocket: bool) -> Seq<char> {
    let local_http = match headers::text_of_header(fields, text::lower("x-omp-relay-scheme"@)) {
        Some(value) => text::same_ignoring_case(value, "http"@),
        None => false,
    };
    if websocket {
        if local_http {
            "ws"@
        } else {
            "wss"@
        }
    } else {
        if local_http {
            "http"@
        } else {
            "https"@
        }
    }
}

pub fn is_websocket_request(headers: &http::HeaderMap<http::HeaderValue>) -> (r: bool)
    ensures
        r == asks_for_websocket(headers::header_fields(*headers)),
{
    proof {
        reveal_strlit("upgrade");
    }
    match headers::header_chars(headers, "upgrade") {
        Some(value) => text::eq_ignore_case(value.as_str(), "websocket"),
        None => false,
    }
}

pub fn upstream_scheme(headers: &http::HeaderMap<http::HeaderValue>, websocket: bool) -> (r:
    &'static str)
    ensures
        r@ == scheme_for(headers::header_fields(*headers), websocket),
{
    proof {
        reveal_strlit("x-omp-relay-scheme");
    }
    let local_http = match headers::header_text(headers, "x-omp-relay-scheme") {
        Some(value) => text::eq_ignore_case(value.as_str(), "http"),
        None => false,
    };
    if websocket {
        if local_http {
            "ws"
        } else {
            "wss"
        }
    } else {
        if local_http {
            "http"
        } else {
            "https"
        }
    }
}

/// The path and query behind the host in the path of a request; what was captured as the rest of
/// the path, where the host does not stand in it.
pub open spec fn upstream_path(
    path_and_query: Option<Seq<char>>,
    host: Seq<char>,
    rest: Seq<char>,
) -> Seq<char> {
    match path_and_query {
        Some(path) => match text::after_first(path, seq!['/'] + host + seq!['/']) {
            Some(tail) => tail,
            None => rest,
        },
        None => rest,
    }
}

/// The URL that a request is relayed to.
pub open spec fn upstream_url(scheme: Seq<char>, host: Seq<char>, path: Seq<char>) -> Seq<char> {
    scheme + "://"@ + host + seq!['/'] + path
}

fn build_url(scheme: &str, host: &str, path_and_query: &Option<String>, rest: &str) -> (r: String)
    ensures
        r@ == upstream_url(
            scheme@,
            host@,
            upstream_path(reply::text_view(*path_and_query), host@, rest@),
        ),
{
    let mut marker = String::new();
    marker.push('/');
    marker.append(host);
    marker.push('/');
    assert(marker@ =~= seq!['/'] + host@ + seq!['/']);
    let path = match path_and_query {
        Some(path) => match text::text_after(path.as_str(), marker.as_str()) {
            Some(tail) => tail,
            None => rest.to_owned(),
        },
        None => rest.to_owned(),
    };
    let mut url = scheme.to_owned();
    url.append("://");
    url.append(host);
    url.push('/');
    url.append(path.as_str());
    assert(url@ =~= upstream_url(
        scheme@,
        host@,
        upstream_path(reply::text_view(*path_and_query), host@, rest@),
    ));
    url
}

/// A request that is relayed: its client, the upstream host, the URL to ask for, and whether it
/// becomes a WebSocket.
#[derive(Clone, Debug, PartialEq, Eq)]
pub struct ProxyPlan {
    pub client: AuthenticatedClient,
    pub websocket: bool,
    pub host: String,
    pub url: String,
}

/// What becomes of a request with the client's identifier and the upstream host in its path.
#[verifier::ext_equal]
pub enum ProxyDecision {
    Refused(ReplyView),
    Relayed { client: (u128, Seq<char>), websocket: bool, host: Seq<char>, url: Seq<char> },
}

pub open spec fn decision_view(r: Result<ProxyPlan, Reply>) -> ProxyDecision {
    match r {
        Ok(plan) => ProxyDecision::Relayed {
            client: plan.client@,
            websocket: plan.websocket,
            host: plan.host@,
            url: plan.url@,
        },
        Err(refusal) => ProxyDecision::Refused(refusal@),
    }
}

/// What authentication came to: the client, or the answer that refuses the request.
pub open spec fn found_view(found: Result<AuthenticatedClient, Reply>) -> Result<
    (u128, Seq<char>),
    ReplyView,
> {
    match found {
        Ok(client) => Ok(client@),
        Err(refusal) => Err(refusal@),
    }
}

/// What becomes of a request, given what authentication came to: `id` and `host` stand in its
/// path with `rest` behind them, `authority` is what the host was read as, `path_and_query` comes
/// from its URI, `fields` are its header fields.
pub open spec fn proxy_decision(
    found: Result<(u128, Seq<char>), ReplyView>,
    id: Seq<char>,
    host: Seq<char>,
    rest: Seq<char>,
    authority: Option<(Seq<char>, Option<u16>)>,
    path_and_query: Option<Seq<char>>,
    fields: Seq<(Seq<char>, Seq<u8>)>,
) -> ProxyDecision {
    match found {
        Err(refusal) => ProxyDecision::Refused(refusal),
        Ok((uuid, name)) => if id != token::uuid_text(uuid) {
            ProxyDecision::Refused(
                reply::detailed_answer(
                    403,
                    "uuid_mismatch"@,
                    "path UUID does not match authenticated client"@,
                ),
            )
        } else if !is_valid_host(host, authority) {
            ProxyDecision::Refused(
                reply::detailed_answer(
                    400,
                    "invalid_host"@,
                    "host must be a DNS name or IP address with an optional port"@,
                ),
            )
        } else {
            let websocket = asks_for_websocket(fields);
            ProxyDecision::Relayed {
                client: (uuid, name),
                websocket,
                host,
                url: upstream_url(
                    scheme_for(fields, websocket),
                    host,
                    upstream_path(path_and_query, host, rest),
                ),
            }
        },
    }
}

/// Decides what becomes of a request, given what authentication came to and what its host and its
/// URI were read as.
pub fn decide_proxy(
    found: Result<AuthenticatedClient, Reply>,
    id: &str,
    host: &str,
    rest: &str,
    authority: Option<AuthorityParts>,
    path_and_query: &Option<String>,
    headers: &http::HeaderMap<http::HeaderValue>,
) -> (r: Result<ProxyPlan, Reply>)
    ensures
        decision_view(r) == proxy_decision(
            found_view(found),
            id@,
            host@,
            rest@,
            match authority {
                Some(p) => Some(p@),
                None => None,
            },
            reply::text_view(*path_and_query),
            headers::header_fields(*headers),
        ),
{
    let client = match found {
        Ok(client) => client,
        Err(refusal) => {
            return Err(refusal);
        },
    };
    let own = token::format_uuid(client.uuid);
    if !text::same_text(id, own.as_str()) {
        return Err(
            reply::json_error(403, "uuid_mismatch", "path UUID does not match authenticated client"),
        );
    }
    if !valid_authority(host, authority) {
        return Err(
            reply::json_error(
                400,
                "invalid_host",
                "host must be a DNS name or IP address with an optional port",
            ),
        );
    }
    let websocket = is_websocket_request(headers);
    let scheme = upstream_scheme(headers, websocket);
    let url = build_url(scheme, host, path_and_query, rest);
    Ok(ProxyPlan { client, websocket, host: host.to_owned(), url })
}

/// The path and query of what a URI was read as.
pub open spec fn path_of(parts: Option<uri::UriView>) -> Option<Seq<char>> {
    match parts {
        Some(view) => view.path_and_query,
        None => None,
    }
}

/// Decides what becomes of a request, given what authentication came to.
pub fn proxy_request(
    found: Result<AuthenticatedClient, Reply>,
    id: &str,
    host: &str,
    rest: &str,
    request_uri: &str,
    headers: &http::HeaderMap<http::HeaderValue>,
) -> (r: Result<ProxyPlan, Reply>)
    ensures
        decision_view(r) == proxy_decision(
            found_view(found),
            id@,
            host@,
            rest@,
            uri::authority_of_text(host@),
            path_of(uri::uri_of_text(request_uri@)),
            headers::header_fields(*headers),
        ),
{
    let path_and_query = match uri::parse_uri(request_uri) {
        Some(parts) => parts.path_and_query,
        None => None,
    };
    decide_proxy(found, id, host, rest, uri::parse_authority(host), &path_and_query, headers)
}

/// A request to `/{id}/{host}` or `/{id}/{host}/`.
pub fn proxy_root(
    found: Result<AuthenticatedClient, Reply>,
    id: &str,
    host: &str,
    request_uri: &str,
    headers: &http::HeaderMap<http::HeaderValue>,
) -> (r: Result<ProxyPlan, Reply>)
    ensures
        decision_view(r) == proxy_decision(
            found_view(found),
            id@,
            host@,
            Seq::empty(),
            uri::authority_of_text(host@),
            path_of(uri::uri_of_text(request_uri@)),
            headers::header_fields(*headers),
        ),
{
    let nothing = String::new();
    proxy_request(found, id, host, nothing.as_str(), request_uri, headers)
}

/// A request to `/{id}/{host}/{rest}`.
pub fn proxy(
    found: Result<AuthenticatedClient, Reply>,
    id: &str,
    host: &str,
    rest: &str,
    request_uri: &str,
    headers: &http::HeaderMap<http::HeaderValue>,
) -> (r: Result<ProxyPlan, Reply>)
    ensures
        decision_view(r) == proxy_decision(
            found_view(found),
            id@,
            host@,
            rest@,
            uri::authority_of_text(host@),
            path_of(uri::uri_of_text(request_uri@)),
            headers::header_fields(*headers),
        ),
{
    proxy_request(found, id, host, rest, request_uri, headers)
}

/// Whether a text can be a header value: no control characters but tabs.
pub open spec fn is_header_value(bytes: Seq<u8>) -> bool {
    forall|k: int| 0 <= k < bytes.len() ==> (#[trigger] bytes[k] >= 32 && bytes[k] != 127)
        || bytes[k] == 9
}

fn can_be_header(bytes: &[u8]) -> (r: bool)
    ensures
        r == is_header_value(bytes@),
{
    let mut i: usize = 0;
    while i < bytes.len()
        invariant
            i <= bytes@.len(),
            forall|k: int| 0 <= k < i ==> (#[trigger] bytes@[k] >= 32 && bytes@[k] != 127)
                || bytes@[k] == 9,
        decreases bytes@.len() - i,
    {
        let b: u8 = bytes[i];
        if !((b >= 32 && b != 127) || b == 9) {
            return false;
        }
        i += 1;
    }
    true
}

/// The `Host` field for an upstream host, where the host can be a header value.
pub open spec fn host_field(host: Seq<char>) -> Option<(Seq<char>, Seq<u8>)> {
    if is_header_value(vstd::utf8::encode_utf8(host)) {
        Some(("host"@, vstd::utf8::encode_utf8(host)))
    } else {
        None
    }
}

pub fn host_header(host: &str) -> (r: Option<HeaderField>)
    ensures
        match r {
            Some(field) => host_field(host@) == Some(field@),
            None => host_field(host@) is None,
        },
{
    let bytes = host.as_bytes();
    if can_be_header(bytes) {
        let value = vstd::slice::slice_to_vec(bytes);
        Some(HeaderField { name: "host".to_owned(), value })
    } else {
        None
    }
}

/// The fields of the upstream request for a relayed one.
pub open spec fn upstream_fields(fields: Seq<(Seq<char>, Seq<u8>)>, host: Seq<char>) -> Seq<
    (Seq<char>, Seq<u8>),
> {
    match host_field(host) {
        Some(field) => headers::filtered(fields, false).push(field),
        None => headers::filtered(fields, false),
    }
}

/// The fields of the upstream request for a relayed one: what passes of its own, and the upstream
/// host.
pub fn proxy_http(headers: &http::HeaderMap<http::HeaderValue>, host: &str) -> (r: Vec<HeaderField>)
    ensures
        headers::field_views(r@) == upstream_fields(headers::header_fields(*headers), host@),
{
    let mut fields = headers::filtered_headers(headers, false);
    let ghost before = fields@;
    match host_header(host) {
        Some(field) => {
            fields.push(field);
            assert(headers::field_views(fields@) =~= headers::field_views(before).push(field@));
        },
        None => {},
    }
    fields
}

/// A list of fields without those of the name `host`.
pub open spec fn hostless(fields: Seq<(Seq<char>, Seq<u8>)>) -> Seq<(Seq<char>, Seq<u8>)> {
    fields.filter(|f: (Seq<char>, Seq<u8>)| f.0 != "host"@)
}

/// The fields of the upstream handshake, given the ones that it starts with.
pub open spec fn handshake_fields(
    base: Seq<(Seq<char>, Seq<u8>)>,
    fields: Seq<(Seq<char>, Seq<u8>)>,
    host: Seq<char>,
) -> Seq<(Seq<char>, Seq<u8>)> {
    let all = base + headers::filtered(fields, true);
    match host_field(host) {
        Some(field) => hostless(all).push(field),
        None => all,
    }
}

fn without_host(fields: Vec<HeaderField>) -> (r: Vec<HeaderField>)
    ensures
        headers::field_views(r@) == hostless(headers::field_views(fields@)),
{
    let ghost views = headers::field_views(fields@);
    let ghost keep = |f: (Seq<char>, Seq<u8>)| f.0 != "host"@;
    let mut kept: Vec<HeaderField> = Vec::new();
    proof {
        reveal(Seq::filter);
        assert(headers::field_views(kept@) =~= views.take(0).filter(keep));
    }
    let mut i: usize = 0;
    while i < fields.len()
        invariant
            i <= fields@.len(),
            views == headers::field_views(fields@),
            keep == (|f: (Seq<char>, Seq<u8>)| f.0 != "host"@),
            headers::field_views(kept@) == views.take(i as int).filter(keep),
        decreases fields@.len() - i,
    {
        let ghost before = kept@;
        proof {
            reveal(Seq::filter);
            assert(views.take(i + 1).drop_last() =~= views.take(i as int));
            assert(views[i as int] == fields@[i as int]@);
        }
        if !text::same_text(fields[i].name.as_str(), "host") {
            let field = HeaderField { name: fields[i].name.clone(), value: fields[i].value.clone() };
            assert(field.value@ =~= fields@[i as int].value@);
            kept.push(field);
            assert(headers::field_views(kept@) =~= headers::field_views(before).push(field@));
        }
        i += 1;
    }
    assert(views.take(i as int) =~= views);
    kept
}

/// The fields of the upstream handshake: those that it starts with, what passes of the client's
/// own handshake, and the upstream host in the place of any other.
pub fn handshake_headers(
    base: Vec<HeaderField>,
    headers: &http::HeaderMap<http::HeaderValue>,
    host: &str,
) -> (r: Vec<HeaderField>)
    ensures
        headers::field_views(r@) == handshake_fields(
            headers::field_views(base@),
            headers::header_fields(*headers),
            host@,
        ),
{
    let mut all = base;
    let mut passed = headers::filtered_headers(headers, true);
    let ghost passed_before = passed@;
    all.append(&mut passed);
    assert(headers::field_views(all@) =~= headers::field_views(base@) + headers::field_views(
        passed_before,
    ));
    match host_header(host) {
        Some(field) => {
            let mut fields = without_host(all);
            let ghost before = fields@;
            fields.push(field);
            assert(headers::field_views(fields@) =~= headers::field_views(before).push(field@));
            fields
        },
        None => all,
    }
}

/// What the `tungstenite` crate reports of a URL that it cannot ask for a WebSocket; nothing where
/// it can.
pub uninterp spec fn upgrade_error(url: Seq<char>) -> Option<Seq<char>>;

/// The fields of a new handshake with a host, given its key.
pub open spec fn upgrade_fields(host: Seq<char>, key: Seq<u8>) -> Seq<(Seq<char>, Seq<u8>)> {
    seq![
        ("host"@, vstd::utf8::encode_utf8(host)),
        ("connection"@, vstd::utf8::encode_utf8("Upgrade"@)),
        ("upgrade"@, vstd::utf8::encode_utf8("websocket"@)),
        ("sec-websocket-version"@, vstd::utf8::encode_utf8("13"@)),
        ("sec-websocket-key"@, key),
    ]
}

/// An authority without the user information before its host.
pub open spec fn without_user(authority: Seq<char>) -> Seq<char> {
    match text::split_once(authority, '@') {
        Some((_, host)) => host,
        None => authority,
    }
}

/// A digit of Base64 in the standard alphabet.
pub open spec fn is_base64_digit(b: u8) -> bool {
    ||| 'A' as u8 <= b <= 'Z' as u8
    ||| 'a' as u8 <= b <= 'z' as u8
    ||| '0' as u8 <= b <= '9' as u8
    ||| b == '+' as u8
    ||| b == '/' as u8
}

/// Whether some bytes are a handshake key, which is 16 bytes in padded Base64: 22 digits, the last of
/// which stands for two bits only, and two equals signs.
pub open spec fn is_handshake_key(key: Seq<u8>) -> bool {
    &&& key.len() == 24
    &&& forall|k: int| 0 <= k < 22 ==> is_base64_digit(#[trigger] key[k])
    &&& key[21] == 'A' as u8 || key[21] == 'Q' as u8 || key[21] == 'g' as u8 || key[21]
        == 'w' as u8
    &&& key[22] == '=' as u8
    &&& key[23] == '=' as u8
}

/// Whether some fields are those of a new handshake for a URL, with some key.
pub open spec fn is_upgrade(fields: Seq<(Seq<char>, Seq<u8>)>, url: Seq<char>) -> bool {
    &&& uri::uri_of_text(url) matches Some(parts) && parts.authority is Some
    &&& exists|key: Seq<u8>|
        is_handshake_key(key) && fields == #[trigger] upgrade_fields(
            without_user(uri::uri_of_text(url)->Some_0.authority->Some_0),
            key,
        )
}

/// `tungstenite::client::IntoClientRequest::into_client_request`: the fields of a new handshake
/// for a URL, with a random key, or what is wrong with the URL. Whether it fails, and how, depends
/// on the URL alone.
#[verifier::external_body]
fn client_request(url: &str) -> (r: Result<http::HeaderMap<http::HeaderValue>, String>)
    ensures
        match r {
            Ok(fields) => upgrade_error(url@) is None && is_upgrade(
                headers::header_fields(fields),
                url@,
            ),
            Err(error) => upgrade_error(url@) == Some(error@),
        },
{
    let request = url.into_client_request().map_err(|error| error.to_string())?;
    Ok(request.into_parts().0.headers)
}

/// Whether some fields are those of an upstream handshake.
pub open spec fn is_handshake(
    r: Seq<(Seq<char>, Seq<u8>)>,
    url: Seq<char>,
    fields: Seq<(Seq<char>, Seq<u8>)>,
    host: Seq<char>,
) -> bool {
    exists|base: Seq<(Seq<char>, Seq<u8>)>|
        #[trigger] is_upgrade(base, url) && r == handshake_fields(base, fields, host)
}

/// The fields of the upstream handshake for a URL, or the answer where the URL cannot be asked for a
/// WebSocket.
pub fn proxy_websocket(
    url: &str,
    headers: &http::HeaderMap<http::HeaderValue>,
    host: &str,
) -> (r: Result<Vec<HeaderField>, Reply>)
    ensures
        match r {
            Ok(fields) => upgrade_error(url@) is None && is_handshake(
                headers::field_views(fields@),
                url@,
                headers::header_fields(*headers),
                host@,
            ),
            Err(refusal) => upgrade_error(url@) is Some && refusal@ == reply::detailed_answer(
                400,
                "invalid_upstream"@,
                upgrade_error(url@)->Some_0,
            ),
        },
{
    match client_request(url) {
        Ok(request) => {
            let base = headers::all_headers(&request);
            Ok(handshake_headers(base, headers, host))
        },
        Err(error) => Err(invalid_upstream(error.as_str())),
    }
}

/// The answer where the upstream host could not be reached, for whatever reason.
pub open spec fn unreachable_answer(error: Seq<char>) -> ReplyView {
    reply::detailed_answer(502, "upstream_connect"@, error)
}

/// The answer where the upstream URL cannot be asked for a WebSocket, for whatever reason.
pub open spec fn invalid_answer(error: Seq<char>) -> ReplyView {
    reply::detailed_answer(400, "invalid_upstream"@, error)
}

/// The answer where the upstream host could not be reached.
pub fn upstream_unreachable(error: &str) -> (r: Reply)
    ensures
        r@ == reply::detailed_answer(502, "upstream_connect"@, error@),
        r@ == unreachable_answer(error@),
{
    reply::json_error(502, "upstream_connect", error)
}

/// The answer where the upstream URL cannot be asked for a WebSocket.
pub fn invalid_upstream(error: &str) -> (r: Reply)
    ensures
        r@ == reply::detailed_answer(400, "invalid_upstream"@, error@),
        r@ == invalid_answer(error@),
{
    reply::json_error(400, "invalid_upstream", error)
}

/// What becomes of a request, given the registry in which its credentials are looked up.
pub open spec fn relay_outcome(
    clients: registry::RegistryView,
    id: Seq<char>,
    host: Seq<char>,
    rest: Seq<char>,
    uri_text: Seq<char>,
    fields: Seq<(Seq<char>, Seq<u8>)>,
) -> ProxyDecision {
    let found = match auth::relay_credentials(fields) {
        None => Err(reply::unauthorized()),
        Some((uuid, token_hash)) => match registry::known_as(clients, uuid, token_hash) {
            None => Err(reply::unauthorized()),
            Some(name) => Ok((uuid, name)),
        },
    };
    proxy_decision(
        found,
        id,
        host,
        rest,
        uri::authority_of_text(host),
        path_of(uri::uri_of_text(uri_text)),
        fields,
    )
}

/// A request is relayed only for a known client, and only with its own identifier in the path.
pub proof fn law_relaying_requires_authentication(
    clients: registry::RegistryView,
    id: Seq<char>,
    host: Seq<char>,
    rest: Seq<char>,
    uri_text: Seq<char>,
    fields: Seq<(Seq<char>, Seq<u8>)>,
)
    ensures
        relay_outcome(clients, id, host, rest, uri_text, fields) matches ProxyDecision::Relayed {
            client,
            websocket,
            host: h,
            url,
        } ==> {
            &&& auth::relay_credentials(fields) is Some
            &&& auth::relay_credentials(fields)->Some_0.0 == client.0
            &&& registry::known_as(clients, client.0, auth::relay_credentials(fields)->Some_0.1)
                == Some(client.1)
            &&& id == token::uuid_text(client.0)
        },
{
}

/// A revoked client cannot use the relay.
pub proof fn law_revoked_clients_cannot_relay(
    clients: registry::RegistryView,
    uuid: u128,
    id: Seq<char>,
    host: Seq<char>,
    rest: Seq<char>,
    uri_text: Seq<char>,
    fields: Seq<(Seq<char>, Seq<u8>)>,
)
    requires
        auth::relay_credentials(fields) is None || auth::relay_credentials(fields)->Some_0.0 == uuid,
    ensures
        relay_outcome(registry::revoked(clients, uuid), id, host, rest, uri_text, fields)
            == ProxyDecision::Refused(reply::unauthorized()),
{
    if let Some((_, token_hash)) = auth::relay_credentials(fields) {
        laws::law_revoked_clients_are_unknown(clients, uuid, token_hash);
    }
}

/// The path of a request: the client's identifier, the upstream host, and what is asked of it.
pub open spec fn relay_path(id: Seq<char>, host: Seq<char>, tail: Seq<char>) -> Seq<char> {
    seq!['/'] + id + seq!['/'] + host + seq!['/'] + tail
}

/// A relayed request leads to the host in its path, and asks it for exactly the path and query that
/// stand behind the host. The one exception is a host that reads as the client's identifier.
pub proof fn law_relayed_destinations_are_exact(
    client: (u128, Seq<char>),
    host: Seq<char>,
    rest: Seq<char>,
    tail: Seq<char>,
    authority: Option<(Seq<char>, Option<u16>)>,
    fields: Seq<(Seq<char>, Seq<u8>)>,
)
    requires
        is_valid_host(host, authority),
        host != token::uuid_text(client.0),
    ensures
        ({
            let id = token::uuid_text(client.0);
            let websocket = asks_for_websocket(fields);
            proxy_decision(
                Ok((client.0, client.1)),
                id,
                host,
                rest,
                authority,
                Some(relay_path(id, host, tail)),
                fields,
            ) == ProxyDecision::Relayed {
                client,
                websocket,
                host,
                url: scheme_for(fields, websocket) + "://"@ + host + seq!['/'] + tail,
            }
        }),
{
    let id = token::uuid_text(client.0);
    let path = relay_path(id, host, tail);
    let marker = seq!['/'] + host + seq!['/'];
    let n = id.len() as int;
    assert forall|k: int| 0 <= k < n implies id[k] != '/' by {}
    assert forall|k: int| 0 <= k < n implies path[k + 1] == id[k] by {}
    assert(path[n + 1] == '/');
    assert forall|i: int| 0 <= i < n + 1 implies !text::occurs_at(path, marker, i) by {
        if text::occurs_at(path, marker, i) {
            let found = path.subrange(i, i + marker.len());
            assert(found[0] == '/');
            if i > 0 {
                assert(path[i] == id[i - 1]);
            } else {
                assert(found[host.len() as int + 1] == '/');
                assert(path[host.len() as int + 1] == '/');
                if host.len() < n {
                    assert(path[host.len() as int + 1] == id[host.len() as int]);
                } else if host.len() > n {
                    assert(found[n + 1] == host[n]);
                    assert(bad_host_char(host[n]));
                } else {
                    assert forall|k: int| 0 <= k < n implies host[k] == id[k] by {
                        assert(found[k + 1] == host[k]);
                    }
                    assert(host =~= id);
                }
            }
        }
    }
    assert(path.subrange(n + 1, n + 1 + marker.len()) =~= marker);
    text::lemma_find_from(path, marker, 0, n + 1);
    assert(path.skip(n + 1 + marker.len()) =~= tail);
}

/// Whether none of some fields carries the relay's own credentials or settings.
pub open spec fn without_relay_fields(fields: Seq<(Seq<char>, Seq<u8>)>) -> bool {
    forall|i: int| 0 <= i < fields.len() ==> !headers::relay_header((#[trigger] fields[i]).0)
}

proof fn lemma_upgrade_names()
    ensures
        !headers::relay_header("host"@),
        !headers::relay_header("connection"@),
        !headers::relay_header("upgrade"@),
        !headers::relay_header("sec-websocket-version"@),
        !headers::relay_header("sec-websocket-key"@),
{
    reveal_strlit("host");
    reveal_strlit("connection");
    reveal_strlit("upgrade");
    reveal_strlit("sec-websocket-version");
    reveal_strlit("sec-websocket-key");
    reveal_strlit("x-omp-relay-token");
    reveal_strlit("x-omp-relay-scheme");
    assert(text::lower("x-omp-relay-token"@)[0] == 'x');
    assert(text::lower("x-omp-relay-scheme"@)[0] == 'x');
    assert(text::lower("host"@)[0] == 'h');
    assert(text::lower("connection"@)[0] == 'c');
    assert(text::lower("upgrade"@)[0] == 'u');
    assert(text::lower("sec-websocket-version"@)[0] == 's');
    assert(text::lower("sec-websocket-key"@)[0] == 's');
}

/// The relay's own credentials and settings never reach the upstream host, neither in a relayed
/// request nor in a handshake.
pub proof fn law_relay_credentials_stay_behind(
    base: Seq<(Seq<char>, Seq<u8>)>,
    url: Seq<char>,
    fields: Seq<(Seq<char>, Seq<u8>)>,
    host: Seq<char>,
)
    requires
        is_upgrade(base, url),
    ensures
        without_relay_fields(upstream_fields(fields, host)),
        without_relay_fields(handshake_fields(base, fields, host)),
{
    lemma_upgrade_names();
    headers::law_relayed_fields(fields, false);
    headers::law_relayed_fields(fields, true);
    assert(without_relay_fields(base));
    let all = base + headers::filtered(fields, true);
    assert(without_relay_fields(all));
    let keep = |f: (Seq<char>, Seq<u8>)| f.0 != "host"@;
    let kept = hostless(all);
    assert forall|i: int| 0 <= i < kept.len() implies !headers::relay_header((#[trigger] kept[i]).0) by {
        assert(kept.contains(kept[i]));
        all.lemma_filter_contains_rev(keep, kept[i]);
    }
}

/// Whether a character is white space, by its number.
pub open spec fn is_space(c: char) -> bool {
    let n = c as int;
    ||| 9 <= n <= 13
    ||| n == 32
    ||| n == 133
    ||| n == 160
    ||| n == 5760
    ||| 8192 <= n <= 8202
    ||| n == 8232
    ||| n == 8233
    ||| n == 8239
    ||| n == 8287
    ||| n == 12288
}

proof fn lemma_space(c: char)
    ensures
        is_space(c) == text::is_white_space(c),
{
}

/// A host is refused for a slash, a backslash, an at sign, a number sign, a question mark or white
/// space in it, and for no other character. Without these it is valid where it is read as an
/// authority with a host, unless it ends with a colon and nothing but digits behind it and the
/// authority has no port.
pub proof fn law_valid_hosts_are_exact(host: Seq<char>, parts: Option<(Seq<char>, Option<u16>)>)
    ensures
        is_valid_host(host, parts) <==> {
            &&& host.len() > 0
            &&& forall|k: int|
                0 <= k < host.len() ==> (#[trigger] host[k]) != '/' && host[k] != '\\' && host[k] != '@'
                    && host[k] != '#' && host[k] != '?' && !is_space(host[k])
            &&& parts is Some
            &&& parts->Some_0.0.len() > 0
            &&& parts->Some_0.1 is Some || !exists|i: int|
                0 <= i < host.len() && (#[trigger] host[i]) == ':' && forall|k: int|
                    i < k < host.len() ==> 48 <= (#[trigger] host[k]) as int && host[k] as int <= 57
        },
{
    assert forall|k: int| 0 <= k < host.len() implies bad_host_char(#[trigger] host[k]) == (host[k]
        == '/' || host[k] == '\\' || host[k] == '@' || host[k] == '#' || host[k] == '?' || is_space(
        host[k],
    )) by {
        lemma_space(host[k]);
    }
    text::lemma_last_char_index(host, ':');
    let at = text::last_char_index(host, ':');
    let digits_follow = text::after_last(host, ':') is Some && text::all_digits(
        text::after_last(host, ':')->Some_0,
    );
    if digits_follow {
        let rest = host.skip(at + 1);
        assert forall|k: int| at < k < host.len() implies 48 <= (#[trigger] host[k]) as int
            && host[k] as int <= 57 by {
            assert(rest[k - at - 1] == host[k]);
        }
        assert(host[at] == ':');
    }
    if exists|i: int|
        0 <= i < host.len() && (#[trigger] host[i]) == ':' && forall|k: int|
            i < k < host.len() ==> 48 <= (#[trigger] host[k]) as int && host[k] as int <= 57 {
        let i = choose|i: int|
            0 <= i < host.len() && (#[trigger] host[i]) == ':' && forall|k: int|
                i < k < host.len() ==> 48 <= (#[trigger] host[k]) as int && host[k] as int <= 57;
        assert(i == at);
        let rest = host.skip(at + 1);
        assert forall|k: int| 0 <= k < rest.len() implies '0' <= #[trigger] rest[k] && rest[k] <= '9' by {
            assert(rest[k] == host[k + at + 1]);
        }
        assert(digits_follow);
    }
}

/// A text of ASCII letters, digits, hyphens and dots that is read as an authority with a host is a
/// valid host.
pub proof fn law_plain_names_are_valid_hosts(
    host: Seq<char>,
    name: Seq<char>,
    port: Option<u16>,
)
    requires
        host.len() > 0,
        name.len() > 0,
        forall|k: int|
            0 <= k < host.len() ==> ('a' <= #[trigger] host[k] && host[k] <= 'z') || ('A' <= host[k]
                && host[k] <= 'Z') || ('0' <= host[k] && host[k] <= '9') || host[k] == '-' || host[k]
                == '.',
    ensures
        is_valid_host(host, Some((name, port))),
{
    law_valid_hosts_are_exact(host, Some((name, port)));
    assert forall|k: int| 0 <= k < host.len() implies (#[trigger] host[k]) != '/' && host[k] != '\\'
        && host[k] != '@' && host[k] != '#' && host[k] != '?' && !is_space(host[k]) && host[k]
        != ':' by {}
}

/// A request asks for a WebSocket exactly where its `Upgrade` field says `websocket`, in whatever
/// case.
pub proof fn law_websockets_are_asked_for(fields: Seq<(Seq<char>, Seq<u8>)>)
    ensures
        headers::first_value(fields, "upgrade"@) is None ==> !asks_for_websocket(fields),
        headers::first_value(fields, "upgrade"@) matches Some(value) ==> (asks_for_websocket(fields)
            <==> text::match_but_for_case(
            Seq::new(value.len(), |k: int| value[k] as char),
            "websocket"@,
        )),
{
    reveal_strlit("upgrade");
    assert(text::lower("upgrade"@) =~= "upgrade"@);
    if let Some(value) = headers::first_value(fields, "upgrade"@) {
        let chars = Seq::new(value.len(), |k: int| value[k] as char);
        assert(headers::byte_chars(value) =~= chars);
        text::law_case_is_ignored(chars, "websocket"@);
    }
}

/// The scheme is `http` or `ws` exactly where the client asks for `http`, in whatever case; it is
/// `https` or `wss` where the client asks for anything else or for nothing.
pub proof fn law_schemes_are_exact(fields: Seq<(Seq<char>, Seq<u8>)>)
    ensures
        ({
            let plain = headers::text_of_header(fields, "x-omp-relay-scheme"@) is Some
                && text::match_but_for_case(
                headers::text_of_header(fields, "x-omp-relay-scheme"@)->Some_0,
                "http"@,
            );
            &&& plain ==> scheme_for(fields, false) == "http"@
            &&& plain ==> scheme_for(fields, true) == "ws"@
            &&& !plain ==> scheme_for(fields, false) == "https"@
            &&& !plain ==> scheme_for(fields, true) == "wss"@
        }),
{
    reveal_strlit("x-omp-relay-scheme");
    assert(text::lower("x-omp-relay-scheme"@) =~= "x-omp-relay-scheme"@);
    if let Some(value) = headers::text_of_header(fields, "x-omp-relay-scheme"@) {
        text::law_case_is_ignored(value, "http"@);
    }
}

/// A URL is its scheme, the host as it stands in the path, and a slash before the path.
pub proof fn law_urls_are_put_together(scheme: Seq<char>, host: Seq<char>, path: Seq<char>)
    ensures
        upstream_url(scheme, host, path) == scheme + seq![':', '/', '/'] + host + seq!['/'] + path,
{
    reveal_strlit("://");
    assert("://"@ =~= seq![':', '/', '/']);
}

/// What is asked of the upstream host is what stands behind the first place of the host in the path,
/// between slashes; and what was captured, where there is no such place or no path.
pub proof fn law_upstream_paths_are_exact(
    before: Seq<char>,
    host: Seq<char>,
    after: Seq<char>,
    rest: Seq<char>,
    other: Seq<char>,
)
    ensures
        upstream_path(None, host, rest) == rest,
        ({
            let marker = seq!['/'] + host + seq!['/'];
            let path = before + marker + after;
            (forall|i: int|
                #![trigger path.subrange(i, i + marker.len())]
                0 <= i < before.len() ==> path.subrange(i, i + marker.len()) != marker)
                ==> upstream_path(Some(path), host, rest) == after
        }),
        ({
            let marker = seq!['/'] + host + seq!['/'];
            (forall|i: int|
                #![trigger other.subrange(i, i + marker.len())]
                0 <= i <= other.len() - marker.len() ==> other.subrange(i, i + marker.len()) != marker)
                ==> upstream_path(Some(other), host, rest) == rest
        }),
{
    let marker = seq!['/'] + host + seq!['/'];
    let path = before + marker + after;
    if forall|i: int|
        #![trigger path.subrange(i, i + marker.len())]
        0 <= i < before.len() ==> path.subrange(i, i + marker.len()) != marker {
        text::law_the_first_place_counts(before, marker, after);
    }
    if forall|i: int|
        #![trigger other.subrange(i, i + marker.len())]
        0 <= i <= other.len() - marker.len() ==> other.subrange(i, i + marker.len()) != marker {
        text::law_a_missing_pattern_is_not_found(other, marker);
    }
}

/// A request of a client with its own identifier in the path and a valid host is relayed, whatever
/// else it holds; it is refused for the three reasons there are, in their order, and for no other.
pub proof fn law_requests_are_relayed_or_refused(
    found: Result<(u128, Seq<char>), ReplyView>,
    id: Seq<char>,
    host: Seq<char>,
    rest: Seq<char>,
    authority: Option<(Seq<char>, Option<u16>)>,
    path_and_query: Option<Seq<char>>,
    fields: Seq<(Seq<char>, Seq<u8>)>,
)
    ensures
        ({
            let decision = proxy_decision(found, id, host, rest, authority, path_and_query, fields);
            match found {
                Err(refusal) => decision == ProxyDecision::Refused(refusal),
                Ok((uuid, name)) => {
                    &&& id != token::uuid_text(uuid) ==> decision == ProxyDecision::Refused(
                        ReplyView {
                            status: 403,
                            proxy_authenticate: None,
                            body: reply::BodyView::Error {
                                error: "uuid_mismatch"@,
                                detail: Some("path UUID does not match authenticated client"@),
                            },
                        },
                    )
                    &&& id == token::uuid_text(uuid) && !is_valid_host(host, authority) ==> decision
                        == ProxyDecision::Refused(
                        ReplyView {
                            status: 400,
                            proxy_authenticate: None,
                            body: reply::BodyView::Error {
                                error: "invalid_host"@,
                                detail: Some(
                                    "host must be a DNS name or IP address with an optional port"@,
                                ),
                            },
                        },
                    )
                    &&& id == token::uuid_text(uuid) && is_valid_host(host, authority) ==> {
                        &&& decision is Relayed
                        &&& decision->client == (uuid, name)
                        &&& decision->host == host
                        &&& decision->websocket == asks_for_websocket(fields)
                        &&& decision->url == scheme_for(fields, asks_for_websocket(fields)) + seq![
                            ':',
                            '/',
                            '/',
                        ] + host + seq!['/'] + upstream_path(path_and_query, host, rest)
                    }
                },
            }
        }),
{
    law_urls_are_put_together(
        scheme_for(fields, asks_for_websocket(fields)),
        host,
        upstream_path(path_and_query, host, rest),
    );
}

/// A request for a host of ASCII letters, digits, hyphens and dots is relayed to that very host.
pub proof fn law_requests_for_plain_names_are_relayed(
    client: (u128, Seq<char>),
    host: Seq<char>,
    rest: Seq<char>,
    name: Seq<char>,
    port: Option<u16>,
    path_and_query: Option<Seq<char>>,
    fields: Seq<(Seq<char>, Seq<u8>)>,
)
    requires
        host.len() > 0,
        name.len() > 0,
        forall|k: int|
            0 <= k < host.len() ==> ('a' <= #[trigger] host[k] && host[k] <= 'z') || ('A' <= host[k]
                && host[k] <= 'Z') || ('0' <= host[k] && host[k] <= '9') || host[k] == '-' || host[k]
                == '.',
    ensures
        proxy_decision(
            Ok((client.0, client.1)),
            token::uuid_text(client.0),
            host,
            rest,
            Some((name, port)),
            path_and_query,
            fields,
        ) matches ProxyDecision::Relayed { client: c, websocket, host: h, url } && c == client && h
            == host,
{
    law_plain_names_are_valid_hosts(host, name, port);
}

/// A text can be a header value exactly where its bytes are tabs, or from 32 on and not 127; the
/// `Host` field then holds the bytes of the text.
pub proof fn law_host_fields_are_exact(host: Seq<char>)
    ensures
        ({
            let bytes = vstd::utf8::encode_utf8(host);
            let fits = forall|k: int|
                0 <= k < bytes.len() ==> (#[trigger] bytes[k]) == 9 || (32 <= bytes[k] && bytes[k]
                    != 127);
            &&& fits ==> host_field(host) == Some(("host"@, bytes))
            &&& !fits ==> host_field(host) is None
        }),
{
}

/// A relayed request has the fields that pass, in their order, and behind them one more: the upstream
/// host.
pub proof fn law_relayed_requests_name_their_host(
    fields: Seq<(Seq<char>, Seq<u8>)>,
    host: Seq<char>,
)
    ensures
        host_field(host) matches Some(field) ==> {
            &&& upstream_fields(fields, host).len() == headers::filtered(fields, false).len() + 1
            &&& upstream_fields(fields, host).last() == field
            &&& upstream_fields(fields, host).drop_last() == headers::filtered(fields, false)
        },
        host_field(host) is None ==> upstream_fields(fields, host) == headers::filtered(fields, false),
{
    if let Some(field) = host_field(host) {
        assert(upstream_fields(fields, host).drop_last() =~= headers::filtered(fields, false));
    }
}

/// Fields go without those of the name `host` one by one.
pub proof fn law_only_hosts_are_taken_out(
    fields: Seq<(Seq<char>, Seq<u8>)>,
    f: (Seq<char>, Seq<u8>),
)
    ensures
        hostless(Seq::empty()) == Seq::<(Seq<char>, Seq<u8>)>::empty(),
        hostless(fields.push(f)) == if f.0 == "host"@ {
            hostless(fields)
        } else {
            hostless(fields).push(f)
        },
{
    reveal(Seq::filter);
    assert(fields.push(f).drop_last() =~= fields);
}

/// A handshake ends with the upstream host, which is the only host in it; all that it starts with and
/// all that passes of the client's stands before that, in its order. A host that cannot be a header
/// value changes nothing.
pub proof fn law_handshakes_are_exact(
    base: Seq<(Seq<char>, Seq<u8>)>,
    fields: Seq<(Seq<char>, Seq<u8>)>,
    host: Seq<char>,
)
    ensures
        host_field(host) matches Some(field) ==> {
            let r = handshake_fields(base, fields, host);
            &&& r.len() > 0
            &&& r.last() == field
            &&& r.drop_last() == hostless(base + headers::filtered(fields, true))
            &&& forall|k: int| 0 <= k < r.len() - 1 ==> (#[trigger] r[k]).0 != "host"@
        },
        host_field(host) is None ==> handshake_fields(base, fields, host) == base + headers::filtered(
            fields,
            true,
        ),
{
    if let Some(field) = host_field(host) {
        let all = base + headers::filtered(fields, true);
        let kept = hostless(all);
        let r = handshake_fields(base, fields, host);
        assert(r.drop_last() =~= kept);
        assert forall|k: int| 0 <= k < r.len() - 1 implies (#[trigger] r[k]).0 != "host"@ by {
            all.lemma_filter_pred(|f: (Seq<char>, Seq<u8>)| f.0 != "host"@, k);
            assert(r[k] == kept[k]);
        }
    }
}

/// What a decision is seen as is what it holds.
pub proof fn law_views_of_decisions_are_faithful(
    plan: ProxyPlan,
    refusal: Reply,
    client: AuthenticatedClient,
)
    ensures
        decision_view(Ok(plan)) == (ProxyDecision::Relayed {
            client: (plan.client.uuid, plan.client.name@),
            websocket: plan.websocket,
            host: plan.host@,
            url: plan.url@,
        }),
        decision_view(Err(refusal)) == ProxyDecision::Refused(refusal@),
        found_view(Ok(client)) == Ok::<(u128, Seq<char>), ReplyView>((client.uuid, client.name@)),
        found_view(Err(refusal)) == Err::<(u128, Seq<char>), ReplyView>(refusal@),
{
}

/// Where a request cannot be relayed, the answer has the reason as its detail, as it is.
pub proof fn law_relay_failures_are_explained(error: Seq<char>)
    ensures
        unreachable_answer(error) == (ReplyView {
            status: 502,
            proxy_authenticate: None,
            body: reply::BodyView::Error { error: "upstream_connect"@, detail: Some(error) },
        }),
        invalid_answer(error) == (ReplyView {
            status: 400,
            proxy_authenticate: None,
            body: reply::BodyView::Error { error: "invalid_upstream"@, detail: Some(error) },
        }),
{
}

} // verus!
