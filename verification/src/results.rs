//! What comes out of the library's functions, in terms of what went in: each law speaks of a call and
//! of its result, or of what the call left behind.

use vstd::prelude::*;

use crate::address::{IpAddress, SocketAddress};
use crate::admin::StatusReport;
use crate::auth::AuthenticatedClient;
use crate::forward::{ConnectStep, ForwardRequest, ForwardRoute, ForwardTarget, Target, TargetError};
use crate::headers::HeaderField;
use crate::pairing::{PairAttempts, PairResponse};
use crate::proxy::ProxyPlan;
use crate::registry::{ClientView, CodeView, Registry};
use crate::reply::{BodyView, Reply, ReplyView};
use crate::token::Credentials;
use crate::uri::UriParts;
use crate::ws::{ClientMessage, UpstreamMessage};
use crate::{admin, auth, clock, forward, headers, laws, pairing, proxy, reply, service};
use crate::{text, token, uri, ws};

verus! {

/// A request for an absolute URI leads to its host, and to the port that the URI names, whatever its
/// scheme; where it names none the port is 443 for `https`, in whatever case, and 80 for the rest.
pub proof fn law_forward_http_leads_to_the_named_port(
    parts: UriParts,
    scheme: String,
    host: String,
    r: Result<Target, Reply>,
)
    requires
        call_ensures(forward::forward_http, (&Some(parts),), r),
        parts.scheme == Some(scheme),
        parts.authority is Some,
        parts.host == Some(host),
    ensures
        r is Ok,
        r->Ok_0.host@ == host@,
        parts.port matches Some(port) ==> r->Ok_0.port == port,
        parts.port is None && text::match_but_for_case(scheme@, "https"@) ==> r->Ok_0.port == 443,
        parts.port is None && !text::match_but_for_case(scheme@, "https"@) ==> r->Ok_0.port == 80,
{
    text::law_case_is_ignored(scheme@, "https"@);
}

/// A tunnel leads to the host and the port that its authority was read as.
pub proof fn law_connect_tunnel_leads_to_the_named_port(
    parts: UriParts,
    authority: String,
    host: Seq<char>,
    port: u16,
    r: Result<Target, Reply>,
)
    requires
        call_ensures(forward::connect_tunnel, (&Some(parts),), r),
        parts.authority == Some(authority),
        uri::authority_of_text(authority@) == Some((host, Some(port))),
    ensures
        r is Ok,
        r->Ok_0.host@ == host,
        r->Ok_0.port == port,
{
}

/// A host that is not forbidden leads to all the addresses that were found for it, however many, in
/// their order, where each of them is public; where one of them is not, or where there are none, it
/// leads nowhere.
pub proof fn law_resolve_public_target_gives_every_address(
    host: &str,
    addresses: Vec<SocketAddress>,
    r: Result<Vec<SocketAddress>, TargetError>,
)
    requires
        call_ensures(forward::resolve_public_target, (host, Ok(addresses)), r),
        call_ensures(forward::is_forbidden_host, (host,), false),
    ensures
        addresses@.len() > 0 && (forall|k: int|
            0 <= k < addresses@.len() ==> !forward::is_not_public(#[trigger] addresses@[k])) ==> r is Ok
            && r->Ok_0@ == addresses@,
        addresses@.len() == 0 ==> r is Err && r->Err_0 is Empty,
        (exists|k: int|
            0 <= k < addresses@.len() && forward::is_not_public(#[trigger] addresses@[k])) ==> r is Err
            && r->Err_0 is Forbidden,
{
    if addresses@.len() > 0 && (forall|k: int|
        0 <= k < addresses@.len() ==> !forward::is_not_public(#[trigger] addresses@[k])) {
        forward::law_public_targets_go_through(host@, addresses@);
    }
    forward::law_other_targets_are_refused(host@, Ok(addresses@));
}

/// A client that is added stands behind the others with what it was added with, and the codes are
/// those that there were.
pub proof fn law_enroll_leaves_the_rest(
    registry: &mut Registry,
    uuid: u128,
    token: &str,
    name: String,
    now: u64,
)
    requires
        call_ensures(Registry::enroll, (registry, uuid, token, name, now), ()),
    ensures
        final(registry)@.codes == old(registry)@.codes,
        final(registry)@.clients == old(registry)@.clients.push(
            ClientView {
                uuid,
                token_sha256: token::hashed(token@),
                name: name@,
                created: now,
                last_seen: now,
            },
        ),
{
}

/// The same of a client that is added with an identifier and a token of its own.
pub proof fn law_add_client_leaves_the_rest(
    registry: &mut Registry,
    name: String,
    now: u64,
    r: (u128, String),
)
    requires
        call_ensures(Registry::add_client, (registry, name, now), r),
    ensures
        final(registry)@.codes == old(registry)@.codes,
        final(registry)@.clients == old(registry)@.clients.push(
            ClientView {
                uuid: r.0,
                token_sha256: token::hashed(r.1@),
                name: name@,
                created: now,
                last_seen: now,
            },
        ),
{
}

/// Presenting a code leaves the clients and every live code that reads otherwise.
pub proof fn law_consume_pairing_code_leaves_the_rest(
    registry: &mut Registry,
    code: &str,
    now: u64,
    r: bool,
)
    requires
        call_ensures(Registry::consume_pairing_code, (registry, code, now), r),
    ensures
        final(registry)@.clients == old(registry)@.clients,
        forall|k: int|
            0 <= k < old(registry)@.codes.len() && (#[trigger] old(registry)@.codes[k]).expires_unix
                > now && old(registry)@.codes[k].code != text::upper(text::trimmed(code@))
                ==> final(registry)@.codes.contains(old(registry)@.codes[k]),
        forall|k: int|
            0 <= k < final(registry)@.codes.len() ==> old(registry)@.codes.contains(
                #[trigger] final(registry)@.codes[k],
            ),
{
    laws::law_presenting_uses_up_one_code(old(registry)@, code@, now);
}

/// Pairing with a code that is accepted leaves the other clients, and every live code that reads
/// otherwise. A code that is not accepted adds no client, and the answer says that it is invalid or
/// has expired.
pub proof fn law_pair_leaves_the_rest(
    registry: &mut Registry,
    code: &str,
    name: String,
    now: u64,
    r: Result<PairResponse, Reply>,
)
    requires
        call_ensures(pairing::pair, (registry, code, name, now), r),
    ensures
        r is Ok ==> final(registry)@.clients.len() == old(registry)@.clients.len() + 1
            && final(registry)@.clients.drop_last() == old(registry)@.clients
            && final(registry)@.clients.last().name == name@,
        r matches Err(refusal) ==> final(registry)@.clients == old(registry)@.clients && refusal@ == (
        ReplyView {
            status: 403,
            proxy_authenticate: None,
            body: BodyView::Error { error: "invalid_or_expired_code"@, detail: None },
        }),
        forall|k: int|
            0 <= k < old(registry)@.codes.len() && (#[trigger] old(registry)@.codes[k]).expires_unix
                > now && old(registry)@.codes[k].code != text::upper(text::trimmed(code@))
                ==> final(registry)@.codes.contains(old(registry)@.codes[k]),
{
    laws::law_presenting_uses_up_one_code(old(registry)@, code@, now);
    if let Ok(response) = r {
        pairing::law_pairing_trades_a_code_for_a_client(
            old(registry)@,
            final(registry)@,
            response,
            code@,
            name@,
            now,
        );
    }
}

/// A code is taken up, for ten minutes, exactly where no other reads the same; nothing else changes.
pub proof fn law_offer_code_adds_one_code(registry: &mut Registry, code: String, now: u64, r: bool)
    requires
        now + 600 <= u64::MAX,
        call_ensures(Registry::offer_code, (registry, code, now), r),
    ensures
        r <==> forall|k: int|
            0 <= k < old(registry)@.codes.len() ==> (#[trigger] old(registry)@.codes[k]).code != code@,
        final(registry)@.clients == old(registry)@.clients,
        r ==> final(registry)@.codes == old(registry)@.codes.push(
            CodeView { code: code@, expires_unix: (now + 600) as u64 },
        ),
        !r ==> final(registry)@.codes == old(registry)@.codes,
{
}

/// A client can be revoked exactly where one has the identifier; the codes stay.
pub proof fn law_revoke_client_says_whether_there_was_one(
    registry: &mut Registry,
    uuid: u128,
    r: Result<String, String>,
)
    requires
        call_ensures(admin::revoke_client, (registry, uuid), r),
    ensures
        r is Ok <==> exists|k: int|
            0 <= k < old(registry)@.clients.len() && (#[trigger] old(registry)@.clients[k]).uuid == uuid,
        r matches Ok(said) ==> said@ == "Revoked "@ + token::uuid_text(uuid),
        r matches Err(error) ==> error@ == "client "@ + token::uuid_text(uuid) + " not found"@,
        final(registry)@.codes == old(registry)@.codes,
{
}

/// A name made of letters, digits, hyphens and dots is a valid host wherever it reads as one.
pub proof fn law_valid_host_takes_plain_names(
    host: &str,
    name: Seq<char>,
    port: Option<u16>,
    r: bool,
)
    requires
        call_ensures(proxy::valid_host, (host,), r),
        uri::authority_of_text(host@) == Some((name, port)),
        host@.len() > 0,
        name.len() > 0,
        forall|k: int|
            0 <= k < host@.len() ==> ('a' <= #[trigger] host@[k] && host@[k] <= 'z') || ('A' <= host@[k]
                && host@[k] <= 'Z') || ('0' <= host@[k] && host@[k] <= '9') || host@[k] == '-'
                || host@[k] == '.',
    ensures
        r,
{
    proxy::law_plain_names_are_valid_hosts(host@, name, port);
}

/// Nine names are kept back from a proxied request, in whatever case, and no other.
pub proof fn law_is_proxy_or_hop_header_knows_nine_names(name: &str, r: bool)
    requires
        call_ensures(headers::is_proxy_or_hop_header, (name,), r),
    ensures
        r <==> headers::is_kept_back(name@),
{
    headers::law_classes_of_names_are_exact(name@);
}

/// A proxied request is passed on with every field that is the first of its name, but for those of
/// the nine names, and with nothing else.
pub proof fn law_forwarded_headers_keep_the_rest(
    headers: http::HeaderMap<http::HeaderValue>,
    r: Vec<HeaderField>,
)
    requires
        call_ensures(headers::forwarded_headers, (headers,), r),
    ensures
        ({
            let fields = headers::header_fields(headers);
            let out = headers::field_views(r@);
            &&& forall|k: int|
                0 <= k < fields.len() && (forall|j: int|
                    0 <= j < k ==> (#[trigger] fields[j]).0 != fields[k].0) && !headers::is_kept_back(
                    (#[trigger] fields[k]).0,
                ) ==> out.contains(fields[k])
            &&& forall|i: int|
                0 <= i < out.len() ==> !headers::is_kept_back((#[trigger] out[i]).0) && fields.contains(
                    out[i],
                )
        }),
{
    headers::law_nine_names_are_kept_back(headers::header_fields(headers));
}

/// A proxy request that presents credentials is taken up with its method and its URI; one that does
/// not is asked for them.
pub proof fn law_forward_proxy_keeps_the_request(
    headers: &http::HeaderMap<http::HeaderValue>,
    connect: bool,
    uri: &str,
    r: Result<ForwardRequest, Reply>,
)
    requires
        call_ensures(forward::forward_proxy, (headers, connect, uri), r),
    ensures
        match forward::proxy_credentials(headers::header_fields(*headers)) {
            Some(presented) => {
                &&& r is Ok
                &&& r->Ok_0.credentials@ == presented
                &&& r->Ok_0.connect == connect
                &&& r->Ok_0.uri@ == uri@
            },
            None => r is Err && r->Err_0@ == reply::challenge(),
        },
{
}

/// A client that was found goes on as itself, with its method and its URI, to the target that the
/// URI names, unless there is none or its host is forbidden; one that was not is asked for
/// credentials.
pub proof fn law_authenticated_requests_go_on(
    request: ForwardRequest,
    found: Result<AuthenticatedClient, Reply>,
    r: Result<ForwardTarget, Reply>,
    target: (Seq<char>, u16),
)
    requires
        call_ensures(ForwardRequest::authenticated, (request, found), r),
    ensures
        found is Err ==> r is Err && r->Err_0@ == reply::challenge(),
        found is Ok && forward::request_target(request.connect, uri::uri_of_text(request.uri@)) == Ok::<
            (Seq<char>, u16),
            ReplyView,
        >(target) && !forward::forbidden_host(target.0) ==> {
            &&& r is Ok
            &&& r->Ok_0.client == found->Ok_0
            &&& r->Ok_0.connect == request.connect
            &&& r->Ok_0.uri@ == request.uri@
            &&& r->Ok_0.target@ == target
        },
        found is Ok && forward::request_target(request.connect, uri::uri_of_text(request.uri@)) == Ok::<
            (Seq<char>, u16),
            ReplyView,
        >(target) && forward::forbidden_host(target.0) ==> r is Err && r->Err_0@.status == 403,
{
}

/// A request whose host was found at public addresses only goes on as it was, with all of them.
pub proof fn law_resolved_requests_go_on(
    request: ForwardTarget,
    addresses: Vec<SocketAddress>,
    r: Result<ForwardRoute, Reply>,
)
    requires
        call_ensures(ForwardTarget::resolved, (request, Ok(addresses)), r),
        !forward::forbidden_host(request.target.host@),
        addresses@.len() > 0,
        forall|k: int|
            0 <= k < addresses@.len() ==> !forward::is_not_public(#[trigger] addresses@[k]),
    ensures
        r is Ok,
        r->Ok_0.addresses@ == addresses@,
        r->Ok_0.client == request.client,
        r->Ok_0.connect == request.connect,
        r->Ok_0.uri == request.uri,
        r->Ok_0.target == request.target,
{
    forward::law_public_targets_go_through(request.target.host@, addresses@);
}

/// The addresses are tried one after the other; when none is left, the last error is given.
pub proof fn law_connect_any_tries_the_next_address(
    addresses: &Vec<SocketAddress>,
    tried: usize,
    last_error: Option<String>,
    r: ConnectStep,
)
    requires
        call_ensures(forward::connect_any, (addresses, tried, last_error), r),
    ensures
        tried < addresses@.len() ==> r == ConnectStep::Try(addresses@[tried as int]),
        tried >= addresses@.len() ==> r is GiveUp,
        tried >= addresses@.len() && last_error is Some ==> r->GiveUp_0@ == last_error->Some_0@,
        tried >= addresses@.len() && last_error is None ==> r->GiveUp_0@
            == "target resolved to no addresses"@,
{
}

/// A request to the relay is let in with the credentials that it presents; without any the answer is
/// 401.
pub proof fn law_authenticate_reads_credentials(
    headers: &http::HeaderMap<http::HeaderValue>,
    r: Result<Credentials, Reply>,
)
    requires
        call_ensures(auth::authenticate, (headers,), r),
    ensures
        match auth::relay_credentials(headers::header_fields(*headers)) {
            Some(presented) => r is Ok && r->Ok_0@ == presented,
            None => r is Err && r->Err_0@.status == 401,
        },
{
}

/// A client is let in under the identifier that was presented and its own name. Where there is none
/// the answer is 401; where the registry failed it is 500.
pub proof fn law_conclude_names_the_client(
    uuid: u128,
    found: Result<Option<String>, ()>,
    r: Result<AuthenticatedClient, Reply>,
)
    requires
        call_ensures(auth::conclude, (uuid, found), r),
    ensures
        match found {
            Ok(Some(name)) => r is Ok && r->Ok_0.uuid == uuid && r->Ok_0.name@ == name@,
            Ok(None) => r is Err && r->Err_0@.status == 401,
            Err(_) => r is Err && r->Err_0@.status == 500,
        },
{
}

/// The administrator sees what was counted; one who was not let in sees the refusal.
pub proof fn law_status_reports_what_was_counted(
    found: Result<AuthenticatedClient, Reply>,
    clients: Result<usize, ()>,
    uptime_s: u64,
    active_streams: usize,
    debug: bool,
    r: Result<StatusReport, Reply>,
)
    requires
        call_ensures(admin::status, (found, clients, uptime_s, active_streams, debug), r),
    ensures
        found matches Err(refusal) ==> r == Err::<StatusReport, Reply>(refusal),
        found is Ok && clients is Err ==> r is Err && r->Err_0@.status == 500,
        found is Ok && clients is Ok ==> {
            &&& r is Ok
            &&& r->Ok_0.uptime_s == uptime_s
            &&& r->Ok_0.clients == clients->Ok_0
            &&& r->Ok_0.active_streams == active_streams
            &&& r->Ok_0.debug == debug
        },
{
}

/// The setting becomes what a client that was let in asks for, and stays for everyone else.
pub proof fn law_debug_follows_the_client(
    found: Result<AuthenticatedClient, Reply>,
    setting: &mut bool,
    enabled: bool,
    r: Result<bool, Reply>,
)
    requires
        call_ensures(admin::debug, (found, setting, enabled), r),
    ensures
        found is Ok ==> r == Ok::<bool, Reply>(enabled) && *final(setting) == enabled,
        found matches Err(refusal) ==> r == Err::<bool, Reply>(refusal) && *final(setting) == *old(setting),
{
}

/// An address may try to pair ten times in a minute. Another attempt is counted for the address that
/// makes it, and for no other.
pub proof fn law_allow_pair_attempt_counts_by_address(
    limiter: &mut PairAttempts,
    ip: IpAddress,
    other: IpAddress,
    now: u64,
    r: bool,
)
    requires
        call_ensures(PairAttempts::allow_pair_attempt, (limiter, ip, now), r),
        other != ip,
    ensures
        !old(limiter)@.contains_key(ip) || old(limiter)@[ip].minute != now / 60 ==> r
            && final(limiter)@[ip].count == 1,
        old(limiter)@.contains_key(ip) && old(limiter)@[ip].minute == now / 60 ==> (r <==> old(limiter)@[ip].count < 10),
        r && old(limiter)@.contains_key(ip) && old(limiter)@[ip].minute == now / 60 ==> final(limiter)@[ip].count == old(limiter)@[ip].count + 1,
        final(limiter)@.contains_key(ip) && final(limiter)@[ip].minute == now / 60,
        final(limiter)@.contains_key(other) <==> old(limiter)@.contains_key(other),
        old(limiter)@.contains_key(other) ==> final(limiter)@[other] == old(limiter)@[other],
{
}

/// A request for the root of a host is one with nothing behind the host.
pub proof fn law_proxy_root_asks_for_nothing_more(
    found: Result<AuthenticatedClient, Reply>,
    id: &str,
    host: &str,
    rest: &str,
    request_uri: &str,
    headers: &http::HeaderMap<http::HeaderValue>,
    root: Result<ProxyPlan, Reply>,
    other: Result<ProxyPlan, Reply>,
)
    requires
        call_ensures(proxy::proxy_root, (found, id, host, request_uri, headers), root),
        call_ensures(proxy::proxy, (found, id, host, rest, request_uri, headers), other),
        rest@.len() == 0,
    ensures
        proxy::decision_view(root) == proxy::decision_view(other),
{
    assert(rest@ =~= Seq::empty());
}

/// The time that has passed since the start of the epoch is what was measured, and nothing where the
/// clock stands before it.
pub proof fn law_seconds_or_zero_keeps_seconds(elapsed: Option<u64>, r: u64)
    requires
        call_ensures(clock::seconds_or_zero, (elapsed,), r),
    ensures
        elapsed matches Some(seconds) ==> r == seconds,
        elapsed is None ==> r == 0,
{
}

/// Two byte strings are equal exactly where they have the same bytes.
pub proof fn law_constant_time_equal_compares_every_byte(left: &[u8], right: &[u8], r: bool)
    requires
        call_ensures(token::constant_time_equal, (left, right), r),
    ensures
        r <==> left@.len() == right@.len() && forall|k: int|
            0 <= k < left@.len() ==> left@[k] == right@[k],
{
    if left@.len() == right@.len() && forall|k: int| 0 <= k < left@.len() ==> left@[k] == right@[k] {
        assert(left@ =~= right@);
    }
}

/// It is said whether a unit file was there.
pub proof fn law_unit_removed_names_the_file(existed: bool, unit_path: &str, r: String)
    requires
        call_ensures(service::unit_removed, (existed, unit_path), r),
    ensures
        existed ==> r@ == "Removed "@ + unit_path@,
        !existed ==> r@ == "No unit file at "@ + unit_path@,
{
}

/// A message that goes to the upstream host and would come back is the same message.
pub proof fn law_messages_survive_both_ways(
    message: ClientMessage,
    there: UpstreamMessage,
    back: Option<ClientMessage>,
)
    requires
        call_ensures(ws::axum_to_tungstenite, (message,), there),
        call_ensures(ws::tungstenite_to_axum, (there,), back),
    ensures
        back is Some,
        back->Some_0@ == message@,
{
}

} // verus!
