use base64::Engine;
use omp_relayd::address::{canonical, is_disallowed_ip, IpAddress, SocketAddress};
use omp_relayd::auth::{authenticate_disk, conclude, AuthAction, AuthPhase, AuthenticatedClient};
use omp_relayd::forward::{
    authenticate_proxy, connect_any, credentials_from, forward_http, forward_proxy,
    is_forbidden_host, pinned_client_failed, resolve_public_target, target_error_response,
    tunnel_opened, tunnel_to, upstream_failed, ConnectStep, Target, TargetError,
};
use omp_relayd::pairing::pair;
use omp_relayd::pinned::{key_of, PinnedClients, MAX_PINNED_CLIENTS};
use omp_relayd::registry::Registry;
use omp_relayd::reply::{proxy_auth_required, unauthorized_reply, Reply, ReplyBody};
use omp_relayd::token::{token_hash, Credentials};
use omp_relayd::uri::{AuthorityParts, UriParts};

const ID: u128 = 0x0123_4567_89ab_cdef_0123_4567_89ab_cdef;
const ID_TEXT: &str = "01234567-89ab-cdef-0123-456789abcdef";
const BLOCKED: &str = "proxy target is not allowed: loopback, private, link-local, metadata, and other non-public destinations are blocked";

fn ipv4(a: u32, b: u32, c: u32, d: u32) -> u32 {
    ((a * 256 + b) * 256 + c) * 256 + d
}

fn mapped(ip: u32) -> IpAddress {
    IpAddress::V6(0xffff_0000_0000 + u128::from(ip))
}

fn at(ip: u32, port: u16) -> SocketAddress {
    SocketAddress::V4 { v4: ip, port }
}

fn plain(status: u16, body: &str) -> Reply {
    Reply { status, proxy_authenticate: None, body: ReplyBody::Text(body.to_owned()) }
}

fn proxy_headers(value: &str) -> http::HeaderMap {
    let mut headers = http::HeaderMap::new();
    headers.insert("proxy-authorization", http::HeaderValue::from_str(value).unwrap());
    headers
}

fn basic(credentials: &[u8]) -> String {
    format!("Basic {}", base64::engine::general_purpose::STANDARD.encode(credentials))
}

fn somebody() -> AuthenticatedClient {
    AuthenticatedClient { uuid: ID, name: "box".to_owned() }
}

#[test]
fn rejects_non_public_ipv4_ranges() {
    for ip in [
        ipv4(127, 0, 0, 1),
        ipv4(10, 0, 0, 1),
        ipv4(172, 16, 0, 1),
        ipv4(192, 168, 1, 1),
        ipv4(169, 254, 169, 254),
        ipv4(100, 64, 0, 1),
    ] {
        assert!(is_disallowed_ip(IpAddress::V4(ip)), "{ip} should be blocked");
    }
    assert!(!is_disallowed_ip(IpAddress::V4(ipv4(8, 8, 8, 8))));
}

#[test]
fn rejects_non_public_ipv6_ranges() {
    assert!(is_disallowed_ip(IpAddress::V6(1)));
    assert!(is_disallowed_ip(IpAddress::V6(0xfd00_0000_0000_0000_0000_0000_0000_0001)));
    assert!(is_disallowed_ip(IpAddress::V6(0xfe80_0000_0000_0000_0000_0000_0000_0001)));
    assert!(!is_disallowed_ip(IpAddress::V6(0x2606_4700_4700_0000_0000_0000_0000_1111)));
}

#[test]
fn rejects_ipv4_mapped_ipv6_private_ranges() {
    for ip in [
        ipv4(127, 0, 0, 1),
        ipv4(10, 0, 0, 1),
        ipv4(172, 16, 0, 1),
        ipv4(192, 168, 1, 1),
        ipv4(169, 254, 169, 254),
    ] {
        assert!(is_disallowed_ip(mapped(ip)), "{ip} should be blocked");
    }
    assert!(!is_disallowed_ip(mapped(ipv4(8, 8, 8, 8))));
}

#[test]
fn blocked_ranges_end_where_they_should() {
    for (ip, blocked) in [
        (ipv4(0, 0, 0, 0), true),
        (ipv4(0, 255, 255, 255), true),
        (ipv4(1, 0, 0, 0), false),
        (ipv4(9, 255, 255, 255), false),
        (ipv4(11, 0, 0, 0), false),
        (ipv4(100, 63, 255, 255), false),
        (ipv4(100, 127, 255, 255), true),
        (ipv4(100, 128, 0, 0), false),
        (ipv4(126, 255, 255, 255), false),
        (ipv4(127, 255, 255, 255), true),
        (ipv4(128, 0, 0, 0), false),
        (ipv4(169, 253, 255, 255), false),
        (ipv4(169, 255, 0, 0), false),
        (ipv4(172, 15, 255, 255), false),
        (ipv4(172, 31, 255, 255), true),
        (ipv4(172, 32, 0, 0), false),
        (ipv4(192, 167, 255, 255), false),
        (ipv4(192, 169, 0, 0), false),
        (ipv4(223, 255, 255, 255), false),
        (ipv4(224, 0, 0, 0), true),
        (ipv4(239, 255, 255, 255), true),
        (ipv4(240, 0, 0, 0), false),
        (ipv4(255, 255, 255, 254), false),
        (ipv4(255, 255, 255, 255), true),
    ] {
        assert_eq!(is_disallowed_ip(IpAddress::V4(ip)), blocked, "{ip:x}");
        assert_eq!(is_disallowed_ip(mapped(ip)), blocked, "{ip:x}");
    }
    for (ip, blocked) in [
        (0, true),
        (2, false),
        (0xfbff_ffff_ffff_ffff_ffff_ffff_ffff_ffff, false),
        (0xfc00_0000_0000_0000_0000_0000_0000_0000, true),
        (0xfe00_0000_0000_0000_0000_0000_0000_0000, false),
        (0xfebf_ffff_ffff_ffff_ffff_ffff_ffff_ffff, true),
        (0xfec0_0000_0000_0000_0000_0000_0000_0000, false),
        (0xff02_0000_0000_0000_0000_0000_0000_0001, true),
    ] {
        assert_eq!(is_disallowed_ip(IpAddress::V6(ip)), blocked, "{ip:x}");
    }
}

#[test]
fn addresses_are_sorted_and_kept_once() {
    let low = at(ipv4(1, 1, 1, 1), 80);
    let next_port = at(ipv4(1, 1, 1, 1), 81);
    let high = at(ipv4(9, 9, 9, 9), 1);
    let six = SocketAddress::V6 { v6: 5, port: 9, flowinfo: 0, scope_id: 0 };
    let scoped = SocketAddress::V6 { v6: 5, port: 9, flowinfo: 0, scope_id: 2 };
    let flow = SocketAddress::V6 { v6: 5, port: 9, flowinfo: 1, scope_id: 0 };
    assert_eq!(
        canonical(&vec![flow, high, scoped, low, six, high, next_port, low]),
        vec![low, next_port, high, six, scoped, flow]
    );
    assert_eq!(canonical(&vec![]), vec![]);
}

#[test]
fn pinned_cache_is_bounded_and_refreshes_changed_dns_answers() {
    let mut cache: PinnedClients<u32> = PinnedClients::new();
    let first = vec![at(ipv4(93, 184, 216, 34), 443)];
    assert_eq!(cache.cached_pinned_client("example.com", 443, &first), None);
    cache.store("example.com", 443, &first, 1);
    assert_eq!(cache.cached_pinned_client("example.com", 443, &first), Some(&1));
    assert_eq!(cache.entries.len(), 1);

    let changed = vec![at(ipv4(93, 184, 216, 35), 443)];
    assert_eq!(cache.cached_pinned_client("example.com", 443, &changed), None);
    cache.store("example.com", 443, &changed, 2);
    assert_eq!(cache.entries.len(), 1);
    assert_eq!(cache.entries[0].key, "example.com:443");
    assert_eq!(cache.entries[0].pinned.addresses, changed);
    assert_eq!(cache.cached_pinned_client("Example.COM", 443, &changed), Some(&2));
    assert_eq!(cache.cached_pinned_client("example.com", 80, &changed), None);

    for index in 0..=MAX_PINNED_CLIENTS {
        let host = format!("api-{index}.example.com");
        assert_eq!(cache.cached_pinned_client(&host, 443, &first), None);
        cache.store(&host, 443, &first, 3);
    }
    assert_eq!(cache.entries.len(), MAX_PINNED_CLIENTS);
    assert_eq!(cache.cached_pinned_client("example.com", 443, &changed), None);
    assert_eq!(cache.cached_pinned_client("api-0.example.com", 443, &first), None);
    assert_eq!(cache.cached_pinned_client("api-1.example.com", 443, &first), Some(&3));
}

#[test]
fn pinned_clients_do_not_depend_on_the_order_of_addresses() {
    let mut cache: PinnedClients<u8> = PinnedClients::new();
    let a = at(1, 2);
    let b = at(3, 4);
    cache.store("H", 1, &vec![b, a, b], 9);
    assert_eq!(cache.entries[0].pinned.addresses, vec![a, b]);
    assert_eq!(cache.cached_pinned_client("h", 1, &vec![a, b]), Some(&9));
    assert_eq!(cache.cached_pinned_client("h", 1, &vec![a]), None);
    assert_eq!(key_of("API.Example.com", 65_535), "api.example.com:65535");
}

#[test]
fn proxy_credentials_come_in_basic_authorization() {
    let expected = Credentials { uuid: ID, token_hash: token_hash("abc") };
    let value = basic(format!("{ID_TEXT}:abc").as_bytes());
    assert_eq!(authenticate_proxy(&proxy_headers(&value)), Ok(expected.clone()));
    let lower = value.replace("Basic", "basic");
    assert_eq!(authenticate_proxy(&proxy_headers(&lower)), Ok(expected));
}

#[test]
fn anything_else_is_asked_for_credentials() {
    let challenge = Reply {
        status: 407,
        proxy_authenticate: Some("Basic realm=\"omp-relayd\"".to_owned()),
        body: ReplyBody::Text("proxy authentication required".to_owned()),
    };
    assert_eq!(proxy_auth_required(), challenge);
    assert_eq!(authenticate_proxy(&http::HeaderMap::new()), Err(challenge.clone()));
    let good = basic(format!("{ID_TEXT}:abc").as_bytes());
    for value in [
        good.replace("Basic", "BASIC"),
        good.replace("Basic ", "Bearer "),
        "Basic !!!".to_owned(),
        good.replace("Basic ", "Basic  "),
        basic(b"nobody:abc"),
        basic(ID_TEXT.as_bytes()),
        basic(b"\xff\xfe:abc"),
    ] {
        assert_eq!(authenticate_proxy(&proxy_headers(&value)), Err(challenge.clone()), "{value}");
    }
}

#[test]
fn decoded_bytes_must_be_text() {
    assert_eq!(credentials_from(None), None);
    assert_eq!(credentials_from(Some(vec![0xff, b':'])), None);
    assert_eq!(
        credentials_from(Some(format!("{ID_TEXT}:é").into_bytes())),
        Some(Credentials { uuid: ID, token_hash: token_hash("é") })
    );
}

#[test]
fn a_tunnel_needs_a_host_and_a_port() {
    assert_eq!(tunnel_to(false, None), Err(plain(400, "CONNECT target missing")));
    assert_eq!(tunnel_to(true, None), Err(plain(400, "invalid CONNECT target")));
    let nameless = AuthorityParts { host: "a.example".to_owned(), port: None };
    assert_eq!(tunnel_to(true, Some(nameless)), Err(plain(400, "CONNECT target port missing")));
    let named = AuthorityParts { host: "a.example".to_owned(), port: Some(8443) };
    assert_eq!(
        tunnel_to(true, Some(named)),
        Ok(Target { host: "a.example".to_owned(), port: 8443 })
    );
}

fn parts(scheme: Option<&str>, host: Option<&str>, port: Option<u16>) -> Option<UriParts> {
    Some(UriParts {
        scheme: scheme.map(str::to_owned),
        authority: Some("authority".to_owned()),
        host: host.map(str::to_owned),
        port,
        path_and_query: None,
    })
}

#[test]
fn an_absolute_uri_names_its_port_or_has_that_of_its_scheme() {
    let to = |port| Ok(Target { host: "h".to_owned(), port });
    assert_eq!(forward_http(&parts(Some("http"), Some("h"), None)), to(80));
    assert_eq!(forward_http(&parts(Some("HTTPS"), Some("h"), None)), to(443));
    assert_eq!(forward_http(&parts(Some("ftp"), Some("h"), None)), to(80));
    assert_eq!(forward_http(&parts(Some("https"), Some("h"), Some(8080))), to(8080));
    let absolute = Err(plain(400, "absolute proxy URI required"));
    assert_eq!(forward_http(&None), absolute);
    assert_eq!(forward_http(&parts(None, Some("h"), None)), absolute);
    assert_eq!(
        forward_http(&parts(Some("http"), None, None)),
        Err(plain(400, "proxy target host missing"))
    );
    let mut without = parts(Some("http"), Some("h"), None).unwrap();
    without.authority = None;
    assert_eq!(forward_http(&Some(without)), absolute);
}

#[test]
fn this_machine_and_the_metadata_service_are_forbidden() {
    for host in
        ["localhost", "LOCALHOST", "[localhost]", "a.localhost", "metadata.google.internal"]
    {
        assert!(is_forbidden_host(host), "{host}");
    }
    for host in ["localhost.example", "notlocalhost", "example.com", "google.internal"] {
        assert!(!is_forbidden_host(host), "{host}");
    }
}

#[test]
fn targets_must_resolve_to_public_addresses_only() {
    let public = at(ipv4(8, 8, 8, 8), 443);
    let private = at(ipv4(10, 0, 0, 1), 443);
    assert_eq!(resolve_public_target("a.example", Ok(vec![public])), Ok(vec![public]));
    assert_eq!(
        resolve_public_target("a.example", Ok(vec![public, private])),
        Err(TargetError::Forbidden)
    );
    assert_eq!(resolve_public_target("a.example", Ok(vec![])), Err(TargetError::Empty));
    assert_eq!(
        resolve_public_target("a.example", Err("no such host".to_owned())),
        Err(TargetError::Resolution("no such host".to_owned()))
    );
    assert_eq!(
        resolve_public_target("localhost", Err("unasked".to_owned())),
        Err(TargetError::Forbidden)
    );
}

#[test]
fn refused_targets_are_explained() {
    assert_eq!(target_error_response(TargetError::Forbidden), plain(403, BLOCKED));
    assert_eq!(
        target_error_response(TargetError::Resolution("x".to_owned())),
        plain(502, "target resolution failed: x")
    );
    assert_eq!(
        target_error_response(TargetError::Empty),
        plain(502, "target resolved to no addresses")
    );
    assert_eq!(
        pinned_client_failed("y"),
        plain(500, "failed to construct pinned HTTP client: y")
    );
    assert_eq!(upstream_failed("z"), plain(502, "upstream connect failed: z"));
}

#[test]
fn a_proxy_request_goes_from_credentials_to_a_route() {
    let value = basic(format!("{ID_TEXT}:abc").as_bytes());
    let uri = "http://api.example.com/v1/models?limit=2";
    let request = forward_proxy(&proxy_headers(&value), false, uri).expect("credentials are there");
    assert_eq!(request.credentials.uuid, ID);
    assert_eq!(request.credentials.token_hash, token_hash("abc"));
    let target = request.authenticated(Ok(somebody())).expect("the target is named");
    assert_eq!(target.target, Target { host: "api.example.com".to_owned(), port: 80 });
    let public = at(ipv4(93, 184, 216, 34), 80);
    let route = target.resolved(Ok(vec![public])).expect("the target is public");
    assert_eq!(route.uri, uri);
    assert_eq!(route.client, somebody());
    assert_eq!(route.addresses, vec![public]);
    assert!(!route.connect);
}

#[test]
fn a_tunnel_goes_to_the_host_that_was_asked_for() {
    let value = basic(format!("{ID_TEXT}:abc").as_bytes());
    let request = forward_proxy(&proxy_headers(&value), true, "api.example.com:443").unwrap();
    let target = request.authenticated(Ok(somebody())).unwrap();
    assert_eq!(target.target, Target { host: "api.example.com".to_owned(), port: 443 });
    assert!(target.connect);
    assert_eq!(
        tunnel_opened(),
        Reply { status: 200, proxy_authenticate: None, body: ReplyBody::Empty }
    );
    let private = SocketAddress::V6 { v6: 1, port: 443, flowinfo: 0, scope_id: 0 };
    assert_eq!(target.resolved(Ok(vec![private])), Err(plain(403, BLOCKED)));
}

#[test]
fn a_proxy_request_fails_at_each_stage() {
    assert_eq!(
        forward_proxy(&http::HeaderMap::new(), false, "http://a.example/"),
        Err(proxy_auth_required())
    );
    let headers = proxy_headers(&basic(format!("{ID_TEXT}:abc").as_bytes()));
    let ask = |connect, uri| forward_proxy(&headers, connect, uri).unwrap();
    assert_eq!(
        ask(false, "http://a.example/").authenticated(Err(unauthorized_reply())),
        Err(proxy_auth_required())
    );
    for (connect, uri, refusal) in [
        (false, "/v1/models", plain(400, "absolute proxy URI required")),
        (false, "not a uri", plain(400, "absolute proxy URI required")),
        (true, "/v1/models", plain(400, "CONNECT target missing")),
        (true, "a.example", plain(400, "CONNECT target port missing")),
        (true, "localhost:443", plain(403, BLOCKED)),
        (false, "http://metadata.google.internal/x", plain(403, BLOCKED)),
    ] {
        assert_eq!(ask(connect, uri).authenticated(Ok(somebody())), Err(refusal), "{uri}");
    }
}

#[test]
fn the_addresses_of_a_target_are_tried_in_turn() {
    let addresses = vec![at(1, 1), at(2, 2)];
    assert_eq!(connect_any(&addresses, 0, None), ConnectStep::Try(at(1, 1)));
    assert_eq!(connect_any(&addresses, 1, Some("x".to_owned())), ConnectStep::Try(at(2, 2)));
    assert_eq!(
        connect_any(&addresses, 2, Some("y".to_owned())),
        ConnectStep::GiveUp("y".to_owned())
    );
    assert_eq!(
        connect_any(&vec![], 0, None),
        ConnectStep::GiveUp("target resolved to no addresses".to_owned())
    );
}

#[test]
fn a_paired_client_gets_through_until_it_is_revoked() {
    let mut registry = Registry::default();
    let code = registry.create_pairing_code(1_000);
    let paired = pair(&mut registry, &code, "atv".to_owned(), 1_001).expect("the code is valid");
    let value = basic(format!("{}:{}", paired.uuid, paired.token).as_bytes());
    let ask = || {
        forward_proxy(&proxy_headers(&value), false, "https://a.example/").expect("credentials")
    };

    let request = ask();
    let found = authenticate_disk(AuthPhase::Reading, registry.clone(), &request.credentials, 1_002);
    let name = match found {
        AuthAction::Finish { name, .. } => name,
        _ => panic!("the client was seen a second ago"),
    };
    let client = conclude(request.credentials.uuid, Ok(name));
    let target = request.authenticated(client).expect("the client is known");
    assert_eq!(target.client.name, "atv");
    assert_eq!(target.target, Target { host: "a.example".to_owned(), port: 443 });

    assert!(registry.revoke(target.client.uuid));
    let request = ask();
    assert_eq!(
        authenticate_disk(AuthPhase::Reading, registry.clone(), &request.credentials, 1_003),
        AuthAction::Finish { name: None, registry: registry.clone() }
    );
    let nobody = conclude(request.credentials.uuid, Ok(None));
    assert_eq!(request.authenticated(nobody), Err(proxy_auth_required()));
}
