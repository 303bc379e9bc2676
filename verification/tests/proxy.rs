use omp_relayd::auth::AuthenticatedClient;
use omp_relayd::headers::{
    filtered_headers, forwarded_headers, header_chars, header_text, is_hop_by_hop,
    is_proxy_or_hop_header, is_relay_header, is_websocket_handshake_header, value_text, HeaderField,
};
use omp_relayd::proxy::{
    decide_proxy, handshake_headers, host_header, invalid_upstream, is_websocket_request, proxy,
    proxy_http, proxy_root, proxy_websocket, upstream_scheme, upstream_unreachable, valid_authority,
    valid_host, ProxyPlan,
};
use omp_relayd::reply::{internal_error, json_error, unauthorized_reply, ReplyBody};
use omp_relayd::uri::AuthorityParts;

const ID: u128 = 0x0123_4567_89ab_cdef_0123_4567_89ab_cdef;
const ID_TEXT: &str = "01234567-89ab-cdef-0123-456789abcdef";

fn headers(fields: &[(&'static str, &str)]) -> http::HeaderMap {
    let mut headers = http::HeaderMap::new();
    for (name, value) in fields {
        headers.append(*name, http::HeaderValue::from_str(value).unwrap());
    }
    headers
}

fn fields(list: &[(&str, &str)]) -> Vec<HeaderField> {
    list.iter()
        .map(|(name, value)| HeaderField {
            name: (*name).to_owned(),
            value: value.as_bytes().to_vec(),
        })
        .collect()
}

fn somebody() -> AuthenticatedClient {
    AuthenticatedClient { uuid: ID, name: "box".to_owned() }
}

fn plan(websocket: bool, host: &str, url: &str) -> ProxyPlan {
    ProxyPlan { client: somebody(), websocket, host: host.to_owned(), url: url.to_owned() }
}

#[test]
fn header_values_are_read_by_name() {
    let map = headers(&[("x-a", "one"), ("x-a", "two"), ("x-b", "")]);
    assert_eq!(header_text(&map, "x-a"), Some("one".to_owned()));
    assert_eq!(header_text(&map, "X-A"), Some("one".to_owned()));
    assert_eq!(header_text(&map, "x-b"), Some(String::new()));
    assert_eq!(header_text(&map, "x-c"), None);
    assert_eq!(header_text(&map, "not a name"), None);
    let longest = "n".repeat(64);
    let mut long = http::HeaderMap::new();
    long.insert(
        http::HeaderName::from_bytes(longest.as_bytes()).unwrap(),
        http::HeaderValue::from_static("v"),
    );
    assert_eq!(header_text(&long, &longest.to_uppercase()), Some("v".to_owned()));
    let mut binary = http::HeaderMap::new();
    binary.insert("x-a", http::HeaderValue::from_bytes(b"\xe9").unwrap());
    assert_eq!(header_text(&binary, "x-a"), None);
    assert_eq!(header_chars(&binary, "x-a"), Some("é".to_owned()));
    assert_eq!(header_chars(&binary, "x-b"), None);
}

#[test]
fn only_visible_ascii_is_text() {
    assert_eq!(value_text(&b"a\tb ~".to_vec()), Some("a\tb ~".to_owned()));
    assert_eq!(value_text(&vec![]), Some(String::new()));
    for byte in [0_u8, 10, 31, 127, 128, 255] {
        assert_eq!(value_text(&vec![b'a', byte]), None);
    }
}

#[test]
fn headers_are_sorted_into_their_classes() {
    assert!(is_relay_header("X-Omp-Relay-Token"));
    assert!(is_relay_header("x-omp-relay-scheme"));
    assert!(!is_relay_header("x-omp-relay"));
    for name in [
        "connection",
        "Keep-Alive",
        "proxy-authenticate",
        "proxy-authorization",
        "TE",
        "trailer",
        "transfer-encoding",
        "upgrade",
    ] {
        assert!(is_hop_by_hop(name), "{name}");
        assert!(is_proxy_or_hop_header(name), "{name}");
    }
    assert!(!is_hop_by_hop("proxy-connection"));
    assert!(is_proxy_or_hop_header("Proxy-Connection"));
    assert!(!is_proxy_or_hop_header("authorization"));
    for name in [
        "sec-websocket-key",
        "Sec-WebSocket-Version",
        "sec-websocket-accept",
        "sec-websocket-extensions",
    ] {
        assert!(is_websocket_handshake_header(name), "{name}");
    }
    assert!(!is_websocket_handshake_header("sec-websocket-protocol"));
}

#[test]
fn relayed_headers_keep_every_value() {
    let map = headers(&[
        ("accept", "a"),
        ("x-omp-relay-token", "secret"),
        ("accept", "b"),
        ("connection", "close"),
        ("sec-websocket-key", "k"),
        ("sec-websocket-protocol", "p"),
    ]);
    assert_eq!(
        filtered_headers(&map, false),
        fields(&[
            ("accept", "a"),
            ("accept", "b"),
            ("sec-websocket-key", "k"),
            ("sec-websocket-protocol", "p"),
        ])
    );
    assert_eq!(
        filtered_headers(&map, true),
        fields(&[("accept", "a"), ("accept", "b"), ("sec-websocket-protocol", "p")])
    );
}

#[test]
fn forwarded_headers_keep_the_first_value() {
    let map = headers(&[
        ("accept", "a"),
        ("proxy-authorization", "secret"),
        ("accept", "b"),
        ("x-omp-relay-token", "t"),
        ("proxy-connection", "close"),
    ]);
    assert_eq!(
        forwarded_headers(map),
        fields(&[("accept", "a"), ("x-omp-relay-token", "t")])
    );
}

#[test]
fn hosts_are_names_or_addresses_with_an_optional_port() {
    for host in ["example.com", "example.com:8443", "10.0.0.1", "10.0.0.1:80", "[::1]", "[::1]:80"] {
        assert!(valid_host(host), "{host}");
    }
    for host in [
        "",
        "a/b",
        "a\\b",
        "user@host",
        "host#x",
        "host?x",
        "a b",
        "a\u{2003}b",
        "host:99999",
        "host:",
        "[::1",
    ] {
        assert!(!valid_host(host), "{host}");
    }
}

#[test]
fn what_a_host_is_read_as_decides() {
    let named = |port| Some(AuthorityParts { host: "h".to_owned(), port });
    assert!(valid_authority("h", named(None)));
    assert!(!valid_authority("h", None));
    assert!(!valid_authority("h", Some(AuthorityParts { host: String::new(), port: Some(1) })));
    assert!(valid_authority("h:80", named(Some(80))));
    assert!(!valid_authority("h:80", named(None)));
    assert!(!valid_authority("h:", named(None)));
    assert!(valid_authority("a:b", named(None)));
    assert!(!valid_authority("h@h", named(None)));
    assert!(!valid_authority("", named(None)));
}

#[test]
fn the_scheme_follows_the_request() {
    let none = headers(&[]);
    let http_only = headers(&[("x-omp-relay-scheme", "HTTP")]);
    let https = headers(&[("x-omp-relay-scheme", "https")]);
    assert_eq!(upstream_scheme(&none, false), "https");
    assert_eq!(upstream_scheme(&none, true), "wss");
    assert_eq!(upstream_scheme(&http_only, false), "http");
    assert_eq!(upstream_scheme(&http_only, true), "ws");
    assert_eq!(upstream_scheme(&https, false), "https");
    assert!(!is_websocket_request(&none));
    assert!(is_websocket_request(&headers(&[("upgrade", "WebSocket")])));
    assert!(!is_websocket_request(&headers(&[("upgrade", "h2c")])));
}

#[test]
fn a_request_is_relayed_to_the_host_in_its_path() {
    let uri = format!("/{ID_TEXT}/api.example.com/v1/chat?stream=1");
    assert_eq!(
        proxy(Ok(somebody()), ID_TEXT, "api.example.com", "v1/chat", &uri, &headers(&[])),
        Ok(plan(false, "api.example.com", "https://api.example.com/v1/chat?stream=1"))
    );
    let map = headers(&[("upgrade", "websocket"), ("x-omp-relay-scheme", "http")]);
    let uri = format!("/{ID_TEXT}/h:81/socket");
    assert_eq!(
        proxy(Ok(somebody()), ID_TEXT, "h:81", "socket", &uri, &map),
        Ok(plan(true, "h:81", "ws://h:81/socket"))
    );
}

#[test]
fn a_request_without_a_path_asks_for_the_root() {
    for uri in [format!("/{ID_TEXT}/h"), format!("/{ID_TEXT}/h/")] {
        assert_eq!(
            proxy_root(Ok(somebody()), ID_TEXT, "h", &uri, &headers(&[])),
            Ok(plan(false, "h", "https://h/"))
        );
    }
}

#[test]
fn the_captured_rest_stands_in_for_a_missing_path() {
    let parts = || Some(AuthorityParts { host: "h".to_owned(), port: None });
    let map = headers(&[]);
    assert_eq!(
        decide_proxy(Ok(somebody()), ID_TEXT, "h", "a/b", parts(), &None, &map),
        Ok(plan(false, "h", "https://h/a/b"))
    );
    let elsewhere = Some("/x/y".to_owned());
    assert_eq!(
        decide_proxy(Ok(somebody()), ID_TEXT, "h", "a/b", parts(), &elsewhere, &map),
        Ok(plan(false, "h", "https://h/a/b"))
    );
    let query = Some(format!("/{ID_TEXT}/h/p?q=/h/z"));
    assert_eq!(
        decide_proxy(Ok(somebody()), ID_TEXT, "h", "a/b", parts(), &query, &map),
        Ok(plan(false, "h", "https://h/p?q=/h/z"))
    );
}

#[test]
fn relayed_requests_are_refused_in_order() {
    let map = headers(&[]);
    let uri = format!("/{ID_TEXT}/h/");
    for refusal in [unauthorized_reply(), internal_error()] {
        assert_eq!(proxy(Err(refusal.clone()), "x", "", "", &uri, &map), Err(refusal));
    }
    assert_eq!(
        proxy(Ok(somebody()), "x", "", "", &uri, &map),
        Err(json_error(403, "uuid_mismatch", "path UUID does not match authenticated client"))
    );
    assert_eq!(
        proxy(Ok(somebody()), &ID_TEXT.to_uppercase(), "h", "", &uri, &map),
        Err(json_error(403, "uuid_mismatch", "path UUID does not match authenticated client"))
    );
    assert_eq!(
        proxy(Ok(somebody()), ID_TEXT, "user@h", "", &uri, &map),
        Err(json_error(
            400,
            "invalid_host",
            "host must be a DNS name or IP address with an optional port"
        ))
    );
}

#[test]
fn relayed_requests_name_the_upstream_host() {
    let map = headers(&[("accept", "a"), ("x-omp-relay-token", "t"), ("host", "relay")]);
    assert_eq!(
        proxy_http(&map, "h:81"),
        fields(&[("accept", "a"), ("host", "relay"), ("host", "h:81")])
    );
    assert_eq!(proxy_http(&map, "h\n"), fields(&[("accept", "a"), ("host", "relay")]));
    assert_eq!(host_header("h"), Some(fields(&[("host", "h")]).remove(0)));
    assert_eq!(host_header("é"), Some(fields(&[("host", "é")]).remove(0)));
    assert_eq!(host_header("\u{7f}"), None);
    for n in 0..=255_u8 {
        let text = char::from(n).to_string();
        assert_eq!(host_header(&text).is_some(), http::HeaderValue::from_str(&text).is_ok());
    }
}

#[test]
fn a_handshake_has_one_host() {
    let base = fields(&[("host", "default"), ("sec-websocket-key", "ours")]);
    let map = headers(&[
        ("host", "relay"),
        ("sec-websocket-key", "theirs"),
        ("x-omp-relay-token", "t"),
        ("origin", "o"),
    ]);
    assert_eq!(
        handshake_headers(base.clone(), &map, "h"),
        fields(&[("sec-websocket-key", "ours"), ("origin", "o"), ("host", "h")])
    );
    assert_eq!(
        handshake_headers(base, &map, "\n"),
        fields(&[
            ("host", "default"),
            ("sec-websocket-key", "ours"),
            ("host", "relay"),
            ("origin", "o"),
        ])
    );
}

#[test]
fn upstream_failures_are_explained() {
    assert_eq!(upstream_unreachable("x"), json_error(502, "upstream_connect", "x"));
    assert_eq!(invalid_upstream("y"), json_error(400, "invalid_upstream", "y"));
}

#[test]
fn a_handshake_starts_with_a_key_of_its_own() {
    let map = headers(&[("sec-websocket-key", "theirs"), ("origin", "o")]);
    let made = proxy_websocket("wss://h:81/socket", &map, "h:81").expect("the URL is valid");
    let again = proxy_websocket("wss://h:81/socket", &map, "h:81").expect("the URL is valid");
    assert_eq!(made.len(), 6);
    assert_eq!(
        made[..3],
        fields(&[
            ("connection", "Upgrade"),
            ("upgrade", "websocket"),
            ("sec-websocket-version", "13"),
        ])
    );
    assert_eq!(made[3].name, "sec-websocket-key");
    assert_eq!(made[3].value.len(), 24);
    assert!(made[3].value[..22]
        .iter()
        .all(|b| b.is_ascii_alphanumeric() || *b == b'+' || *b == b'/'));
    assert!(b"AQgw".contains(&made[3].value[21]));
    assert_eq!(&made[3].value[22..], b"==");
    assert_ne!(made[3].value, again[3].value);
    assert_eq!(made[4..], fields(&[("origin", "o"), ("host", "h:81")]));
    let kept = proxy_websocket("ws://user@h/", &headers(&[]), "\n").expect("the URL is valid");
    assert_eq!(kept[0], fields(&[("host", "h")]).remove(0));
}

#[test]
fn a_url_without_a_host_is_no_websocket() {
    for url in ["", "/socket", "not a url"] {
        let refusal = proxy_websocket(url, &headers(&[]), "h").expect_err("the URL is invalid");
        assert_eq!(refusal.status, 400);
        match refusal.body {
            ReplyBody::Error { error, detail: Some(_) } => assert_eq!(error, "invalid_upstream"),
            _ => panic!("an error is named"),
        }
    }
}
