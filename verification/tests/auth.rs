use omp_relayd::admin::{debug, status, StatusReport};
use omp_relayd::auth::{
    authenticate, authenticate_disk, authenticate_token, conclude, AuthAction, AuthPhase,
    AuthenticatedClient, LAST_SEEN_FLUSH_SECS,
};
use omp_relayd::registry::Registry;
use omp_relayd::reply::{internal_error, unauthorized_reply, Reply, ReplyBody};
use omp_relayd::token::{
    constant_time_equal, new_secret, parse_credentials, present, secret_of, token_hash, Credentials,
};

const ID: u128 = 0x0123_4567_89ab_cdef_0123_4567_89ab_cdef;
const ID_TEXT: &str = "01234567-89ab-cdef-0123-456789abcdef";

fn json(status: u16, error: &str) -> Reply {
    Reply {
        status,
        proxy_authenticate: None,
        body: ReplyBody::Error { error: error.to_owned(), detail: None },
    }
}

/// Looks credentials up in a stored registry, and writes the registry back where that is asked for.
fn look_up(stored: &mut Registry, credentials: &Credentials, now: u64) -> (Option<String>, Registry) {
    let first = authenticate_disk(AuthPhase::Reading, stored.clone(), credentials, now);
    match first {
        AuthAction::Finish { name, registry } => (name, registry),
        AuthAction::Save { .. } => unreachable!(),
        AuthAction::Reload => {
            match authenticate_disk(AuthPhase::Updating, stored.clone(), credentials, now) {
                AuthAction::Finish { name, registry } => (name, registry),
                AuthAction::Save { client, registry } => {
                    *stored = registry.clone();
                    (Some(client), registry)
                }
                AuthAction::Reload => unreachable!(),
            }
        }
    }
}

#[test]
fn authentication_persists_last_seen_without_reviving_revoked_clients() {
    let mut stored = Registry::default();
    let created = 1_000;
    let (uuid, token) = stored.add_client("test client".into(), created);
    let credentials = Credentials { uuid, token_hash: token_hash(&token) };

    let seen = created + LAST_SEEN_FLUSH_SECS;
    let (name, _) = look_up(&mut stored, &credentials, seen);
    assert_eq!(name.as_deref(), Some("test client"));
    assert_eq!(stored.clients[0].last_seen, seen);

    assert!(stored.revoke(uuid));
    let (name, registry) = look_up(&mut stored, &credentials, seen + 1);
    assert!(name.is_none());
    assert!(registry.clients.is_empty());
    assert!(stored.clients.is_empty());
}

#[test]
fn a_client_that_is_revoked_between_the_two_looks_stays_revoked() {
    let mut stored = Registry::default();
    stored.enroll(ID, "t", "box".to_owned(), 1_000);
    let credentials = Credentials { uuid: ID, token_hash: token_hash("t") };
    let first = authenticate_disk(AuthPhase::Reading, stored.clone(), &credentials, 2_000);
    assert_eq!(first, AuthAction::Reload);
    assert!(stored.revoke(ID));
    assert_eq!(
        authenticate_disk(AuthPhase::Updating, stored.clone(), &credentials, 2_000),
        AuthAction::Finish { name: None, registry: Registry::default() }
    );
}

#[test]
fn last_seen_is_written_once_a_minute() {
    let mut stored = Registry::default();
    stored.enroll(ID, "t", "box".to_owned(), 1_000);
    let credentials = Credentials { uuid: ID, token_hash: token_hash("t") };
    for (now, expected) in [(1_059, 1_000), (500, 1_000), (1_060, 1_060), (1_061, 1_060)] {
        let (name, _) = look_up(&mut stored, &credentials, now);
        assert_eq!(name.as_deref(), Some("box"));
        assert_eq!(stored.clients[0].last_seen, expected);
    }
}

#[test]
fn another_request_may_have_written_last_seen_already() {
    let mut stored = Registry::default();
    stored.enroll(ID, "t", "box".to_owned(), 1_990);
    let credentials = Credentials { uuid: ID, token_hash: token_hash("t") };
    assert_eq!(
        authenticate_disk(AuthPhase::Updating, stored.clone(), &credentials, 2_000),
        AuthAction::Finish { name: Some("box".to_owned()), registry: stored }
    );
}

#[test]
fn both_the_identifier_and_the_token_must_match() {
    let mut stored = Registry::default();
    stored.enroll(ID, "t", "box".to_owned(), 1_000);
    for credentials in [
        Credentials { uuid: ID + 1, token_hash: token_hash("t") },
        Credentials { uuid: ID, token_hash: token_hash("u") },
        Credentials { uuid: ID, token_hash: String::new() },
    ] {
        let (name, registry) = look_up(&mut stored, &credentials, 1_000);
        assert_eq!(name, None);
        assert_eq!(registry, stored);
    }
}

#[test]
fn only_the_client_that_was_seen_is_touched() {
    let mut stored = Registry::default();
    stored.enroll(1, "a", "one".to_owned(), 10);
    stored.enroll(2, "b", "two".to_owned(), 10);
    let credentials = Credentials { uuid: 2, token_hash: token_hash("b") };
    let (name, _) = look_up(&mut stored, &credentials, 100);
    assert_eq!(name.as_deref(), Some("two"));
    assert_eq!(stored.clients[0].last_seen, 10);
    assert_eq!(stored.clients[1].last_seen, 100);
    assert_eq!(stored.clients[1].created, 10);
}

#[test]
fn credentials_are_an_identifier_and_a_token() {
    let expected = Credentials { uuid: ID, token_hash: token_hash("abc") };
    assert_eq!(parse_credentials(&format!("{ID_TEXT}:abc")), Some(expected.clone()));
    assert_eq!(authenticate_token(&format!("{ID_TEXT}:abc")), Ok(expected.clone()));
    assert_eq!(parse_credentials("0123456789abcdef0123456789abcdef:abc"), Some(expected.clone()));
    assert_eq!(parse_credentials("01234567-89AB-CDEF-0123-456789ABCDEF:abc"), Some(expected));
    assert_eq!(
        parse_credentials(&format!("{ID_TEXT}:a:b")),
        Some(Credentials { uuid: ID, token_hash: token_hash("a:b") })
    );
    assert_eq!(
        parse_credentials(&format!("{ID_TEXT}:")),
        Some(Credentials { uuid: ID, token_hash: token_hash("") })
    );
}

#[test]
fn malformed_credentials_are_unauthorized() {
    for value in ["", "abc", ID_TEXT, "no-uuid:abc", ":abc"] {
        assert_eq!(parse_credentials(value), None);
        assert_eq!(authenticate_token(value), Err(json(401, "unauthorized")));
    }
}

#[test]
fn the_identifier_decides_with_the_token_hash() {
    assert_eq!(present(None, "t"), None);
    assert_eq!(
        present(Some(7), "t"),
        Some(Credentials { uuid: 7, token_hash: token_hash("t") })
    );
}

#[test]
fn relay_requests_carry_their_credentials_in_a_header() {
    let mut headers = http::HeaderMap::new();
    assert_eq!(authenticate(&headers), Err(json(401, "unauthorized")));
    headers.insert(
        "x-omp-relay-token",
        http::HeaderValue::from_str(&format!("{ID_TEXT}:abc")).unwrap(),
    );
    assert_eq!(
        authenticate(&headers),
        Ok(Credentials { uuid: ID, token_hash: token_hash("abc") })
    );
    headers.insert("X-OMP-Relay-Token", http::HeaderValue::from_bytes(b"\xff:abc").unwrap());
    assert_eq!(authenticate(&headers), Err(json(401, "unauthorized")));
}

#[test]
fn the_outcome_of_a_look_up_is_an_answer_or_a_client() {
    assert_eq!(
        conclude(3, Ok(Some("box".to_owned()))),
        Ok(AuthenticatedClient { uuid: 3, name: "box".to_owned() })
    );
    assert_eq!(conclude(3, Ok(None)), Err(unauthorized_reply()));
    assert_eq!(conclude(3, Err(())), Err(internal_error()));
    assert_eq!(unauthorized_reply(), json(401, "unauthorized"));
    assert_eq!(internal_error(), json(500, "internal"));
}

#[test]
fn tokens_are_hashed_with_sha_256() {
    assert_eq!(
        token_hash(""),
        "e3b0c44298fc1c149afbf4c8996fb92427ae41e4649b934ca495991b7852b855"
    );
    assert_eq!(
        token_hash("abc"),
        "ba7816bf8f01cfea414140de5dae2223b00361a396177a9cb410ff61f20015ad"
    );
}

#[test]
fn secrets_are_random_bytes_in_hexadecimal() {
    let mut bytes = [0_u8; 32];
    bytes[0] = 0xab;
    bytes[31] = 0x01;
    let expected = format!("ab{}01", "00".repeat(30));
    assert_eq!(secret_of(&bytes), expected);
    let (uuid, token) = new_secret();
    let (other_uuid, other_token) = new_secret();
    assert_ne!(uuid, other_uuid);
    assert_ne!(token, other_token);
    assert_eq!(token.len(), 64);
}

#[test]
fn byte_strings_are_compared_in_full() {
    assert!(constant_time_equal(b"", b""));
    assert!(constant_time_equal(b"abc", b"abc"));
    assert!(!constant_time_equal(b"abc", b"abd"));
    assert!(!constant_time_equal(b"xbc", b"abc"));
    assert!(!constant_time_equal(b"abc", b"abcd"));
}

#[test]
fn the_status_is_told_to_clients_only() {
    let client = AuthenticatedClient { uuid: 1, name: "a".to_owned() };
    assert_eq!(
        status(Ok(client.clone()), Ok(3), 12, 4, true),
        Ok(StatusReport { uptime_s: 12, clients: 3, active_streams: 4, debug: true })
    );
    assert_eq!(status(Err(unauthorized_reply()), Ok(3), 12, 4, true), Err(unauthorized_reply()));
    assert_eq!(status(Ok(client), Err(()), 12, 4, true), Err(internal_error()));
}

#[test]
fn logging_is_switched_by_clients_only() {
    let mut setting = false;
    assert_eq!(debug(Err(unauthorized_reply()), &mut setting, true), Err(unauthorized_reply()));
    assert!(!setting);
    let client = AuthenticatedClient { uuid: 1, name: "a".to_owned() };
    assert_eq!(debug(Ok(client), &mut setting, true), Ok(true));
    assert!(setting);
}
