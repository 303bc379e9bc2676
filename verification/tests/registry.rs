use omp_relayd::admin::{list_clients, revoke_client};
use omp_relayd::clock::{seconds_or_zero, unix_time};
use omp_relayd::registry::{Client, PairingCode, Registry, CODE_LENGTH, CODE_LIFETIME_SECS};
use omp_relayd::self_test::{check_client, check_code, self_test, SelfTestError};
use omp_relayd::token::token_hash;

fn code(text: &str, expires_unix: u64) -> PairingCode {
    PairingCode { code: text.to_owned(), expires_unix }
}

fn client(uuid: u128, name: &str) -> Client {
    Client {
        uuid,
        token_sha256: token_hash("secret"),
        name: name.to_owned(),
        created: 5,
        last_seen: 1_234_567,
    }
}

#[test]
fn pairing_codes_are_one_time_and_case_insensitive() {
    let mut registry = Registry::default();
    let code = registry.create_pairing_code(1_000);

    assert_eq!(code.len(), 8);
    assert!(registry.consume_pairing_code(&code.to_ascii_lowercase(), 1_001));
    assert!(!registry.consume_pairing_code(&code, 1_002));
}

#[test]
fn expired_pairing_codes_cannot_be_consumed() {
    let mut registry = Registry::default();
    let code = registry.create_pairing_code(1_000);

    assert!(!registry.consume_pairing_code(&code, 1_600));
    assert!(registry.codes.is_empty());
}

#[test]
fn client_tokens_are_stored_as_hashes_and_can_be_revoked() {
    let mut registry = Registry::default();
    let (uuid, token) = registry.add_client("laptop".to_owned(), 1_000);
    let client = registry.clients.first().expect("client was added");

    assert_ne!(client.token_sha256, token);
    assert_eq!(client.token_sha256, token_hash(&token));
    assert!(registry.revoke(uuid));
    assert!(!registry.revoke(uuid));
}

#[test]
fn a_new_registry_is_empty() {
    let registry = Registry::default();
    assert!(registry.clients.is_empty());
    assert!(registry.codes.is_empty());
}

#[test]
fn codes_have_their_shape_and_their_lifetime() {
    let mut registry = Registry::default();
    for round in 0..50 {
        let made = registry.create_pairing_code(2_000);
        assert_eq!(made.chars().count(), CODE_LENGTH);
        assert!(made.chars().all(|c| c.is_ascii_uppercase() || c.is_ascii_digit()), "{made}");
        assert_eq!(registry.codes.len(), round + 1);
        assert_eq!(registry.codes[round].code, made);
        assert_eq!(registry.codes[round].expires_unix, 2_600);
    }
    assert_eq!(CODE_LIFETIME_SECS, 600);
    for i in 0..registry.codes.len() {
        for j in 0..i {
            assert_ne!(registry.codes[i].code, registry.codes[j].code);
        }
    }
}

#[test]
fn drawn_codes_differ() {
    let mut first = Registry::default();
    let mut second = Registry::default();
    let a = first.create_pairing_code(0);
    let b = second.create_pairing_code(0);
    assert_ne!(a, b);
}

#[test]
fn codes_last_until_ten_minutes_are_over() {
    let mut registry = Registry::default();
    let made = registry.create_pairing_code(1_000);
    assert!(registry.consume_pairing_code(&made, 1_599));
}

#[test]
fn codes_may_have_white_space_around_them() {
    let mut registry = Registry { clients: Vec::new(), codes: vec![code("AB12CD34", 100)] };
    assert!(!registry.consume_pairing_code("AB12 CD34", 50));
    assert!(registry.consume_pairing_code(" \tab12cd34\n", 50));
    assert!(registry.codes.is_empty());
}

#[test]
fn purging_keeps_live_codes_in_order() {
    let mut registry = Registry {
        clients: vec![client(1, "a")],
        codes: vec![code("A", 10), code("B", 11), code("C", 9), code("D", 12)],
    };
    registry.purge_expired_codes(10);
    assert_eq!(registry.codes, vec![code("B", 11), code("D", 12)]);
    assert_eq!(registry.clients, vec![client(1, "a")]);
}

#[test]
fn a_used_code_leaves_its_place_to_the_last_one() {
    let mut registry = Registry {
        clients: Vec::new(),
        codes: vec![code("A", 10), code("B", 10), code("C", 10), code("D", 10)],
    };
    assert!(registry.consume_pairing_code("b", 1));
    assert_eq!(registry.codes, vec![code("A", 10), code("D", 10), code("C", 10)]);
}

#[test]
fn an_unknown_code_still_drops_expired_ones() {
    let mut registry = Registry { clients: Vec::new(), codes: vec![code("A", 10), code("B", 20)] };
    assert!(!registry.consume_pairing_code("X", 10));
    assert_eq!(registry.codes, vec![code("B", 20)]);
}

#[test]
fn offered_codes_are_taken_once() {
    let mut registry = Registry::default();
    assert!(registry.offer_code("ABCDEFGH".to_owned(), 7));
    assert!(!registry.offer_code("ABCDEFGH".to_owned(), 8));
    assert_eq!(registry.codes, vec![code("ABCDEFGH", 607)]);
}

#[test]
fn the_first_free_code_counts_up() {
    let mut registry = Registry::default();
    assert_eq!(registry.first_free_code(), "00000000");
    registry.codes.push(code("00000000", 1));
    registry.codes.push(code("00000001", 1));
    registry.codes.push(code("00000003", 1));
    assert_eq!(registry.first_free_code(), "00000002");
    for c in "2456789ABCDEFGHIJKLMNOPQRSTUVWXYZ".chars() {
        registry.codes.push(code(&format!("0000000{c}"), 1));
    }
    assert_eq!(registry.first_free_code(), "00000010");
}

#[test]
fn enrolling_keeps_the_hash_only() {
    let mut registry = Registry::default();
    registry.enroll(42, "abc", "box".to_owned(), 9);
    let added = &registry.clients[0];
    assert_eq!(added.uuid, 42);
    assert_eq!(added.name, "box");
    assert_eq!(
        added.token_sha256,
        "ba7816bf8f01cfea414140de5dae2223b00361a396177a9cb410ff61f20015ad"
    );
    assert_eq!((added.created, added.last_seen), (9, 9));
}

#[test]
fn added_clients_have_random_identifiers_and_tokens() {
    let mut registry = Registry::default();
    let (uuid, token) = registry.add_client("a".to_owned(), 1);
    let (other_uuid, other_token) = registry.add_client("b".to_owned(), 1);
    assert_ne!(uuid, other_uuid);
    assert_ne!(token, other_token);
    assert_eq!(token.len(), 64);
    assert!(token.chars().all(|c| c.is_ascii_digit() || ('a'..='f').contains(&c)));
    assert_eq!(uuid::Uuid::from_u128(uuid).get_version_num(), 4);
}

#[test]
fn revoking_leaves_the_others() {
    let mut registry = Registry {
        clients: vec![client(1, "a"), client(2, "b"), client(1, "c"), client(3, "d")],
        codes: vec![code("A", 1)],
    };
    assert!(registry.revoke(1));
    assert_eq!(registry.clients, vec![client(2, "b"), client(3, "d")]);
    assert_eq!(registry.codes, vec![code("A", 1)]);
    assert!(!registry.revoke(1));
    assert_eq!(registry.clients.len(), 2);
}

#[test]
fn clients_are_listed_line_by_line() {
    let empty = Registry::default();
    assert_eq!(list_clients(&empty), vec!["No paired clients.".to_owned()]);
    let registry = Registry {
        clients: vec![client(0x0123_4567_89ab_cdef_0123_4567_89ab_cdef, "my box"), client(1, "b")],
        codes: Vec::new(),
    };
    assert_eq!(
        list_clients(&registry),
        vec![
            "UUID\tNAME\tCREATED\tLAST_SEEN".to_owned(),
            "01234567-89ab-cdef-0123-456789abcdef\tmy box\t5\t1234567".to_owned(),
            "00000000-0000-0000-0000-000000000001\tb\t5\t1234567".to_owned(),
        ]
    );
}

#[test]
fn revocation_is_reported() {
    let mut registry = Registry { clients: vec![client(1, "a")], codes: Vec::new() };
    assert_eq!(
        revoke_client(&mut registry, 2),
        Err("client 00000000-0000-0000-0000-000000000002 not found".to_owned())
    );
    assert_eq!(registry.clients.len(), 1);
    assert_eq!(
        revoke_client(&mut registry, 1),
        Ok("Revoked 00000000-0000-0000-0000-000000000001".to_owned())
    );
    assert!(registry.clients.is_empty());
}

#[test]
fn the_self_test_passes() {
    assert_eq!(self_test(), Ok(()));
}

#[test]
fn a_code_that_is_not_accepted_fails_the_round_trip() {
    let mut registry = Registry::default();
    assert_eq!(check_code(&mut registry, "ABCDEFGH", 1_000), Err(SelfTestError::CodeRoundTrip));
    assert_eq!(SelfTestError::CodeRoundTrip.message(), "pairing-code round trip failed");
}

#[test]
fn a_code_that_is_there_twice_is_reusable() {
    let mut registry =
        Registry { clients: Vec::new(), codes: vec![code("AAAA", 2_000), code("AAAA", 2_000)] };
    assert_eq!(check_code(&mut registry, "AAAA", 1_000), Err(SelfTestError::CodeReusable));
    assert_eq!(SelfTestError::CodeReusable.message(), "pairing code was reusable");
}

#[test]
fn clients_are_checked_against_their_credentials() {
    let mut registry = Registry::default();
    assert_eq!(check_client(&mut registry, 1, "secret"), Err(SelfTestError::ClientMissing));
    registry.clients.push(client(1, "a"));
    assert_eq!(check_client(&mut registry, 2, "secret"), Err(SelfTestError::Credential));
    assert_eq!(check_client(&mut registry, 1, "other"), Err(SelfTestError::Credential));
    registry.clients.push(client(2, "b"));
    assert_eq!(check_client(&mut registry, 1, "secret"), Err(SelfTestError::Revocation));
    registry.clients.clear();
    registry.clients.push(client(1, "a"));
    assert_eq!(check_client(&mut registry, 1, "secret"), Ok(()));
    assert!(registry.clients.is_empty());
    assert_eq!(SelfTestError::ClientMissing.message(), "self-test client was not created");
    assert_eq!(SelfTestError::Credential.message(), "client credential validation failed");
    assert_eq!(SelfTestError::Revocation.message(), "client revocation failed");
}

#[test]
fn the_clock_shows_the_present() {
    let first = unix_time();
    let second = unix_time();
    assert!(first > 1_700_000_000);
    assert!(second >= first);
    assert_eq!(seconds_or_zero(None), 0);
    assert_eq!(seconds_or_zero(Some(12)), 12);
}

#[test]
fn a_drawn_code_and_token_pass_the_checks() {
    let mut registry = Registry::default();
    assert!(registry.offer_code("A1B2C3D4".to_owned(), 1_000));
    assert_eq!(check_code(&mut registry, "A1B2C3D4", 1_000), Ok(()));
    let token = "00".repeat(32);
    registry.enroll(7, &token, "self-test".to_owned(), 1_000);
    assert_eq!(check_client(&mut registry, 7, &token), Ok(()));
    assert_eq!(registry, Registry::default());
}

#[test]
fn purging_again_changes_nothing() {
    let mut registry = Registry {
        clients: Vec::new(),
        codes: vec![code("A", 10), code("B", 11), code("C", 30)],
    };
    registry.purge_expired_codes(10);
    let once = registry.clone();
    for again in [10, 9, 0] {
        registry.purge_expired_codes(again);
        assert_eq!(registry, once);
    }
}

#[test]
fn a_code_is_single_use_whatever_else_is_there() {
    let mut registry = Registry {
        clients: Vec::new(),
        codes: vec![code("A", 5), code("B", 50), code("A", 50), code("B", 50)],
    };
    assert!(registry.consume_pairing_code("a", 10));
    assert!(!registry.consume_pairing_code("A", 10));
    assert!(!registry.consume_pairing_code("A", 1));
}
