use omp_relayd::address::IpAddress;
use omp_relayd::pairing::{
    check_pair_request, client_name, pair, PairAttempts, MAX_NAME_BYTES, MAX_PAIR_ATTEMPTS,
};
use omp_relayd::registry::Registry;
use omp_relayd::reply::{Reply, ReplyBody};
use omp_relayd::token::{parse_credentials, token_hash};

fn refusal(status: u16, error: &str) -> Reply {
    Reply {
        status,
        proxy_authenticate: None,
        body: ReplyBody::Error { error: error.to_owned(), detail: None },
    }
}

#[test]
fn pairing_attempts_are_limited_in_each_minute() {
    let mut attempts = PairAttempts::new();
    let ip = IpAddress::V4(0x0a00_0001);
    for _ in 0..MAX_PAIR_ATTEMPTS {
        assert!(attempts.allow_pair_attempt(ip, 120));
    }
    assert!(!attempts.allow_pair_attempt(ip, 120));
    assert!(!attempts.allow_pair_attempt(ip, 179));
    assert!(attempts.allow_pair_attempt(ip, 180));
    assert_eq!(MAX_PAIR_ATTEMPTS, 10);
}

#[test]
fn addresses_have_attempts_of_their_own() {
    let mut attempts = PairAttempts::new();
    for _ in 0..11 {
        attempts.allow_pair_attempt(IpAddress::V4(1), 0);
        attempts.allow_pair_attempt(IpAddress::V6(7), 0);
    }
    assert!(!attempts.allow_pair_attempt(IpAddress::V4(1), 0));
    assert!(!attempts.allow_pair_attempt(IpAddress::V6(7), 0));
    assert!(attempts.allow_pair_attempt(IpAddress::V4(2), 0));
    assert!(attempts.allow_pair_attempt(IpAddress::V6(1), 0));
}

#[test]
fn names_are_trimmed_and_bounded() {
    assert_eq!(client_name("  my box\n"), Some("my box".to_owned()));
    assert_eq!(client_name(" \t"), None);
    assert_eq!(client_name(""), None);
    let longest = "n".repeat(MAX_NAME_BYTES);
    assert_eq!(client_name(&longest), Some(longest.clone()));
    assert_eq!(client_name(&format!("{longest}n")), None);
    assert_eq!(client_name(&"é".repeat(64)), Some("é".repeat(64)));
    assert_eq!(client_name(&"é".repeat(65)), None);
}

#[test]
fn pairing_requests_are_checked_before_the_registry_is_read() {
    assert_eq!(check_pair_request(true, " atv "), Ok("atv".to_owned()));
    assert_eq!(check_pair_request(false, " atv "), Err(refusal(429, "rate_limited")));
    assert_eq!(check_pair_request(false, ""), Err(refusal(429, "rate_limited")));
    assert_eq!(check_pair_request(true, ""), Err(refusal(400, "invalid_name")));
}

#[test]
fn a_valid_code_buys_credentials() {
    let mut registry = Registry::default();
    let code = registry.create_pairing_code(1_000);
    let response = pair(&mut registry, &code, "atv".to_owned(), 1_010).expect("the code is valid");
    assert!(registry.codes.is_empty());
    assert_eq!(registry.clients.len(), 1);
    let client = &registry.clients[0];
    assert_eq!(client.name, "atv");
    assert_eq!((client.created, client.last_seen), (1_010, 1_010));
    assert_eq!(client.token_sha256, token_hash(&response.token));
    let credentials = parse_credentials(&format!("{}:{}", response.uuid, response.token))
        .expect("the response holds credentials");
    assert_eq!(credentials.uuid, client.uuid);
    assert_eq!(credentials.token_hash, client.token_sha256);
}

#[test]
fn an_invalid_or_expired_code_buys_nothing() {
    let mut registry = Registry::default();
    let code = registry.create_pairing_code(1_000);
    let refused = refusal(403, "invalid_or_expired_code");
    assert_eq!(pair(&mut registry, "nothing", "atv".to_owned(), 1_010), Err(refused.clone()));
    assert_eq!(registry.codes.len(), 1);
    assert_eq!(pair(&mut registry, &code, "atv".to_owned(), 1_600), Err(refused));
    assert!(registry.clients.is_empty());
}

#[test]
fn the_first_attempts_are_allowed_whatever_comes_between() {
    let mut attempts = PairAttempts::new();
    let ip = IpAddress::V6(9);
    for n in 0..u64::from(MAX_PAIR_ATTEMPTS) {
        assert!(attempts.allow_pair_attempt(ip, 600 + n));
        for _ in 0..3 {
            attempts.allow_pair_attempt(IpAddress::V6(10), 600 + n);
        }
    }
    assert!(!attempts.allow_pair_attempt(ip, 659));
}
