//! Checks that need no network and no files.

use vstd::prelude::*;

use crate::laws;
use crate::registry;
use crate::registry::Registry;
use crate::{text, token};

verus! {

/// What a failed self-test found.
#[derive(Clone, Copy, Debug, PartialEq, Eq, Structural)]
pub enum SelfTestError {
    CodeRoundTrip,
    CodeReusable,
    ClientMissing,
    Credential,
    Revocation,
}

impl SelfTestError {
    /// The failure in words.
    pub fn message(&self) -> (r: &'static str)
        ensures
            r@ == match self {
                SelfTestError::CodeRoundTrip => "pairing-code round trip failed"@,
                SelfTestError::CodeReusable => "pairing code was reusable"@,
                SelfTestError::ClientMissing => "self-test client was not created"@,
                SelfTestError::Credential => "client credential validation failed"@,
                SelfTestError::Revocation => "client revocation failed"@,
            },
    {
        match self {
            SelfTestError::CodeRoundTrip => "pairing-code round trip failed",
            SelfTestError::CodeReusable => "pairing code was reusable",
            SelfTestError::ClientMissing => "self-test client was not created",
            SelfTestError::Credential => "client credential validation failed",
            SelfTestError::Revocation => "client revocation failed",
        }
    }
}

/// What becomes of a code that was handed out at a given time: it is used in lower case, then again
/// as it is.
pub open spec fn code_verdict(r: registry::RegistryView, code: Seq<char>, now: u64) -> Option<
    SelfTestError,
> {
    let first = text::lower(code);
    if !registry::accepts_code(r, first, (now + 1) as u64) {
        Some(SelfTestError::CodeRoundTrip)
    } else if registry::accepts_code(
        registry::consumed(r, first, (now + 1) as u64),
        code,
        (now + 2) as u64,
    ) {
        Some(SelfTestError::CodeReusable)
    } else {
        None
    }
}

/// Whether the first client of a registry has an identifier and the hash of a token, and is the
/// only one that goes where the identifier is revoked.
pub open spec fn client_verdict(r: registry::RegistryView, uuid: u128, token: Seq<char>) -> Option<
    SelfTestError,
> {
    if r.clients.len() == 0 {
        Some(SelfTestError::ClientMissing)
    } else if r.clients[0].uuid != uuid || r.clients[0].token_sha256 != token::hashed(token)
        || r.clients[0].token_sha256 == token {
        Some(SelfTestError::Credential)
    } else if registry::revoked(r, uuid).clients.len() > 0 {
        Some(SelfTestError::Revocation)
    } else {
        None
    }
}

pub open spec fn verdict_of(r: Result<(), SelfTestError>) -> Option<SelfTestError> {
    match r {
        Ok(_) => None,
        Err(error) => Some(error),
    }
}

/// Checks that a code which was handed out at a given time can be used once, whatever its case.
pub fn check_code(registry: &mut Registry, code: &str, now: u64) -> (r: Result<(), SelfTestError>)
    requires
        now + 2 <= u64::MAX,
    ensures
        verdict_of(r) == code_verdict(old(registry)@, code@, now),
        r is Ok ==> final(registry)@ == registry::consumed(
            registry::consumed(old(registry)@, text::lower(code@), (now + 1) as u64),
            code@,
            (now + 2) as u64,
        ),
{
    let lowered = text::to_lower(code);
    if !registry.consume_pairing_code(lowered.as_str(), now + 1) {
        return Err(SelfTestError::CodeRoundTrip);
    }
    if registry.consume_pairing_code(code, now + 2) {
        return Err(SelfTestError::CodeReusable);
    }
    Ok(())
}

/// Checks that the first client of a registry has an identifier and keeps the hash of a token only,
/// and that no client is left once the identifier is revoked.
pub fn check_client(registry: &mut Registry, uuid: u128, token: &str) -> (r: Result<
    (),
    SelfTestError,
>)
    ensures
        verdict_of(r) == client_verdict(old(registry)@, uuid, token@),
        r is Ok ==> final(registry)@ == registry::revoked(old(registry)@, uuid),
{
    let ghost full = registry@;
    if registry.clients.len() == 0 {
        return Err(SelfTestError::ClientMissing);
    }
    let hash = token::token_hash(token);
    assert(registry@.clients[0] == registry.clients@[0]@);
    if registry.clients[0].uuid != uuid || registry.clients[0].token_sha256 != hash
        || text::same_text(registry.clients[0].token_sha256.as_str(), token) {
        return Err(SelfTestError::Credential);
    }
    assert(full.clients[0].uuid == uuid);
    if !registry.revoke(uuid) || registry.clients.len() != 0 {
        return Err(SelfTestError::Revocation);
    }
    Ok(())
}

/// The registry in which a code was handed out, and nothing else happened.
pub open spec fn with_code(code: Seq<char>, now: u64) -> registry::RegistryView {
    registry::issued(
        registry::RegistryView { clients: Seq::empty(), codes: Seq::empty() },
        code,
        now,
    )
}

/// The registry in which a code was handed out, used in lower case and presented again, and a client
/// was then added.
pub open spec fn with_client(code: Seq<char>, uuid: u128, token: Seq<char>, now: u64) -> registry::RegistryView {
    let used = registry::consumed(with_code(code, now), text::lower(code), (now + 1) as u64);
    registry::enrolled(
        registry::consumed(used, code, (now + 2) as u64),
        uuid,
        token,
        "self-test"@,
        now,
    )
}

/// What the checks find on a code, an identifier and a token: the first thing that is wrong.
pub open spec fn self_test_verdict(code: Seq<char>, uuid: u128, token: Seq<char>, now: u64) -> Option<
    SelfTestError,
> {
    match code_verdict(with_code(code, now), code, now) {
        Some(error) => Some(error),
        None => client_verdict(with_client(code, uuid, token, now), uuid, token),
    }
}

/// Whether a code, an identifier and a token can be drawn.
pub open spec fn can_be_drawn(code: Seq<char>, uuid: u128, token: Seq<char>) -> bool {
    registry::is_code(code) && token::is_random_uuid(uuid) && token::is_secret(token)
}

/// A code that was handed out passes its check.
proof fn lemma_drawn_codes_pass(code: Seq<char>, now: u64)
    requires
        registry::is_code(code),
        now + registry::CODE_LIFETIME_SECS <= u64::MAX,
    ensures
        code_verdict(with_code(code, now), code, now) is None,
{
    let start = registry::RegistryView { clients: Seq::empty(), codes: Seq::empty() };
    let lowered = text::lower(code);
    reveal(Seq::filter);
    assert(registry::live(start.codes, now).len() == 0);
    laws::law_issued_codes_are_normal(code);
    laws::law_codes_ignore_case(code);
    laws::law_codes_last_ten_minutes(start, code, now, lowered, (now + 1) as u64);
    laws::law_issue_keeps_codes_distinct(start, code, now);
    laws::lemma_distinct_codes_stand_once(with_code(code, now), (now + 1) as u64, code);
    laws::law_codes_are_single_use(
        with_code(code, now),
        lowered,
        (now + 1) as u64,
        code,
        (now + 2) as u64,
    );
}

/// On whatever is drawn the checks find nothing wrong, unless the token is its own hash.
pub proof fn law_only_the_token_can_fail(code: Seq<char>, uuid: u128, token: Seq<char>, now: u64)
    requires
        can_be_drawn(code, uuid, token),
        now + registry::CODE_LIFETIME_SECS <= u64::MAX,
    ensures
        self_test_verdict(code, uuid, token, now) == (if token::hashed(token) == token {
            Some(SelfTestError::Credential)
        } else {
            None
        }),
{
    lemma_drawn_codes_pass(code, now);
    let full = with_client(code, uuid, token, now);
    assert(full.clients.len() == 1);
    let left = registry::revoked(full, uuid).clients;
    if left.len() > 0 {
        let keep = |c: registry::ClientView| c.uuid != uuid;
        assert(left.contains(left[0]));
        full.clients.lemma_filter_contains_rev(keep, left[0]);
        full.clients.lemma_filter_pred(keep, 0);
    }
}

/// Pairs, checks and revokes a client in a registry of its own. The result is what the checks find
/// on the code, the identifier and the token that were drawn, and so a failure only where the token
/// is its own hash.
pub fn self_test() -> (r: Result<(), SelfTestError>)
    ensures
        exists|code: Seq<char>, uuid: u128, token: Seq<char>|
            #[trigger] can_be_drawn(code, uuid, token) && verdict_of(r) == self_test_verdict(
                code,
                uuid,
                token,
                1_000,
            ) && (r is Err <==> token::hashed(token) == token),
        r matches Err(e) ==> e == SelfTestError::Credential,
{
    let now: u64 = 1_000;
    let mut registry = Registry::default();
    let code = registry.create_pairing_code(now);
    proof {
        assert(registry@ == with_code(code@, now));
        lemma_drawn_codes_pass(code@, now);
    }
    match check_code(&mut registry, code.as_str(), now) {
        Ok(()) => {},
        Err(error) => {
            return Err(error);
        },
    }
    let (uuid, token) = registry.add_client("self-test".to_owned(), now);
    proof {
        law_only_the_token_can_fail(code@, uuid, token@, now);
        assert(can_be_drawn(code@, uuid, token@));
    }
    check_client(&mut registry, uuid, token.as_str())
}

/// The checks find what is wrong, and the first thing that is: a code that is not accepted in lower
/// case, a code that is accepted again, no client, a client with another identifier or hash or with
/// the token itself in the place of its hash, and a client that is left after revocation.
pub proof fn law_verdicts_are_exact(
    r: registry::RegistryView,
    code: Seq<char>,
    now: u64,
    uuid: u128,
    token: Seq<char>,
)
    requires
        now + 2 <= u64::MAX,
    ensures
        !registry::accepts_code(r, text::lower(code), (now + 1) as u64) ==> code_verdict(r, code, now)
            == Some(SelfTestError::CodeRoundTrip),
        registry::accepts_code(r, text::lower(code), (now + 1) as u64) ==> {
            let used = registry::consumed(r, text::lower(code), (now + 1) as u64);
            &&& registry::accepts_code(used, code, (now + 2) as u64) ==> code_verdict(r, code, now)
                == Some(SelfTestError::CodeReusable)
            &&& !registry::accepts_code(used, code, (now + 2) as u64) ==> code_verdict(r, code, now) is None
        },
        r.clients.len() == 0 ==> client_verdict(r, uuid, token) == Some(SelfTestError::ClientMissing),
        r.clients.len() > 0 ==> {
            let good = r.clients[0].uuid == uuid && r.clients[0].token_sha256 == token::hashed(token)
                && r.clients[0].token_sha256 != token;
            let alone = forall|k: int|
                0 <= k < r.clients.len() ==> (#[trigger] r.clients[k]).uuid == uuid;
            &&& !good ==> client_verdict(r, uuid, token) == Some(SelfTestError::Credential)
            &&& good && !alone ==> client_verdict(r, uuid, token) == Some(SelfTestError::Revocation)
            &&& good && alone ==> client_verdict(r, uuid, token) is None
        },
{
    let keep = |c: registry::ClientView| c.uuid != uuid;
    let left = registry::revoked(r, uuid).clients;
    if left.len() > 0 {
        assert(left.contains(left[0]));
        r.clients.lemma_filter_contains_rev(keep, left[0]);
        r.clients.lemma_filter_pred(keep, 0);
        let k = choose|k: int| 0 <= k < r.clients.len() && r.clients[k] == left[0];
        assert(r.clients[k].uuid != uuid);
    }
    if !(forall|k: int| 0 <= k < r.clients.len() ==> (#[trigger] r.clients[k]).uuid == uuid) {
        let k = choose|k: int| 0 <= k < r.clients.len() && (#[trigger] r.clients[k]).uuid != uuid;
        r.clients.lemma_filter_contains(keep, k);
    }
}

} // verus!
