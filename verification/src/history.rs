//! Registries over time. Every change of the registry is made under its lock, on the copy that was
//! read under the lock, so that whatever happens at once amounts to a series of changes.

use vstd::prelude::*;

use crate::auth;
use crate::auth::{AuthActionView, AuthPhase};
use crate::laws;
use crate::registry;
use crate::registry::{ClientView, CodeView, RegistryView};

verus! {

/// A change of the registry.
pub enum Change {
    /// A code is handed out.
    Issue { code: Seq<char>, now: u64 },
    /// A text is presented as a code.
    Present { text: Seq<char>, now: u64 },
    /// A client is added.
    Enroll { uuid: u128, token: Seq<char>, name: Seq<char>, now: u64 },
    /// A client is revoked.
    Revoke { uuid: u128 },
    /// Credentials are looked up, and the visit of their client may be written down.
    Visit { uuid: u128, token_hash: Seq<char>, now: u64 },
}

/// The registry after a change.
pub open spec fn changed(r: RegistryView, change: Change) -> RegistryView {
    match change {
        Change::Issue { code, now } => registry::issued(r, code, now),
        Change::Present { text, now } => registry::consumed(r, text, now),
        Change::Enroll { uuid, token, name, now } => registry::enrolled(r, uuid, token, name, now),
        Change::Revoke { uuid } => registry::revoked(r, uuid),
        Change::Visit { uuid, token_hash, now } => match auth::auth_action(
            AuthPhase::Updating,
            r,
            uuid,
            token_hash,
            now,
        ) {
            AuthActionView::Save { client, registry } => registry,
            _ => r,
        },
    }
}

/// The registry after a series of changes.
pub open spec fn replayed(r: RegistryView, changes: Seq<Change>) -> RegistryView
    decreases changes.len(),
{
    if changes.len() == 0 {
        r
    } else {
        changed(replayed(r, changes.drop_last()), changes.last())
    }
}

/// Whether a change hands out a code only where it is not in use.
pub open spec fn is_fresh(r: RegistryView, change: Change) -> bool {
    change matches Change::Issue { code, now } ==> !registry::has_code(
        registry::live(r.codes, now),
        code,
    )
}

/// Whether every code of a series is handed out only where it is not in use.
pub open spec fn all_fresh(r: RegistryView, changes: Seq<Change>) -> bool
    decreases changes.len(),
{
    changes.len() > 0 ==> all_fresh(r, changes.drop_last()) && is_fresh(
        replayed(r, changes.drop_last()),
        changes.last(),
    )
}

/// Codes are distinct at all times.
pub proof fn law_codes_stay_distinct(r: RegistryView, changes: Seq<Change>)
    requires
        laws::distinct(r.codes),
        all_fresh(r, changes),
    ensures
        laws::distinct(replayed(r, changes).codes),
    decreases changes.len(),
{
    if changes.len() > 0 {
        let before = replayed(r, changes.drop_last());
        law_codes_stay_distinct(r, changes.drop_last());
        match changes.last() {
            Change::Issue { code, now } => {
                laws::law_issue_keeps_codes_distinct(before, code, now);
            },
            Change::Present { text, now } => {
                laws::law_consume_keeps_codes_distinct(before, text, now);
            },
            Change::Visit { uuid, token_hash, now } => {
                laws::law_authentication_keeps_the_registry(
                    AuthPhase::Updating,
                    before,
                    uuid,
                    token_hash,
                    now,
                );
            },
            _ => {},
        }
    }
}

/// Whether no change of a series adds a client with a given identifier.
pub open spec fn never_enrolls(changes: Seq<Change>, uuid: u128) -> bool {
    forall|k: int|
        0 <= k < changes.len() ==> ((#[trigger] changes[k]) matches Change::Enroll {
            uuid: added,
            token,
            name,
            now,
        } ==> added != uuid)
}

proof fn lemma_stays_unpaired(r: RegistryView, changes: Seq<Change>, uuid: u128)
    requires
        !registry::is_paired(r.clients, uuid),
        never_enrolls(changes, uuid),
    ensures
        !registry::is_paired(replayed(r, changes).clients, uuid),
    decreases changes.len(),
{
    if changes.len() > 0 {
        let shorter = changes.drop_last();
        assert(never_enrolls(shorter, uuid)) by {
            assert forall|k: int| 0 <= k < shorter.len() implies ((
            #[trigger] shorter[k]) matches Change::Enroll { uuid: added, token, name, now } ==> added
                != uuid) by {
                assert(shorter[k] == changes[k]);
            }
        }
        lemma_stays_unpaired(r, shorter, uuid);
        let before = replayed(r, shorter);
        let after = replayed(r, changes);
        assert(changes.last() == changes[changes.len() - 1]);
        assert forall|k: int| 0 <= k < after.clients.len() implies (
        #[trigger] after.clients[k]).uuid != uuid by {
            match changes.last() {
                Change::Enroll { uuid: added, token, name, now } => {
                    if k < before.clients.len() {
                        assert(after.clients[k] == before.clients[k]);
                    }
                },
                Change::Revoke { uuid: gone } => {
                    let keep = |c: ClientView| c.uuid != gone;
                    assert(after.clients.contains(after.clients[k]));
                    before.clients.lemma_filter_contains_rev(keep, after.clients[k]);
                },
                Change::Visit { uuid: id, token_hash, now } => {
                    laws::law_authentication_keeps_the_registry(
                        AuthPhase::Updating,
                        before,
                        id,
                        token_hash,
                        now,
                    );
                    assert(after.clients[k].uuid == before.clients[k].uuid);
                },
                _ => {
                    assert(after.clients[k] == before.clients[k]);
                },
            }
        }
    }
}

/// A revoked client stays revoked: whatever visits, codes and other clients come at the same time
/// or later, nobody answers to its identifier again, unless it is added anew.
pub proof fn law_revoked_clients_stay_unknown(
    r: RegistryView,
    uuid: u128,
    changes: Seq<Change>,
    token_hash: Seq<char>,
)
    requires
        never_enrolls(changes, uuid),
    ensures
        ({
            let later = replayed(registry::revoked(r, uuid), changes);
            &&& !registry::is_paired(later.clients, uuid)
            &&& registry::known_as(later, uuid, token_hash) is None
        }),
{
    laws::law_revoked_clients_are_unknown(r, uuid, token_hash);
    let start = registry::revoked(r, uuid);
    lemma_stays_unpaired(start, changes, uuid);
    registry::lemma_client_index(replayed(start, changes).clients, uuid, token_hash);
}

/// Whether no change of a series hands out a given code.
pub open spec fn never_issues(changes: Seq<Change>, code: Seq<char>) -> bool {
    forall|k: int|
        0 <= k < changes.len() ==> ((#[trigger] changes[k]) matches Change::Issue {
            code: other,
            now,
        } ==> other != code)
}

proof fn lemma_live_lacks(codes: Seq<CodeView>, now: u64, code: Seq<char>)
    requires
        !registry::has_code(codes, code),
    ensures
        !registry::has_code(registry::live(codes, now), code),
{
    let keep = |c: CodeView| c.expires_unix > now;
    let kept = registry::live(codes, now);
    assert forall|k: int| 0 <= k < kept.len() implies #[trigger] kept[k].code != code by {
        assert(kept.contains(kept[k]));
        codes.lemma_filter_contains_rev(keep, kept[k]);
    }
}

proof fn lemma_stays_unissued(r: RegistryView, changes: Seq<Change>, code: Seq<char>)
    requires
        !registry::has_code(r.codes, code),
        never_issues(changes, code),
    ensures
        !registry::has_code(replayed(r, changes).codes, code),
    decreases changes.len(),
{
    if changes.len() > 0 {
        let shorter = changes.drop_last();
        assert(never_issues(shorter, code)) by {
            assert forall|k: int| 0 <= k < shorter.len() implies ((
            #[trigger] shorter[k]) matches Change::Issue { code: other, now } ==> other != code) by {
                assert(shorter[k] == changes[k]);
            }
        }
        lemma_stays_unissued(r, shorter, code);
        let before = replayed(r, shorter);
        let after = replayed(r, changes);
        assert(changes.last() == changes[changes.len() - 1]);
        match changes.last() {
            Change::Issue { code: other, now } => {
                lemma_live_lacks(before.codes, now, code);
                let kept = registry::live(before.codes, now);
                assert forall|k: int| 0 <= k < after.codes.len() implies #[trigger] after.codes[k].code
                    != code by {
                    if k < kept.len() {
                        assert(after.codes[k] == kept[k]);
                    }
                }
            },
            Change::Present { text, now } => {
                lemma_live_lacks(before.codes, now, code);
                let kept = registry::live(before.codes, now);
                let other = registry::normalized(text);
                registry::lemma_code_index(kept, other);
                let at = registry::code_index(kept, other);
                assert forall|k: int| 0 <= k < after.codes.len() implies #[trigger] after.codes[k].code
                    != code by {
                    if registry::has_code(kept, other) && k == at {
                        assert(after.codes[k] == kept[kept.len() - 1]);
                    } else {
                        assert(after.codes[k] == kept[k]);
                    }
                }
            },
            Change::Visit { uuid, token_hash, now } => {
                laws::law_authentication_keeps_the_registry(
                    AuthPhase::Updating,
                    before,
                    uuid,
                    token_hash,
                    now,
                );
            },
            _ => {},
        }
    }
}

/// A used code stays used: whatever happens at the same time or later, it is not accepted again, in
/// whatever case or with whatever space around it, unless the same code is handed out anew.
pub proof fn law_used_codes_stay_used(
    r: RegistryView,
    text: Seq<char>,
    now: u64,
    changes: Seq<Change>,
    again: Seq<char>,
    later: u64,
)
    requires
        laws::at_most_once(registry::live(r.codes, now), registry::normalized(text)),
        registry::accepts_code(r, text, now),
        registry::normalized(again) == registry::normalized(text),
        never_issues(changes, registry::normalized(text)),
    ensures
        !registry::accepts_code(replayed(registry::consumed(r, text, now), changes), again, later),
{
    let code = registry::normalized(text);
    let start = registry::consumed(r, text, now);
    laws::lemma_consumed_lacks(r, text, now);
    lemma_stays_unissued(start, changes, code);
    lemma_live_lacks(replayed(start, changes).codes, later, code);
}

} // verus!
