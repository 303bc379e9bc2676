//! What the registry keeps across operations: codes are single-use and expire, clients stay known
//! until they are revoked, and authentication changes nothing but the time of the last visit.

use vstd::prelude::*;

use crate::auth;
use crate::auth::{AuthActionView, AuthPhase};
use crate::registry;
use crate::registry::{ClientView, CodeView, RegistryView, CODE_LIFETIME_SECS};
use crate::{hex, text, token};

verus! {

/// No two codes have the same text.
pub open spec fn distinct(codes: Seq<CodeView>) -> bool {
    forall|i: int, j: int|
        0 <= i < j < codes.len() ==> (#[trigger] codes[i]).code != (#[trigger] codes[j]).code
}

/// A code is among the live ones where it is among all and has not expired.
proof fn lemma_live_has(codes: Seq<CodeView>, now: u64, code: Seq<char>)
    ensures
        registry::has_code(registry::live(codes, now), code) <==> exists|k: int|
            0 <= k < codes.len() && (#[trigger] codes[k]).code == code && codes[k].expires_unix > now,
{
    let keep = |c: CodeView| c.expires_unix > now;
    let kept = codes.filter(keep);
    if registry::has_code(kept, code) {
        let k = choose|k: int| 0 <= k < kept.len() && #[trigger] kept[k].code == code;
        assert(kept.contains(kept[k]));
        codes.lemma_filter_contains_rev(keep, kept[k]);
        codes.lemma_filter_pred(keep, k);
        let j = choose|j: int| 0 <= j < codes.len() && codes[j] == kept[k];
        assert(codes[j].code == code && codes[j].expires_unix > now);
    }
    if exists|k: int|
        0 <= k < codes.len() && (#[trigger] codes[k]).code == code && codes[k].expires_unix > now {
        let k = choose|k: int|
            0 <= k < codes.len() && (#[trigger] codes[k]).code == code && codes[k].expires_unix > now;
        codes.lemma_filter_contains(keep, k);
        let j = choose|j: int| 0 <= j < kept.len() && kept[j] == codes[k];
        assert(kept[j].code == code);
    }
}

/// Dropping expired codes leaves the others distinct.
pub proof fn law_purge_keeps_codes_distinct(r: RegistryView, now: u64)
    requires
        distinct(r.codes),
    ensures
        distinct(registry::purged(r, now).codes),
    decreases r.codes.len(),
{
    reveal(Seq::filter);
    let keep = |c: CodeView| c.expires_unix > now;
    if r.codes.len() > 0 {
        let shorter = RegistryView { clients: r.clients, codes: r.codes.drop_last() };
        assert(distinct(shorter.codes)) by {
            assert forall|i: int, j: int| 0 <= i < j < shorter.codes.len() implies (
            #[trigger] shorter.codes[i]).code != (#[trigger] shorter.codes[j]).code by {
                assert(r.codes[i].code != r.codes[j].code);
            }
        }
        law_purge_keeps_codes_distinct(shorter, now);
        let kept = shorter.codes.filter(keep);
        let last = r.codes.last();
        if keep(last) {
            assert forall|i: int, j: int| 0 <= i < j < kept.push(last).len() implies (
            #[trigger] kept.push(last)[i]).code != (#[trigger] kept.push(last)[j]).code by {
                if j == kept.len() {
                    assert(kept.contains(kept[i]));
                    shorter.codes.lemma_filter_contains_rev(keep, kept[i]);
                    let k = choose|k: int| 0 <= k < shorter.codes.len() && shorter.codes[k] == kept[i];
                    assert(r.codes[k].code != r.codes[r.codes.len() - 1].code);
                } else {
                    assert(kept[i].code != kept[j].code);
                }
            }
        }
    }
}

/// Dropping expired codes again, at the same time or with a clock that went back, changes nothing.
pub proof fn law_purging_again_changes_nothing(r: RegistryView, now: u64, again: u64)
    requires
        again <= now,
    ensures
        registry::purged(registry::purged(r, now), again) == registry::purged(r, now),
    decreases r.codes.len(),
{
    reveal(Seq::filter);
    if r.codes.len() > 0 {
        let shorter = RegistryView { clients: r.clients, codes: r.codes.drop_last() };
        law_purging_again_changes_nothing(shorter, now, again);
        let kept = registry::live(shorter.codes, now);
        assert(kept.push(r.codes.last()).drop_last() =~= kept);
    }
}

/// Handing out a code that is not in use keeps the codes distinct.
pub proof fn law_issue_keeps_codes_distinct(r: RegistryView, code: Seq<char>, now: u64)
    requires
        distinct(r.codes),
        !registry::has_code(registry::live(r.codes, now), code),
    ensures
        distinct(registry::issued(r, code, now).codes),
{
    law_purge_keeps_codes_distinct(r, now);
    let kept = registry::live(r.codes, now);
    let all = registry::issued(r, code, now).codes;
    assert forall|i: int, j: int| 0 <= i < j < all.len() implies (#[trigger] all[i]).code != (
    #[trigger] all[j]).code by {
        assert(kept[i] == all[i]);
        if j < kept.len() {
            assert(kept[j] == all[j]);
        }
    }
}

/// Using up a code keeps the codes distinct.
pub proof fn law_consume_keeps_codes_distinct(r: RegistryView, text: Seq<char>, now: u64)
    requires
        distinct(r.codes),
    ensures
        distinct(registry::consumed(r, text, now).codes),
{
    law_purge_keeps_codes_distinct(r, now);
    let kept = registry::live(r.codes, now);
    registry::lemma_code_index(kept, registry::normalized(text));
    let rest = registry::consumed(r, text, now).codes;
    if registry::accepts_code(r, text, now) {
        let at = registry::code_index(kept, registry::normalized(text));
        assert forall|i: int, j: int| 0 <= i < j < rest.len() implies (#[trigger] rest[i]).code != (
        #[trigger] rest[j]).code by {
            let last = kept.len() - 1;
            assert(kept[if i == at { last } else { i }].code != kept[if j == at {
                last
            } else {
                j
            }].code);
        }
    }
}

/// A code stands at most once among some codes.
pub open spec fn at_most_once(codes: Seq<CodeView>, code: Seq<char>) -> bool {
    forall|i: int, j: int|
        0 <= i < j < codes.len() ==> (#[trigger] codes[i]).code != code || (
        #[trigger] codes[j]).code != code
}

/// Where codes are distinct, each stands at most once among the live ones.
pub(crate) proof fn lemma_distinct_codes_stand_once(r: RegistryView, now: u64, code: Seq<char>)
    requires
        distinct(r.codes),
    ensures
        at_most_once(registry::live(r.codes, now), code),
{
    law_purge_keeps_codes_distinct(r, now);
    let kept = registry::live(r.codes, now);
    assert forall|i: int, j: int| 0 <= i < j < kept.len() implies (#[trigger] kept[i]).code != code || (
    #[trigger] kept[j]).code != code by {
        assert(kept[i].code != kept[j].code);
    }
}

/// A code that was accepted is no longer among the codes.
pub(crate) proof fn lemma_consumed_lacks(r: RegistryView, text: Seq<char>, now: u64)
    requires
        at_most_once(registry::live(r.codes, now), registry::normalized(text)),
        registry::accepts_code(r, text, now),
    ensures
        !registry::has_code(registry::consumed(r, text, now).codes, registry::normalized(text)),
{
    let code = registry::normalized(text);
    let kept = registry::live(r.codes, now);
    let rest = registry::consumed(r, text, now).codes;
    registry::lemma_code_index(kept, code);
    let at = registry::code_index(kept, code);
    assert(kept[at].code == code);
    assert forall|k: int| 0 <= k < rest.len() implies (#[trigger] rest[k]).code != code by {
        let from = if k == at {
            kept.len() - 1
        } else {
            k
        };
        assert(rest[k] == kept[from]);
        if from < at {
            assert(kept[from].code != code || kept[at].code != code);
        } else {
            assert(kept[at].code != code || kept[from].code != code);
        }
    }
}

/// A pairing code is single-use: once a text was accepted, no text that is compared as the same
/// code is accepted, at whatever time. It is enough that the code stands once among those that have
/// not expired.
pub proof fn law_codes_are_single_use(
    r: RegistryView,
    text: Seq<char>,
    now: u64,
    again: Seq<char>,
    later: u64,
)
    requires
        at_most_once(registry::live(r.codes, now), registry::normalized(text)),
        registry::accepts_code(r, text, now),
        registry::normalized(again) == registry::normalized(text),
    ensures
        !registry::accepts_code(registry::consumed(r, text, now), again, later),
{
    lemma_consumed_lacks(r, text, now);
    lemma_live_has(registry::consumed(r, text, now).codes, later, registry::normalized(text));
}

/// A code that was handed out is accepted for ten minutes, and not after.
pub proof fn law_codes_last_ten_minutes(
    r: RegistryView,
    code: Seq<char>,
    now: u64,
    text: Seq<char>,
    later: u64,
)
    requires
        now + CODE_LIFETIME_SECS <= u64::MAX,
        !registry::has_code(registry::live(r.codes, now), code),
        registry::normalized(text) == code,
    ensures
        registry::accepts_code(registry::issued(r, code, now), text, later) <==> later < now
            + CODE_LIFETIME_SECS,
{
    let kept = registry::live(r.codes, now);
    let all = registry::issued(r, code, now).codes;
    lemma_live_has(all, later, code);
    assert(all[kept.len() as int].code == code);
    assert forall|k: int| 0 <= k < kept.len() implies (#[trigger] all[k]).code != code by {
        assert(all[k] == kept[k]);
    }
}

/// An expired code is not accepted, and is gone.
pub proof fn law_expired_codes_are_dropped(r: RegistryView, text: Seq<char>, now: u64)
    ensures
        registry::accepts_code(r, text, now) ==> exists|k: int|
            0 <= k < r.codes.len() && (#[trigger] r.codes[k]).code == registry::normalized(text)
                && now < r.codes[k].expires_unix,
        forall|k: int|
            0 <= k < registry::consumed(r, text, now).codes.len() ==> now < (
            #[trigger] registry::consumed(r, text, now).codes[k]).expires_unix,
{
    let code = registry::normalized(text);
    let keep = |c: CodeView| c.expires_unix > now;
    let kept = registry::live(r.codes, now);
    lemma_live_has(r.codes, now, code);
    registry::lemma_code_index(kept, code);
    let rest = registry::consumed(r, text, now).codes;
    assert forall|k: int| 0 <= k < rest.len() implies now < (#[trigger] rest[k]).expires_unix by {
        if registry::has_code(kept, code) && k == registry::code_index(kept, code) {
            r.codes.lemma_filter_pred(keep, kept.len() - 1);
        } else {
            r.codes.lemma_filter_pred(keep, k);
        }
    }
}

proof fn lemma_case_chars(c: char)
    ensures
        text::upper_char(text::lower_char(c)) == text::upper_char(c),
        text::is_white_space(text::lower_char(c)) == text::is_white_space(c),
{
}

proof fn lemma_trim_start_lower(s: Seq<char>)
    ensures
        text::trim_start(text::lower(s)) == text::lower(text::trim_start(s)),
    decreases s.len(),
{
    if s.len() > 0 {
        lemma_case_chars(s[0]);
        assert(text::lower(s).drop_first() =~= text::lower(s.drop_first()));
        lemma_trim_start_lower(s.drop_first());
    }
}

proof fn lemma_trim_end_lower(s: Seq<char>)
    ensures
        text::trim_end(text::lower(s)) == text::lower(text::trim_end(s)),
    decreases s.len(),
{
    if s.len() > 0 {
        lemma_case_chars(s.last());
        assert(text::lower(s).drop_last() =~= text::lower(s.drop_last()));
        lemma_trim_end_lower(s.drop_last());
    }
}

/// The case of a presented code does not matter.
pub proof fn law_codes_ignore_case(code: Seq<char>)
    ensures
        registry::normalized(text::lower(code)) == registry::normalized(code),
{
    lemma_trim_start_lower(code);
    lemma_trim_end_lower(text::trim_start(code));
    let core = text::trimmed(code);
    assert forall|k: int| 0 <= k < core.len() implies text::upper(text::lower(core))[k] == text::upper(
        core,
    )[k] by {
        lemma_case_chars(core[k]);
    }
    assert(text::upper(text::lower(core)) =~= text::upper(core));
}

/// A code in the shape in which codes are handed out is compared as it is.
pub proof fn law_issued_codes_are_normal(code: Seq<char>)
    requires
        registry::is_code(code),
    ensures
        registry::normalized(code) == code,
{
    assert(registry::is_code_char(code[0]));
    assert(registry::is_code_char(code[code.len() - 1]));
    assert forall|k: int| 0 <= k < code.len() implies text::upper(code)[k] == code[k] by {
        assert(registry::is_code_char(code[k]));
    }
    assert(text::upper(code) =~= code);
}

pub(crate) proof fn lemma_trim_start_pad(pad: Seq<char>, s: Seq<char>)
    requires
        forall|k: int| 0 <= k < pad.len() ==> text::is_white_space(#[trigger] pad[k]),
    ensures
        text::trim_start(pad + s) == text::trim_start(s),
    decreases pad.len(),
{
    if pad.len() > 0 {
        assert(text::is_white_space(pad[0]));
        assert((pad + s)[0] == pad[0]);
        assert((pad + s).drop_first() =~= pad.drop_first() + s);
        assert forall|k: int| 0 <= k < pad.drop_first().len() implies text::is_white_space(
            #[trigger] pad.drop_first()[k],
        ) by {
            assert(text::is_white_space(pad[k + 1]));
        }
        lemma_trim_start_pad(pad.drop_first(), s);
    } else {
        assert(pad + s =~= s);
    }
}

pub(crate) proof fn lemma_trim_end_pad(s: Seq<char>, pad: Seq<char>)
    requires
        forall|k: int| 0 <= k < pad.len() ==> text::is_white_space(#[trigger] pad[k]),
    ensures
        text::trim_end(s + pad) == text::trim_end(s),
    decreases pad.len(),
{
    if pad.len() > 0 {
        assert(text::is_white_space(pad[pad.len() - 1]));
        assert((s + pad).last() == pad.last());
        assert((s + pad).drop_last() =~= s + pad.drop_last());
        assert forall|k: int| 0 <= k < pad.drop_last().len() implies text::is_white_space(
            #[trigger] pad.drop_last()[k],
        ) by {
            assert(text::is_white_space(pad[k]));
        }
        lemma_trim_end_pad(s, pad.drop_last());
    } else {
        assert(s + pad =~= s);
    }
}

/// White space around a presented code does not matter.
pub proof fn law_codes_ignore_space(before: Seq<char>, code: Seq<char>, after: Seq<char>)
    requires
        registry::is_code(code),
        forall|k: int| 0 <= k < before.len() ==> text::is_white_space(#[trigger] before[k]),
        forall|k: int| 0 <= k < after.len() ==> text::is_white_space(#[trigger] after[k]),
    ensures
        registry::normalized(before + code + after) == code,
{
    law_issued_codes_are_normal(code);
    assert(before + code + after =~= before + (code + after));
    lemma_trim_start_pad(before, code + after);
    assert(registry::is_code_char(code[0]));
    assert((code + after)[0] == code[0]);
    lemma_trim_end_pad(code, after);
}

proof fn lemma_client_index_push(
    clients: Seq<ClientView>,
    c: ClientView,
    uuid: u128,
    token_hash: Seq<char>,
)
    ensures
        registry::client_index(clients.push(c), uuid, token_hash) == {
            let i = registry::client_index(clients, uuid, token_hash);
            if i < clients.len() || registry::answers_to(c, uuid, token_hash) {
                i
            } else {
                (clients.len() + 1) as int
            }
        },
    decreases clients.len(),
{
    registry::lemma_client_index(clients, uuid, token_hash);
    if clients.len() == 0 {
        assert(clients.push(c).drop_first() =~= Seq::empty());
        assert(registry::client_index(clients.push(c).drop_first(), uuid, token_hash) == 0);
    } else if !registry::answers_to(clients[0], uuid, token_hash) {
        assert(clients.push(c).drop_first() =~= clients.drop_first().push(c));
        lemma_client_index_push(clients.drop_first(), c, uuid, token_hash);
    }
}

/// A client that was added is known by its name to whoever presents its identifier and its token,
/// unless another client already answered to them.
pub proof fn law_enrolled_clients_are_known(
    r: RegistryView,
    uuid: u128,
    token: Seq<char>,
    name: Seq<char>,
    now: u64,
)
    requires
        registry::known_as(r, uuid, token::hashed(token)) is None,
    ensures
        registry::known_as(registry::enrolled(r, uuid, token, name, now), uuid, token::hashed(token))
            == Some(name),
{
    let hash = token::hashed(token);
    let c = registry::enrolled(r, uuid, token, name, now).clients.last();
    registry::lemma_client_index(r.clients, uuid, hash);
    lemma_client_index_push(r.clients, c, uuid, hash);
}

/// Adding a client does not change who answers to other credentials.
pub proof fn law_enrolling_leaves_others_known(
    r: RegistryView,
    uuid: u128,
    token: Seq<char>,
    name: Seq<char>,
    now: u64,
    other: u128,
    other_hash: Seq<char>,
)
    requires
        other != uuid || other_hash != token::hashed(token),
    ensures
        registry::known_as(registry::enrolled(r, uuid, token, name, now), other, other_hash)
            == registry::known_as(r, other, other_hash),
{
    let c = registry::enrolled(r, uuid, token, name, now).clients.last();
    registry::lemma_client_index(r.clients, other, other_hash);
    lemma_client_index_push(r.clients, c, other, other_hash);
}

/// Nobody answers to the identifier of a revoked client, whatever the token.
pub proof fn law_revoked_clients_are_unknown(r: RegistryView, uuid: u128, token_hash: Seq<char>)
    ensures
        registry::known_as(registry::revoked(r, uuid), uuid, token_hash) is None,
        forall|k: int|
            0 <= k < registry::revoked(r, uuid).clients.len() ==> (
            #[trigger] registry::revoked(r, uuid).clients[k]).uuid != uuid,
{
    let keep = |c: ClientView| c.uuid != uuid;
    let rest = registry::revoked(r, uuid).clients;
    registry::lemma_client_index(rest, uuid, token_hash);
    assert forall|k: int| 0 <= k < rest.len() implies (#[trigger] rest[k]).uuid != uuid by {
        r.clients.lemma_filter_pred(keep, k);
    }
}

/// Revoking a client does not change who answers to the identifiers of others.
pub proof fn law_revoking_leaves_others_known(
    r: RegistryView,
    uuid: u128,
    other: u128,
    token_hash: Seq<char>,
)
    requires
        other != uuid,
    ensures
        registry::known_as(registry::revoked(r, uuid), other, token_hash) == registry::known_as(
            r,
            other,
            token_hash,
        ),
    decreases r.clients.len(),
{
    reveal(Seq::filter);
    if r.clients.len() > 0 {
        let shorter = RegistryView { clients: r.clients.drop_last(), codes: r.codes };
        let last = r.clients.last();
        law_revoking_leaves_others_known(shorter, uuid, other, token_hash);
        assert(r.clients =~= shorter.clients.push(last));
        lemma_client_index_push(shorter.clients, last, other, token_hash);
        let rest = registry::revoked(shorter, uuid).clients;
        registry::lemma_client_index(shorter.clients, other, token_hash);
        registry::lemma_client_index(rest, other, token_hash);
        lemma_client_index_push(rest, last, other, token_hash);
    }
}

/// Revoking twice is revoking once.
pub proof fn law_revoking_is_idempotent(r: RegistryView, uuid: u128)
    ensures
        registry::revoked(registry::revoked(r, uuid), uuid) == registry::revoked(r, uuid),
    decreases r.clients.len(),
{
    reveal(Seq::filter);
    if r.clients.len() > 0 {
        let shorter = RegistryView { clients: r.clients.drop_last(), codes: r.codes };
        law_revoking_is_idempotent(shorter, uuid);
        let rest = registry::others(shorter.clients, uuid);
        assert(rest.push(r.clients.last()).drop_last() =~= rest);
    }
}

/// Authentication writes nothing but the time at which the client was last seen: it brings back
/// no revoked client, and removes and renames none.
pub proof fn law_authentication_keeps_the_registry(
    phase: AuthPhase,
    r: RegistryView,
    uuid: u128,
    token_hash: Seq<char>,
    now: u64,
)
    ensures
        match auth::auth_action(phase, r, uuid, token_hash, now) {
            AuthActionView::Reload => true,
            AuthActionView::Finish { name, registry } => registry == r,
            AuthActionView::Save { client, registry } => {
                &&& registry.codes == r.codes
                &&& registry.clients.len() == r.clients.len()
                &&& forall|k: int|
                    0 <= k < r.clients.len() ==> (#[trigger] registry.clients[k]) == (ClientView {
                        last_seen: registry.clients[k].last_seen,
                        ..r.clients[k]
                    })
                &&& forall|k: int|
                    0 <= k < r.clients.len() ==> (#[trigger] registry.clients[k]).last_seen == now
                        || registry.clients[k] == r.clients[k]
            },
        },
{
    registry::lemma_client_index(r.clients, uuid, token_hash);
}

/// What authentication finds is who answers to the credentials, whichever copy of the registry
/// settles it; and a copy read under the exclusive lock always settles it.
pub proof fn law_authentication_finds_the_client(
    phase: AuthPhase,
    r: RegistryView,
    uuid: u128,
    token_hash: Seq<char>,
    now: u64,
)
    ensures
        match auth::auth_action(phase, r, uuid, token_hash, now) {
            AuthActionView::Reload => phase is Reading && registry::known_as(r, uuid, token_hash) is Some,
            AuthActionView::Finish { name, registry } => name == registry::known_as(r, uuid, token_hash),
            AuthActionView::Save { client, registry } => Some(client) == registry::known_as(
                r,
                uuid,
                token_hash,
            ),
        },
{
    registry::lemma_client_index(r.clients, uuid, token_hash);
}

/// A client that was revoked before the registry is read is refused, in either phase.
pub proof fn law_revocation_takes_effect(
    phase: AuthPhase,
    r: RegistryView,
    uuid: u128,
    token_hash: Seq<char>,
    now: u64,
)
    ensures
        auth::auth_action(phase, registry::revoked(r, uuid), uuid, token_hash, now) == (
        AuthActionView::Finish { name: None, registry: registry::revoked(r, uuid) }),
{
    law_revoked_clients_are_unknown(r, uuid, token_hash);
    registry::lemma_client_index(registry::revoked(r, uuid).clients, uuid, token_hash);
}

/// `last_seen` is written at most once in a minute: right after it was written, authentication
/// changes nothing until a minute has passed.
pub proof fn law_last_seen_is_written_sparingly(
    phase: AuthPhase,
    r: RegistryView,
    uuid: u128,
    token_hash: Seq<char>,
    now: u64,
    later: u64,
)
    requires
        auth::auth_action(AuthPhase::Updating, r, uuid, token_hash, now) is Save,
        later < now + auth::LAST_SEEN_FLUSH_SECS,
    ensures
        ({
            let i = registry::client_index(r.clients, uuid, token_hash);
            let saved = auth::touched(r, i, now);
            auth::auth_action(phase, saved, uuid, token_hash, later) == AuthActionView::Finish {
                name: Some(r.clients[i].name),
                registry: saved,
            }
        }),
{
    registry::lemma_client_index(r.clients, uuid, token_hash);
    let i = registry::client_index(r.clients, uuid, token_hash);
    let saved = auth::touched(r, i, now);
    registry::lemma_client_index(saved.clients, uuid, token_hash);
    let j = registry::client_index(saved.clients, uuid, token_hash);
    if j < i {
        assert(saved.clients[j] == r.clients[j]);
    } else if j > i {
        assert(registry::answers_to(saved.clients[i], uuid, token_hash));
    }
}

/// A text is accepted exactly where some code that has not expired is the text without the white
/// space around it and in upper case.
pub proof fn law_codes_are_accepted_exactly(
    r: RegistryView,
    before: Seq<char>,
    core: Seq<char>,
    after: Seq<char>,
    now: u64,
)
    requires
        forall|k: int| 0 <= k < before.len() ==> text::is_white_space(#[trigger] before[k]),
        forall|k: int| 0 <= k < after.len() ==> text::is_white_space(#[trigger] after[k]),
        core.len() > 0 ==> !text::is_white_space(core[0]) && !text::is_white_space(core.last()),
    ensures
        registry::normalized(before + core + after) == text::upper(core),
        registry::accepts_code(r, before + core + after, now) <==> exists|k: int|
            0 <= k < r.codes.len() && (#[trigger] r.codes[k]).code == text::upper(core)
                && r.codes[k].expires_unix > now,
{
    text::law_trimming_is_exact(before, core, after);
    lemma_live_has(r.codes, now, text::upper(core));
}

/// Codes go one by one where expired ones are dropped: each stays exactly where it expires later than
/// now.
pub proof fn law_purging_is_exact(r: RegistryView, codes: Seq<CodeView>, c: CodeView, now: u64)
    ensures
        registry::live(Seq::empty(), now) == Seq::<CodeView>::empty(),
        registry::live(codes.push(c), now) == if c.expires_unix > now {
            registry::live(codes, now).push(c)
        } else {
            registry::live(codes, now)
        },
        registry::purged(r, now).codes == registry::live(r.codes, now),
        registry::purged(r, now).clients == r.clients,
{
    reveal(Seq::filter);
    assert(codes.push(c).drop_last() =~= codes);
}

/// A code stays among the codes of a list that it does not leave.
proof fn lemma_live_contains(codes: Seq<CodeView>, now: u64, k: int)
    requires
        0 <= k < codes.len(),
        codes[k].expires_unix > now,
    ensures
        registry::live(codes, now).contains(codes[k]),
{
    codes.lemma_filter_contains(|c: CodeView| c.expires_unix > now, k);
}

/// Presenting a code uses up that one and no other: every other code that has not expired is still
/// there, nothing is added, one code goes where the text is accepted, and none where it is not.
pub proof fn law_presenting_uses_up_one_code(r: RegistryView, text: Seq<char>, now: u64)
    ensures
        registry::consumed(r, text, now).clients == r.clients,
        forall|k: int|
            0 <= k < r.codes.len() && (#[trigger] r.codes[k]).expires_unix > now && r.codes[k].code
                != registry::normalized(text) ==> registry::consumed(r, text, now).codes.contains(
                r.codes[k],
            ),
        forall|k: int|
            0 <= k < registry::consumed(r, text, now).codes.len() ==> r.codes.contains(
                #[trigger] registry::consumed(r, text, now).codes[k],
            ),
        registry::consumed(r, text, now).codes.len() == registry::live(r.codes, now).len() - (
        if registry::accepts_code(r, text, now) {
            1int
        } else {
            0int
        }),
{
    let code = registry::normalized(text);
    let keep = |c: CodeView| c.expires_unix > now;
    let kept = registry::live(r.codes, now);
    let rest = registry::consumed(r, text, now).codes;
    registry::lemma_code_index(kept, code);
    let at = registry::code_index(kept, code);
    assert forall|k: int|
        0 <= k < r.codes.len() && (#[trigger] r.codes[k]).expires_unix > now && r.codes[k].code
            != code implies rest.contains(r.codes[k]) by {
        lemma_live_contains(r.codes, now, k);
        let i = choose|i: int| 0 <= i < kept.len() && kept[i] == r.codes[k];
        if registry::has_code(kept, code) {
            assert(i != at);
            if i == kept.len() - 1 {
                assert(rest[at] == kept[i]);
            } else {
                assert(rest[i] == kept[i]);
            }
        } else {
            assert(rest[i] == kept[i]);
        }
    }
    assert forall|k: int| 0 <= k < rest.len() implies r.codes.contains(#[trigger] rest[k]) by {
        let from = if registry::has_code(kept, code) && k == at {
            kept.len() - 1
        } else {
            k
        };
        assert(rest[k] == kept[from]);
        assert(kept.contains(kept[from]));
        r.codes.lemma_filter_contains_rev(keep, kept[from]);
    }
}

/// Pairing a client uses up the code that was presented and no other: in the registry after the code
/// was presented and the client was added, another text is accepted, at whatever time, exactly where
/// its code was there, had not expired when the client paired, and has not expired at that time.
pub proof fn law_pairing_leaves_other_codes(
    r: RegistryView,
    text: Seq<char>,
    now: u64,
    uuid: u128,
    token: Seq<char>,
    name: Seq<char>,
    other: Seq<char>,
    later: u64,
)
    requires
        registry::normalized(other) != registry::normalized(text),
    ensures
        registry::accepts_code(
            registry::enrolled(registry::consumed(r, text, now), uuid, token, name, now),
            other,
            later,
        ) <==> exists|k: int|
            0 <= k < r.codes.len() && (#[trigger] r.codes[k]).code == registry::normalized(other)
                && r.codes[k].expires_unix > now && r.codes[k].expires_unix > later,
{
    let code = registry::normalized(other);
    let keep = |c: CodeView| c.expires_unix > now;
    let after = registry::enrolled(registry::consumed(r, text, now), uuid, token, name, now);
    law_presenting_uses_up_one_code(r, text, now);
    law_expired_codes_are_dropped(r, text, now);
    lemma_live_has(after.codes, later, code);
    if exists|k: int|
        0 <= k < r.codes.len() && (#[trigger] r.codes[k]).code == code && r.codes[k].expires_unix > now
            && r.codes[k].expires_unix > later {
        let k = choose|k: int|
            0 <= k < r.codes.len() && (#[trigger] r.codes[k]).code == code && r.codes[k].expires_unix
                > now && r.codes[k].expires_unix > later;
        let j = choose|j: int| 0 <= j < after.codes.len() && after.codes[j] == r.codes[k];
        assert(after.codes[j].code == code);
    }
    if registry::accepts_code(after, other, later) {
        let j = choose|j: int|
            0 <= j < after.codes.len() && (#[trigger] after.codes[j]).code == code
                && after.codes[j].expires_unix > later;
        let rest = registry::consumed(r, text, now).codes;
        assert(rest[j] == after.codes[j]);
        let k = choose|k: int| 0 <= k < r.codes.len() && r.codes[k] == rest[j];
        assert(r.codes[k].code == code);
    }
}

/// Adding a client leaves the codes as they are: whatever was accepted before is accepted after, at
/// any time, and nothing else.
pub proof fn law_enrolling_leaves_codes(
    r: RegistryView,
    uuid: u128,
    token: Seq<char>,
    name: Seq<char>,
    now: u64,
    text: Seq<char>,
    later: u64,
)
    ensures
        registry::enrolled(r, uuid, token, name, now).codes == r.codes,
        registry::accepts_code(registry::enrolled(r, uuid, token, name, now), text, later)
            == registry::accepts_code(r, text, later),
{
}

/// Adding a client adds it behind the others, under its name, with the hexadecimal SHA-256 digest of
/// its token, seen at the time at which it was added.
pub proof fn law_enrolling_adds_one_client(
    r: RegistryView,
    uuid: u128,
    token: Seq<char>,
    name: Seq<char>,
    now: u64,
)
    ensures
        ({
            let after = registry::enrolled(r, uuid, token, name, now).clients;
            &&& after.len() == r.clients.len() + 1
            &&& after.drop_last() == r.clients
            &&& after.last().uuid == uuid
            &&& after.last().name == name
            &&& after.last().token_sha256 == hex::hex(
                token::sha256_digest(vstd::utf8::encode_utf8(token)),
            )
            &&& after.last().created == now
            &&& after.last().last_seen == now
        }),
{
    assert(registry::enrolled(r, uuid, token, name, now).clients.drop_last() =~= r.clients);
}

/// Handing out a code leaves the clients and every other code that has not expired: another text is
/// accepted, at whatever time, exactly where its code was there, had not expired when the new one was
/// handed out, and has not expired at that time.
pub proof fn law_issuing_leaves_other_codes(
    r: RegistryView,
    code: Seq<char>,
    now: u64,
    other: Seq<char>,
    later: u64,
)
    requires
        registry::normalized(other) != code,
    ensures
        registry::issued(r, code, now).clients == r.clients,
        registry::accepts_code(registry::issued(r, code, now), other, later) <==> exists|k: int|
            0 <= k < r.codes.len() && (#[trigger] r.codes[k]).code == registry::normalized(other)
                && r.codes[k].expires_unix > now && r.codes[k].expires_unix > later,
{
    let wanted = registry::normalized(other);
    let keep = |c: CodeView| c.expires_unix > now;
    let kept = registry::live(r.codes, now);
    let all = registry::issued(r, code, now).codes;
    lemma_live_has(all, later, wanted);
    if exists|k: int|
        0 <= k < r.codes.len() && (#[trigger] r.codes[k]).code == wanted && r.codes[k].expires_unix
            > now && r.codes[k].expires_unix > later {
        let k = choose|k: int|
            0 <= k < r.codes.len() && (#[trigger] r.codes[k]).code == wanted && r.codes[k].expires_unix
                > now && r.codes[k].expires_unix > later;
        lemma_live_contains(r.codes, now, k);
        let i = choose|i: int| 0 <= i < kept.len() && kept[i] == r.codes[k];
        assert(all[i] == kept[i]);
    }
    if registry::accepts_code(registry::issued(r, code, now), other, later) {
        let i = choose|i: int|
            0 <= i < all.len() && (#[trigger] all[i]).code == wanted && all[i].expires_unix > later;
        assert(i < kept.len());
        assert(all[i] == kept[i]);
        assert(kept.contains(kept[i]));
        r.codes.lemma_filter_contains_rev(keep, kept[i]);
        r.codes.lemma_filter_pred(keep, i);
        let k = choose|k: int| 0 <= k < r.codes.len() && r.codes[k] == kept[i];
        assert(r.codes[k].code == wanted);
    }
}

/// A code is handed out behind the others, as it is, and expires 600 seconds later.
pub proof fn law_issued_codes_stand_behind_the_others(r: RegistryView, code: Seq<char>, now: u64)
    requires
        now + 600 <= u64::MAX,
    ensures
        ({
            let after = registry::issued(r, code, now).codes;
            &&& after.len() > 0
            &&& after.last().code == code
            &&& after.last().expires_unix == now + 600
            &&& after.drop_last() == registry::live(r.codes, now)
        }),
{
    assert(registry::issued(r, code, now).codes.drop_last() =~= registry::live(r.codes, now));
}

/// A code has eight characters, each a digit or an upper-case ASCII letter.
pub proof fn law_codes_have_their_shape(code: Seq<char>)
    ensures
        registry::is_code(code) <==> code.len() == 8 && forall|k: int|
            0 <= k < code.len() ==> (48 <= (#[trigger] code[k]) as int && code[k] as int <= 57) || (65
                <= code[k] as int && code[k] as int <= 90),
{
    if registry::is_code(code) {
        assert forall|k: int| 0 <= k < code.len() implies (48 <= (#[trigger] code[k]) as int
            && code[k] as int <= 57) || (65 <= code[k] as int && code[k] as int <= 90) by {
            assert(registry::is_code_char(code[k]));
        }
    }
}

/// Clients go one by one where one is revoked: each stays, as it is and in its order, exactly where it
/// has another identifier. The codes stay.
pub proof fn law_revocation_is_exact(
    r: RegistryView,
    clients: Seq<ClientView>,
    c: ClientView,
    uuid: u128,
)
    ensures
        registry::others(Seq::empty(), uuid) == Seq::<ClientView>::empty(),
        registry::others(clients.push(c), uuid) == if c.uuid == uuid {
            registry::others(clients, uuid)
        } else {
            registry::others(clients, uuid).push(c)
        },
        registry::revoked(r, uuid).clients == registry::others(r.clients, uuid),
        registry::revoked(r, uuid).codes == r.codes,
{
    reveal(Seq::filter);
    assert(clients.push(c).drop_last() =~= clients);
}

/// Whether a client is the first that has an identifier and a token hash.
pub open spec fn is_first_with(
    clients: Seq<ClientView>,
    k: int,
    uuid: u128,
    token_hash: Seq<char>,
) -> bool {
    &&& 0 <= k < clients.len()
    &&& clients[k].uuid == uuid
    &&& clients[k].token_sha256 == token_hash
    &&& forall|j: int|
        0 <= j < k ==> (#[trigger] clients[j]).uuid != uuid || clients[j].token_sha256 != token_hash
}

proof fn lemma_first_with(clients: Seq<ClientView>, k: int, uuid: u128, token_hash: Seq<char>)
    requires
        is_first_with(clients, k, uuid, token_hash),
    ensures
        registry::client_index(clients, uuid, token_hash) == k,
{
    registry::lemma_client_index(clients, uuid, token_hash);
    let i = registry::client_index(clients, uuid, token_hash);
    assert(registry::answers_to(clients[k], uuid, token_hash));
    if i < k {
        assert(registry::answers_to(clients[i], uuid, token_hash));
    }
}

/// Credentials are known by the name of the first client that has both the identifier and the token
/// hash, and unknown where no client has both.
pub proof fn law_known_clients_are_exact(
    r: RegistryView,
    k: int,
    uuid: u128,
    token_hash: Seq<char>,
)
    ensures
        is_first_with(r.clients, k, uuid, token_hash) ==> registry::known_as(r, uuid, token_hash)
            == Some(r.clients[k].name),
        (forall|j: int|
            0 <= j < r.clients.len() ==> (#[trigger] r.clients[j]).uuid != uuid
                || r.clients[j].token_sha256 != token_hash) ==> registry::known_as(r, uuid, token_hash) is None,
{
    if is_first_with(r.clients, k, uuid, token_hash) {
        lemma_first_with(r.clients, k, uuid, token_hash);
    }
    registry::lemma_client_index(r.clients, uuid, token_hash);
}

/// What authentication does, written out. A client that was seen less than 60 seconds ago is found and
/// nothing is written. One that was not is looked for once more under the exclusive lock, and the time
/// of that visit is then the only thing that changes. Credentials to which nobody answers find nobody.
pub proof fn law_authentication_is_exact(
    r: RegistryView,
    k: int,
    uuid: u128,
    token_hash: Seq<char>,
    now: u64,
)
    ensures
        is_first_with(r.clients, k, uuid, token_hash) && now < r.clients[k].last_seen + 60 ==> {
            let found = AuthActionView::Finish { name: Some(r.clients[k].name), registry: r };
            &&& auth::auth_action(AuthPhase::Reading, r, uuid, token_hash, now) == found
            &&& auth::auth_action(AuthPhase::Updating, r, uuid, token_hash, now) == found
        },
        is_first_with(r.clients, k, uuid, token_hash) && now >= r.clients[k].last_seen + 60 ==> {
            &&& auth::auth_action(AuthPhase::Reading, r, uuid, token_hash, now) is Reload
            &&& auth::auth_action(AuthPhase::Updating, r, uuid, token_hash, now) == (
            AuthActionView::Save {
                client: r.clients[k].name,
                registry: RegistryView {
                    clients: r.clients.update(
                        k,
                        ClientView {
                            uuid: r.clients[k].uuid,
                            token_sha256: r.clients[k].token_sha256,
                            name: r.clients[k].name,
                            created: r.clients[k].created,
                            last_seen: now,
                        },
                    ),
                    codes: r.codes,
                },
            })
        },
        (forall|j: int|
            0 <= j < r.clients.len() ==> (#[trigger] r.clients[j]).uuid != uuid
                || r.clients[j].token_sha256 != token_hash) ==> {
            let nobody = AuthActionView::Finish { name: None, registry: r };
            &&& auth::auth_action(AuthPhase::Reading, r, uuid, token_hash, now) == nobody
            &&& auth::auth_action(AuthPhase::Updating, r, uuid, token_hash, now) == nobody
        },
{
    if is_first_with(r.clients, k, uuid, token_hash) {
        lemma_first_with(r.clients, k, uuid, token_hash);
    }
    registry::lemma_client_index(r.clients, uuid, token_hash);
}

/// A client that was added is let in from then on, by its token and by no other, in whatever registry
/// its identifier is new; and a client that was revoked is not, by any token.
pub proof fn law_tokens_open_and_revocation_shuts(
    r: RegistryView,
    uuid: u128,
    token: Seq<char>,
    name: Seq<char>,
    now: u64,
    presented: Seq<char>,
)
    requires
        forall|j: int| 0 <= j < r.clients.len() ==> (#[trigger] r.clients[j]).uuid != uuid,
    ensures
        ({
            let after = registry::enrolled(r, uuid, token, name, now);
            &&& token::hashed(presented) == token::hashed(token) ==> registry::known_as(
                after,
                uuid,
                token::hashed(presented),
            ) == Some(name)
            &&& token::hashed(presented) != token::hashed(token) ==> registry::known_as(
                after,
                uuid,
                token::hashed(presented),
            ) is None
            &&& registry::known_as(registry::revoked(after, uuid), uuid, token::hashed(presented)) is None
        }),
{
    let after = registry::enrolled(r, uuid, token, name, now);
    let n = r.clients.len() as int;
    assert forall|j: int| 0 <= j < n implies (#[trigger] after.clients[j]).uuid != uuid by {
        assert(after.clients[j] == r.clients[j]);
    }
    law_known_clients_are_exact(after, n, uuid, token::hashed(presented));
    law_revoked_clients_are_unknown(after, uuid, token::hashed(presented));
}

} // verus!
