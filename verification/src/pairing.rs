//! Pairing: how often an address may try, under which names, and what a valid code buys.

use std::collections::HashMap;

use vstd::prelude::*;

use crate::address::IpAddress;
use crate::laws;
use crate::registry;
use crate::registry::Registry;
use crate::reply;
use crate::reply::Reply;
use crate::{text, token};

verus! {

/// How many pairing attempts an address has in one minute.
pub const MAX_PAIR_ATTEMPTS: u8 = 10;

/// How many bytes the name of a client may have.
pub const MAX_NAME_BYTES: usize = 128;

/// The minute of the last attempt of an address, and the attempts in it so far.
pub struct PairRateWindow {
    pub minute: u64,
    pub count: u8,
}

/// The pairing attempts of each address.
pub struct PairAttempts {
    pub v4: HashMap<u32, PairRateWindow>,
    pub v6: HashMap<u128, PairRateWindow>,
}

impl View for PairAttempts {
    type V = Map<IpAddress, PairRateWindow>;

    open spec fn view(&self) -> Map<IpAddress, PairRateWindow> {
        Map::new(
            |ip: IpAddress|
                match ip {
                    IpAddress::V4(v4) => self.v4@.contains_key(v4),
                    IpAddress::V6(v6) => self.v6@.contains_key(v6),
                },
            |ip: IpAddress|
                match ip {
                    IpAddress::V4(v4) => self.v4@[v4],
                    IpAddress::V6(v6) => self.v6@[v6],
                },
        )
    }
}

/// The minute that a time in seconds lies in.
pub open spec fn minute_of(now: u64) -> u64 {
    now / 60
}

/// The attempts that an address has made in a given minute.
pub open spec fn used(attempts: Map<IpAddress, PairRateWindow>, ip: IpAddress, minute: u64) -> u8 {
    if attempts.contains_key(ip) && attempts[ip].minute == minute {
        attempts[ip].count
    } else {
        0
    }
}

/// Whether another attempt is allowed.
pub open spec fn allowed(
    attempts: Map<IpAddress, PairRateWindow>,
    ip: IpAddress,
    minute: u64,
) -> bool {
    used(attempts, ip, minute) < MAX_PAIR_ATTEMPTS
}

/// The attempts after another one.
pub open spec fn attempted(
    attempts: Map<IpAddress, PairRateWindow>,
    ip: IpAddress,
    minute: u64,
) -> Map<IpAddress, PairRateWindow> {
    let before = used(attempts, ip, minute);
    attempts.insert(
        ip,
        PairRateWindow {
            minute,
            count: if before < MAX_PAIR_ATTEMPTS {
                (before + 1) as u8
            } else {
                before
            },
        },
    )
}

fn next_window(window: Option<&PairRateWindow>, minute: u64) -> (r: (bool, PairRateWindow))
    ensures
        ({
            let before = match window {
                Some(w) => if w.minute == minute {
                    w.count
                } else {
                    0
                },
                None => 0,
            };
            &&& r.0 == (before < MAX_PAIR_ATTEMPTS)
            &&& r.1.minute == minute
            &&& r.1.count == if before < MAX_PAIR_ATTEMPTS {
                before + 1
            } else {
                before as int
            }
        }),
{
    let mut count: u8 = 0;
    if let Some(w) = window {
        if w.minute == minute {
            count = w.count;
        }
    }
    if count >= MAX_PAIR_ATTEMPTS {
        return (false, PairRateWindow { minute, count });
    }
    (true, PairRateWindow { minute, count: count + 1 })
}

impl PairAttempts {
    /// No attempts so far.
    pub fn new() -> (r: PairAttempts)
        ensures
            r@ == Map::<IpAddress, PairRateWindow>::empty(),
    {
        let r = PairAttempts { v4: HashMap::new(), v6: HashMap::new() };
        assert(r@ =~= Map::<IpAddress, PairRateWindow>::empty());
        r
    }

    /// Counts an attempt of an address at a given time; tells whether it is allowed.
    pub fn allow_pair_attempt(&mut self, ip: IpAddress, now: u64) -> (r: bool)
        ensures
            r == allowed(old(self)@, ip, now / 60),
            final(self)@ == attempted(old(self)@, ip, now / 60),
            r == allowed(old(self)@, ip, minute_of(now)),
            final(self)@ == attempted(old(self)@, ip, minute_of(now)),
    {
        broadcast use vstd::std_specs::hash::group_hash_axioms;

        let minute: u64 = now / 60;
        let ghost before = self@;
        match ip {
            IpAddress::V4(v4) => {
                let (ok, window) = next_window(self.v4.get(&v4), minute);
                self.v4.insert(v4, window);
                assert(self@ =~= attempted(before, ip, minute));
                ok
            },
            IpAddress::V6(v6) => {
                let (ok, window) = next_window(self.v6.get(&v6), minute);
                self.v6.insert(v6, window);
                assert(self@ =~= attempted(before, ip, minute));
                ok
            },
        }
    }
}

/// Whether a name, without white space around it, may be given to a client.
pub open spec fn is_client_name(name: Seq<char>) -> bool {
    name.len() > 0 && vstd::utf8::encode_utf8(name).len() <= MAX_NAME_BYTES
}

/// The name that a client asks for, without white space around it; none where it is empty or too
/// long.
pub fn client_name(name: &str) -> (r: Option<String>)
    ensures
        match r {
            Some(t) => t@ == text::trimmed(name@) && is_client_name(t@),
            None => !is_client_name(text::trimmed(name@)),
        },
{
    let trimmed = text::trim(name);
    if trimmed.as_str().is_empty() || trimmed.as_str().as_bytes().len() > MAX_NAME_BYTES {
        return None;
    }
    Some(trimmed)
}

/// What a pairing request comes to before the registry is read: the name, or the answer that refuses
/// it.
pub open spec fn pair_check(allowed: bool, name: Seq<char>) -> Result<Seq<char>, reply::ReplyView> {
    if !allowed {
        Err(reply::error_answer(429, "rate_limited"@))
    } else if is_client_name(text::trimmed(name)) {
        Ok(text::trimmed(name))
    } else {
        Err(reply::error_answer(400, "invalid_name"@))
    }
}

/// What is decided about a pairing request before the registry is read: the name, or the answer
/// that refuses it.
pub fn check_pair_request(allowed: bool, name: &str) -> (r: Result<String, Reply>)
    ensures
        match r {
            Ok(t) => allowed && t@ == text::trimmed(name@) && is_client_name(t@),
            Err(refusal) => if !allowed {
                refusal@ == reply::error_answer(429, "rate_limited"@)
            } else {
                !is_client_name(text::trimmed(name@)) && refusal@ == reply::error_answer(
                    400,
                    "invalid_name"@,
                )
            },
        },
        match r {
            Ok(t) => pair_check(allowed, name@) == Ok::<Seq<char>, reply::ReplyView>(t@),
            Err(refusal) => pair_check(allowed, name@) == Err::<Seq<char>, reply::ReplyView>(refusal@),
        },
{
    if !allowed {
        return Err(reply::error_reply(429, "rate_limited"));
    }
    match client_name(name) {
        Some(t) => Ok(t),
        None => Err(reply::error_reply(400, "invalid_name")),
    }
}

/// What a client gets for a valid code.
#[derive(Clone, Debug, PartialEq, Eq)]
pub struct PairResponse {
    pub uuid: String,
    pub token: String,
}

/// Whether the response names a client that was added under `name`: the identifier and the
/// token in it are those of the new client.
pub open spec fn is_pairing(
    before: registry::RegistryView,
    after: registry::RegistryView,
    response: PairResponse,
    uuid: u128,
    name: Seq<char>,
    now: u64,
) -> bool {
    &&& token::is_random_uuid(uuid)
    &&& token::is_secret(response.token@)
    &&& response.uuid@ == token::uuid_text(uuid)
    &&& after == registry::enrolled(before, uuid, response.token@, name, now)
    &&& token::credentials_of(token::credential_text(uuid, response.token@)) == Some(
        (uuid, token::hashed(response.token@)),
    )
    &&& registry::known_as(before, uuid, token::hashed(response.token@)) is None
        ==> registry::known_as(after, uuid, token::hashed(response.token@)) == Some(name)
}

/// Whether the response names some client that was added under `name`.
pub open spec fn has_paired(
    before: registry::RegistryView,
    after: registry::RegistryView,
    response: PairResponse,
    name: Seq<char>,
    now: u64,
) -> bool {
    exists|uuid: u128| #[trigger] is_pairing(before, after, response, uuid, name, now)
}

/// Uses up a pairing code and adds a client for it. Where the code is accepted, `uuid:token` of the
/// response are the credentials of the new client; where it is not, no client is added.
pub fn pair(registry: &mut Registry, code: &str, name: String, now: u64) -> (r: Result<
    PairResponse,
    Reply,
>)
    ensures
        r is Ok <==> registry::accepts_code(old(registry)@, code@, now),
        r matches Ok(response) ==> has_paired(
            registry::consumed(old(registry)@, code@, now),
            final(registry)@,
            response,
            name@,
            now,
        ),
        r matches Err(refusal) ==> refusal@ == reply::error_answer(403, "invalid_or_expired_code"@)
            && final(registry)@ == registry::consumed(old(registry)@, code@, now),
{
    if !registry.consume_pairing_code(code, now) {
        return Err(reply::error_reply(403, "invalid_or_expired_code"));
    }
    let ghost before = registry@;
    let ghost wanted = name@;
    let (uuid, token) = registry.add_client(name, now);
    let id = token::format_uuid(uuid);
    let response = PairResponse { uuid: id, token };
    proof {
        token::lemma_credential_text(uuid, response.token@);
        if registry::known_as(before, uuid, token::hashed(response.token@)) is None {
            laws::law_enrolled_clients_are_known(before, uuid, response.token@, wanted, now);
        }
        assert(is_pairing(before, registry@, response, uuid, wanted, now));
    }
    Ok(response)
}

/// The attempts after a series of them, each with its address and its minute.
pub open spec fn after_attempts(
    attempts: Map<IpAddress, PairRateWindow>,
    series: Seq<(IpAddress, u64)>,
) -> Map<IpAddress, PairRateWindow>
    decreases series.len(),
{
    if series.len() == 0 {
        attempts
    } else {
        attempted(after_attempts(attempts, series.drop_last()), series.last().0, series.last().1)
    }
}

/// How many attempts of a series an address was allowed in a given minute.
pub open spec fn granted(
    attempts: Map<IpAddress, PairRateWindow>,
    series: Seq<(IpAddress, u64)>,
    ip: IpAddress,
    minute: u64,
) -> nat
    decreases series.len(),
{
    if series.len() == 0 {
        0
    } else {
        granted(attempts, series.drop_last(), ip, minute) + if series.last() == (ip, minute) && allowed(
            after_attempts(attempts, series.drop_last()),
            ip,
            minute,
        ) {
            1nat
        } else {
            0nat
        }
    }
}

/// Whether time does not go back in a series of attempts.
pub open spec fn in_order(series: Seq<(IpAddress, u64)>) -> bool {
    forall|i: int, j: int| 0 <= i < j < series.len() ==> (#[trigger] series[i]).1 <= (#[trigger] series[j]).1
}

proof fn lemma_granted(
    attempts: Map<IpAddress, PairRateWindow>,
    series: Seq<(IpAddress, u64)>,
    ip: IpAddress,
    minute: u64,
)
    requires
        in_order(series),
    ensures
        granted(attempts, series, ip, minute) <= MAX_PAIR_ATTEMPTS,
        series.len() == 0 || series.last().1 <= minute ==> granted(attempts, series, ip, minute) <= used(
            after_attempts(attempts, series),
            ip,
            minute,
        ),
        series.len() == 0 || series.last().1 < minute ==> granted(attempts, series, ip, minute) == 0,
    decreases series.len(),
{
    if series.len() > 0 {
        let shorter = series.drop_last();
        assert(in_order(shorter)) by {
            assert forall|i: int, j: int| 0 <= i < j < shorter.len() implies (#[trigger] shorter[i]).1 <= (
            #[trigger] shorter[j]).1 by {
                assert(series[i].1 <= series[j].1);
            }
        }
        if shorter.len() > 0 {
            assert(series[series.len() - 2].1 <= series[series.len() - 1].1);
        }
        lemma_granted(attempts, shorter, ip, minute);
    }
}

/// An address is allowed at most ten pairing attempts in any one minute, however the attempts of
/// all addresses come together.
pub proof fn law_pairing_is_rate_limited(
    attempts: Map<IpAddress, PairRateWindow>,
    series: Seq<(IpAddress, u64)>,
    ip: IpAddress,
    minute: u64,
)
    requires
        in_order(series),
    ensures
        granted(attempts, series, ip, minute) <= MAX_PAIR_ATTEMPTS,
{
    lemma_granted(attempts, series, ip, minute);
}

/// How many attempts of a series an address made in a given minute.
pub open spec fn asked(series: Seq<(IpAddress, u64)>, ip: IpAddress, minute: u64) -> nat
    decreases series.len(),
{
    if series.len() == 0 {
        0
    } else {
        asked(series.drop_last(), ip, minute) + if series.last() == (ip, minute) {
            1nat
        } else {
            0nat
        }
    }
}

proof fn lemma_asked(
    attempts: Map<IpAddress, PairRateWindow>,
    series: Seq<(IpAddress, u64)>,
    ip: IpAddress,
    minute: u64,
)
    requires
        used(attempts, ip, minute) == 0,
    ensures
        used(after_attempts(attempts, series), ip, minute) <= asked(series, ip, minute),
        granted(attempts, series, ip, minute) <= asked(series, ip, minute),
        granted(attempts, series, ip, minute) >= if asked(series, ip, minute) < MAX_PAIR_ATTEMPTS {
            asked(series, ip, minute) as int
        } else {
            MAX_PAIR_ATTEMPTS as int
        },
    decreases series.len(),
{
    if series.len() > 0 {
        lemma_asked(attempts, series.drop_last(), ip, minute);
    }
}

/// The first ten pairing attempts of an address in a minute are allowed, whatever other addresses
/// and other minutes come between them.
pub proof fn law_first_attempts_are_allowed(
    attempts: Map<IpAddress, PairRateWindow>,
    series: Seq<(IpAddress, u64)>,
    ip: IpAddress,
    minute: u64,
)
    requires
        used(attempts, ip, minute) == 0,
    ensures
        asked(series, ip, minute) <= MAX_PAIR_ATTEMPTS ==> granted(attempts, series, ip, minute)
            == asked(series, ip, minute),
        asked(series, ip, minute) > MAX_PAIR_ATTEMPTS ==> granted(attempts, series, ip, minute)
            >= MAX_PAIR_ATTEMPTS,
{
    lemma_asked(attempts, series, ip, minute);
}

/// The attempts of one address do not count for another.
pub proof fn law_addresses_are_limited_apart(
    attempts: Map<IpAddress, PairRateWindow>,
    ip: IpAddress,
    minute: u64,
    other: IpAddress,
    other_minute: u64,
)
    requires
        other != ip,
    ensures
        used(attempted(attempts, ip, minute), other, other_minute) == used(attempts, other, other_minute),
{
}

/// A name without white space around it is taken exactly where it has at least one character and at
/// most 128 bytes.
pub proof fn law_client_names_are_exact(name: Seq<char>)
    ensures
        is_client_name(name) <==> 1 <= name.len() && vstd::utf8::encode_utf8(name).len() <= 128,
{
}

/// Pairing adds one client behind the others, with the name that was asked for and the hash of the
/// token that is given out, and changes nothing else; the response names that client.
pub proof fn law_pairing_adds_one_client(
    before: registry::RegistryView,
    after: registry::RegistryView,
    response: PairResponse,
    uuid: u128,
    name: Seq<char>,
    now: u64,
)
    requires
        is_pairing(before, after, response, uuid, name, now),
    ensures
        after.codes == before.codes,
        after.clients.len() == before.clients.len() + 1,
        after.clients.drop_last() == before.clients,
        after.clients.last().uuid == uuid,
        after.clients.last().name == name,
        after.clients.last().token_sha256 == token::hashed(response.token@),
        after.clients.last().created == now,
        after.clients.last().last_seen == now,
        response.uuid@ == token::uuid_text(uuid),
        response.token@.len() == 64,
        token::credentials_of(response.uuid@ + seq![':'] + response.token@) == Some(
            (uuid, token::hashed(response.token@)),
        ),
{
    laws::law_enrolling_adds_one_client(before, uuid, response.token@, name, now);
    token::law_secrets_have_their_shape(response.token@);
}

/// Whatever `pair` calls a pairing is one of some client.
pub proof fn law_pairings_are_of_some_client(
    before: registry::RegistryView,
    after: registry::RegistryView,
    response: PairResponse,
    name: Seq<char>,
    now: u64,
)
    requires
        has_paired(before, after, response, name, now),
    ensures
        after.codes == before.codes,
        after.clients.len() == before.clients.len() + 1,
        after.clients.drop_last() == before.clients,
        after.clients.last().name == name,
        after.clients.last().token_sha256 == token::hashed(response.token@),
        after.clients.last().created == now,
        after.clients.last().last_seen == now,
        response.uuid@ == token::uuid_text(after.clients.last().uuid),
{
    let uuid = choose|uuid: u128| #[trigger] is_pairing(before, after, response, uuid, name, now);
    law_pairing_adds_one_client(before, after, response, uuid, name, now);
}

/// An attempt is allowed exactly where fewer than ten were counted for its address in its minute. It
/// is counted up to ten, and the minute before is forgotten.
pub proof fn law_attempts_are_counted(
    attempts: Map<IpAddress, PairRateWindow>,
    ip: IpAddress,
    minute: u64,
    other: u64,
)
    ensures
        allowed(attempts, ip, minute) <==> used(attempts, ip, minute) < 10,
        used(attempts, ip, minute) < 10 ==> used(attempted(attempts, ip, minute), ip, minute) == used(
            attempts,
            ip,
            minute,
        ) + 1,
        used(attempts, ip, minute) >= 10 ==> used(attempted(attempts, ip, minute), ip, minute) == used(
            attempts,
            ip,
            minute,
        ),
        other != minute ==> used(attempted(attempts, ip, minute), ip, other) == 0,
        !attempts.contains_key(ip) ==> used(attempts, ip, minute) == 0,
{
}

/// A minute has sixty seconds, and a new one starts with each multiple of sixty.
pub proof fn law_minutes_have_sixty_seconds(minute: u64, second: u64)
    requires
        minute * 60 + second <= u64::MAX,
        second < 60,
    ensures
        minute_of((minute * 60 + second) as u64) == minute,
{
}

/// A pairing request is refused where too many came before it, whatever its name; else its name is
/// taken without the white space around it, exactly where it then has at least one character and at
/// most 128 bytes.
pub proof fn law_pairing_requests_are_checked(
    before: Seq<char>,
    core: Seq<char>,
    after: Seq<char>,
)
    requires
        forall|k: int| 0 <= k < before.len() ==> text::is_white_space(#[trigger] before[k]),
        forall|k: int| 0 <= k < after.len() ==> text::is_white_space(#[trigger] after[k]),
        core.len() > 0 ==> !text::is_white_space(core[0]) && !text::is_white_space(core.last()),
    ensures
        pair_check(false, before + core + after) == Err::<Seq<char>, reply::ReplyView>(
            reply::ReplyView {
                status: 429,
                proxy_authenticate: None,
                body: reply::BodyView::Error { error: "rate_limited"@, detail: None },
            },
        ),
        core.len() >= 1 && vstd::utf8::encode_utf8(core).len() <= 128 ==> pair_check(
            true,
            before + core + after,
        ) == Ok::<Seq<char>, reply::ReplyView>(core),
        core.len() == 0 || vstd::utf8::encode_utf8(core).len() > 128 ==> pair_check(
            true,
            before + core + after,
        ) == Err::<Seq<char>, reply::ReplyView>(
            reply::ReplyView {
                status: 400,
                proxy_authenticate: None,
                body: reply::BodyView::Error { error: "invalid_name"@, detail: None },
            },
        ),
{
    text::law_trimming_is_exact(before, core, after);
}

/// Pairing with an accepted code adds one client, behind the others and under the name given, and
/// takes one live code away; every live code that reads otherwise stays.
pub proof fn law_pairing_trades_a_code_for_a_client(
    before: registry::RegistryView,
    after: registry::RegistryView,
    response: PairResponse,
    code: Seq<char>,
    name: Seq<char>,
    now: u64,
)
    requires
        registry::accepts_code(before, code, now),
        has_paired(registry::consumed(before, code, now), after, response, name, now),
    ensures
        after.clients.len() == before.clients.len() + 1,
        after.clients.drop_last() == before.clients,
        after.clients.last().name == name,
        after.codes.len() == registry::live(before.codes, now).len() - 1,
        forall|k: int|
            0 <= k < before.codes.len() && (#[trigger] before.codes[k]).expires_unix > now
                && before.codes[k].code != registry::normalized(code) ==> after.codes.contains(
                before.codes[k],
            ),
{
    law_pairings_are_of_some_client(
        registry::consumed(before, code, now),
        after,
        response,
        name,
        now,
    );
    laws::law_presenting_uses_up_one_code(before, code, now);
}

} // verus!
