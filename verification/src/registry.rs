//! The registry: pairing codes and paired clients.

use vstd::prelude::*;

use crate::{text, token};

verus! {

/// How long a pairing code can be used, in seconds.
pub const CODE_LIFETIME_SECS: u64 = 600;

/// How many characters a pairing code has.
pub const CODE_LENGTH: usize = 8;

/// How many pairing codes there are: eight characters out of thirty-six.
pub const CODE_SPACE: u64 = 2_821_109_907_456;

/// A paired client.
#[derive(Clone, Debug, PartialEq, Eq)]
pub struct Client {
    pub uuid: u128,
    pub token_sha256: String,
    pub name: String,
    pub created: u64,
    pub last_seen: u64,
}

/// A pairing code that was handed out and has not been used yet.
#[derive(Clone, Debug, PartialEq, Eq)]
pub struct PairingCode {
    pub code: String,
    pub expires_unix: u64,
}

/// All that the relay keeps on disk.
#[derive(Clone, Debug, PartialEq, Eq)]
pub struct Registry {
    pub clients: Vec<Client>,
    pub codes: Vec<PairingCode>,
}

#[verifier::ext_equal]
pub struct ClientView {
    pub uuid: u128,
    pub token_sha256: Seq<char>,
    pub name: Seq<char>,
    pub created: u64,
    pub last_seen: u64,
}

#[verifier::ext_equal]
pub struct CodeView {
    pub code: Seq<char>,
    pub expires_unix: u64,
}

#[verifier::ext_equal]
pub struct RegistryView {
    pub clients: Seq<ClientView>,
    pub codes: Seq<CodeView>,
}

impl View for Client {
    type V = ClientView;

    open spec fn view(&self) -> ClientView {
        ClientView {
            uuid: self.uuid,
            token_sha256: self.token_sha256@,
            name: self.name@,
            created: self.created,
            last_seen: self.last_seen,
        }
    }
}

impl View for PairingCode {
    type V = CodeView;

    open spec fn view(&self) -> CodeView {
        CodeView { code: self.code@, expires_unix: self.expires_unix }
    }
}

impl View for Registry {
    type V = RegistryView;

    open spec fn view(&self) -> RegistryView {
        RegistryView { clients: client_views(self.clients@), codes: code_views(self.codes@) }
    }
}

pub open spec fn client_views(clients: Seq<Client>) -> Seq<ClientView> {
    clients.map_values(|c: Client| c@)
}

pub open spec fn code_views(codes: Seq<PairingCode>) -> Seq<CodeView> {
    codes.map_values(|c: PairingCode| c@)
}

/// The codes that have not expired.
pub open spec fn live(codes: Seq<CodeView>, now: u64) -> Seq<CodeView> {
    codes.filter(|c: CodeView| c.expires_unix > now)
}

/// A registry without its expired codes.
pub open spec fn purged(r: RegistryView, now: u64) -> RegistryView {
    RegistryView { clients: r.clients, codes: live(r.codes, now) }
}

/// The clients that do not have a given identifier.
pub open spec fn others(clients: Seq<ClientView>, uuid: u128) -> Seq<ClientView> {
    clients.filter(|c: ClientView| c.uuid != uuid)
}

/// Whether some client has a given identifier.
pub open spec fn is_paired(clients: Seq<ClientView>, uuid: u128) -> bool {
    exists|k: int| 0 <= k < clients.len() && (#[trigger] clients[k]).uuid == uuid
}

/// A registry without the clients of a given identifier.
pub open spec fn revoked(r: RegistryView, uuid: u128) -> RegistryView {
    RegistryView { clients: others(r.clients, uuid), codes: r.codes }
}

/// The first place of a code, or the number of codes where it is not among them.
pub open spec fn code_index(codes: Seq<CodeView>, code: Seq<char>) -> int
    decreases codes.len(),
{
    if codes.len() == 0 || codes[0].code == code {
        0
    } else {
        1 + code_index(codes.drop_first(), code)
    }
}

pub open spec fn has_code(codes: Seq<CodeView>, code: Seq<char>) -> bool {
    exists|k: int| 0 <= k < codes.len() && #[trigger] codes[k].code == code
}

pub proof fn lemma_code_index(codes: Seq<CodeView>, code: Seq<char>)
    ensures
        0 <= code_index(codes, code) <= codes.len(),
        forall|j: int| 0 <= j < code_index(codes, code) ==> (#[trigger] codes[j]).code != code,
        code_index(codes, code) < codes.len() ==> codes[code_index(codes, code)].code == code,
        has_code(codes, code) == (code_index(codes, code) < codes.len()),
    decreases codes.len(),
{
    if codes.len() > 0 && codes[0].code != code {
        let rest = codes.drop_first();
        lemma_code_index(rest, code);
        assert forall|j: int| 0 <= j < code_index(codes, code) implies (
        #[trigger] codes[j]).code != code by {
            if j > 0 {
                assert(codes[j] == rest[j - 1]);
            }
        }
    }
}

/// A sequence without the item at place `i`, whose place the last item takes.
pub open spec fn swap_removed<A>(s: Seq<A>, i: int) -> Seq<A> {
    s.update(i, s.last()).drop_last()
}

/// How a code is compared: without white space around it, in upper case.
pub open spec fn normalized(code: Seq<char>) -> Seq<char> {
    text::upper(text::trimmed(code))
}

/// Whether presenting a text as a pairing code succeeds.
pub open spec fn accepts_code(r: RegistryView, code: Seq<char>, now: u64) -> bool {
    has_code(live(r.codes, now), normalized(code))
}

/// The registry after a text was presented as a pairing code.
pub open spec fn consumed(r: RegistryView, code: Seq<char>, now: u64) -> RegistryView {
    let codes = live(r.codes, now);
    RegistryView {
        clients: r.clients,
        codes: if has_code(codes, normalized(code)) {
            swap_removed(codes, code_index(codes, normalized(code)))
        } else {
            codes
        },
    }
}

/// A character of a pairing code: a digit or an upper-case letter.
pub open spec fn is_code_char(c: char) -> bool {
    ('0' <= c && c <= '9') || ('A' <= c && c <= 'Z')
}

/// The shape of a pairing code.
pub open spec fn is_code(code: Seq<char>) -> bool {
    code.len() == CODE_LENGTH && forall|k: int| 0 <= k < code.len() ==> is_code_char(#[trigger] code[k])
}

/// The registry after a code was handed out.
pub open spec fn issued(r: RegistryView, code: Seq<char>, now: u64) -> RegistryView {
    RegistryView {
        clients: r.clients,
        codes: live(r.codes, now).push(
            CodeView { code, expires_unix: (now + CODE_LIFETIME_SECS) as u64 },
        ),
    }
}

/// Whether a client has the identifier and the token hash that were presented.
pub open spec fn answers_to(c: ClientView, uuid: u128, token_hash: Seq<char>) -> bool {
    c.uuid == uuid && c.token_sha256 == token_hash
}

/// The first place of a client that answers to the credentials, or the number of clients.
pub open spec fn client_index(clients: Seq<ClientView>, uuid: u128, token_hash: Seq<char>) -> int
    decreases clients.len(),
{
    if clients.len() == 0 || answers_to(clients[0], uuid, token_hash) {
        0
    } else {
        1 + client_index(clients.drop_first(), uuid, token_hash)
    }
}

pub proof fn lemma_client_index(clients: Seq<ClientView>, uuid: u128, token_hash: Seq<char>)
    ensures
        0 <= client_index(clients, uuid, token_hash) <= clients.len(),
        forall|j: int|
            0 <= j < client_index(clients, uuid, token_hash) ==> !answers_to(
                #[trigger] clients[j],
                uuid,
                token_hash,
            ),
        client_index(clients, uuid, token_hash) < clients.len() ==> answers_to(
            clients[client_index(clients, uuid, token_hash)],
            uuid,
            token_hash,
        ),
    decreases clients.len(),
{
    if clients.len() > 0 && !answers_to(clients[0], uuid, token_hash) {
        let rest = clients.drop_first();
        lemma_client_index(rest, uuid, token_hash);
        assert forall|j: int| 0 <= j < client_index(clients, uuid, token_hash) implies !answers_to(
            #[trigger] clients[j],
            uuid,
            token_hash,
        ) by {
            if j > 0 {
                assert(clients[j] == rest[j - 1]);
            }
        }
    }
}

/// The name of the client that answers to the credentials.
pub open spec fn known_as(r: RegistryView, uuid: u128, token_hash: Seq<char>) -> Option<Seq<char>> {
    let i = client_index(r.clients, uuid, token_hash);
    if i < r.clients.len() {
        Some(r.clients[i].name)
    } else {
        None
    }
}

/// The registry after a client was added.
pub open spec fn enrolled(
    r: RegistryView,
    uuid: u128,
    token: Seq<char>,
    name: Seq<char>,
    now: u64,
) -> RegistryView {
    RegistryView {
        clients: r.clients.push(
            ClientView {
                uuid,
                token_sha256: token::hashed(token),
                name,
                created: now,
                last_seen: now,
            },
        ),
        codes: r.codes,
    }
}

/// A digit in base thirty-six.
pub open spec fn code_digit(n: int) -> char {
    if n < 10 {
        (48 + n) as u8 as char
    } else {
        (55 + n) as u8 as char
    }
}

/// A number in base thirty-six, with `len` digits.
pub open spec fn numbered_code(n: int, len: nat) -> Seq<char>
    decreases len,
{
    if len == 0 {
        Seq::empty()
    } else {
        numbered_code(n / 36, (len - 1) as nat).push(code_digit(n % 36))
    }
}

/// Whether `code` is number `n`, and every code with a smaller number is among `codes`.
pub open spec fn is_first_free(codes: Seq<CodeView>, n: int, code: Seq<char>) -> bool {
    &&& code == numbered_code(n, CODE_LENGTH as nat)
    &&& forall|j: int|
        0 <= j < n ==> has_code(codes, #[trigger] numbered_code(j, CODE_LENGTH as nat))
}

proof fn lemma_numbered_code_shape(n: int, len: nat)
    requires
        0 <= n,
    ensures
        numbered_code(n, len).len() == len,
        forall|k: int| 0 <= k < len ==> is_code_char(#[trigger] numbered_code(n, len)[k]),
    decreases len,
{
    if len > 0 {
        lemma_numbered_code_shape(n / 36, (len - 1) as nat);
    }
}

proof fn lemma_numbered_code_injective(a: int, b: int, len: nat)
    requires
        0 <= a < vstd::arithmetic::power::pow(36, len),
        0 <= b < vstd::arithmetic::power::pow(36, len),
        numbered_code(a, len) == numbered_code(b, len),
    ensures
        a == b,
    decreases len,
{
    reveal(vstd::arithmetic::power::pow);
    if len > 0 {
        let shorter = (len - 1) as nat;
        let x = numbered_code(a, len);
        let y = numbered_code(b, len);
        assert(x.last() == code_digit(a % 36) && y.last() == code_digit(b % 36));
        assert(x.drop_last() =~= numbered_code(a / 36, shorter));
        assert(y.drop_last() =~= numbered_code(b / 36, shorter));
        assert(vstd::arithmetic::power::pow(36, len) == 36 * vstd::arithmetic::power::pow(36, shorter));
        lemma_numbered_code_injective(a / 36, b / 36, shorter);
    }
}

proof fn lemma_code_space()
    ensures
        vstd::arithmetic::power::pow(36, CODE_LENGTH as nat) == CODE_SPACE,
{
    reveal(vstd::arithmetic::power::pow);
    reveal_with_fuel(vstd::arithmetic::power::pow, 9);
}

/// Where the first `n` numbered codes are all taken, there are at least `n` codes.
proof fn lemma_taken_codes(codes: Seq<CodeView>, n: nat)
    requires
        n <= CODE_SPACE,
        forall|j: int| 0 <= j < n ==> has_code(codes, #[trigger] numbered_code(j, CODE_LENGTH as nat)),
    ensures
        n <= codes.len(),
{
    broadcast use vstd::seq_lib::seq_to_set_is_finite;

    let texts = codes.map_values(|c: CodeView| c.code);
    let numbered = Seq::new(n, |j: int| numbered_code(j, CODE_LENGTH as nat));
    lemma_code_space();
    assert forall|i: int, j: int|
        0 <= i < numbered.len() && 0 <= j < numbered.len() && i != j implies numbered[i]
        != numbered[j] by {
        if numbered[i] == numbered[j] {
            lemma_numbered_code_injective(i, j, CODE_LENGTH as nat);
        }
    }
    numbered.unique_seq_to_set();
    texts.lemma_cardinality_of_set();
    assert forall|t: Seq<char>| numbered.to_set().contains(t) implies texts.to_set().contains(t) by {
        let j = choose|j: int| 0 <= j < numbered.len() && numbered[j] == t;
        assert(has_code(codes, numbered_code(j, CODE_LENGTH as nat)));
        let k = choose|k: int| 0 <= k < codes.len() && #[trigger] codes[k].code == t;
        assert(texts[k] == t);
    }
    vstd::set_lib::lemma_len_subset(numbered.to_set(), texts.to_set());
}

/// One step of dropping, in place, the items that are not to be kept: `current` holds, up to `i`,
/// what is kept of the first `seen` items of `before`, and from `i` on the items not yet seen.
proof fn lemma_retain_step<A>(
    current: Seq<A>,
    i: int,
    before: Seq<A>,
    seen: int,
    keep: spec_fn(A) -> bool,
)
    requires
        0 <= i < current.len(),
        0 <= seen <= before.len(),
        current.take(i) == before.take(seen).filter(keep),
        current.skip(i) == before.skip(seen),
    ensures
        seen < before.len(),
        current[i] == before[seen],
        keep(current[i]) ==> current.take(i + 1) == before.take(seen + 1).filter(keep)
            && current.skip(i + 1) == before.skip(seen + 1),
        !keep(current[i]) ==> current.remove(i).take(i) == before.take(seen + 1).filter(keep)
            && current.remove(i).skip(i) == before.skip(seen + 1),
{
    reveal(Seq::filter);
    assert(current.skip(i).len() == current.len() - i);
    assert(before.skip(seen).len() == before.len() - seen);
    assert(current.skip(i)[0] == current[i]);
    assert(before.skip(seen)[0] == before[seen]);
    assert(before.take(seen + 1).drop_last() =~= before.take(seen));
    assert(before.skip(seen + 1) =~= before.skip(seen).skip(1));
    if keep(current[i]) {
        assert(current.take(i + 1) =~= current.take(i).push(current[i]));
        assert(current.skip(i + 1) =~= current.skip(i).skip(1));
    } else {
        assert(current.remove(i).take(i) =~= current.take(i));
        assert(current.remove(i).skip(i) =~= current.skip(i).skip(1));
    }
}

proof fn lemma_retain_start<A>(before: Seq<A>, keep: spec_fn(A) -> bool)
    ensures
        before.take(0) == before.take(0).filter(keep),
        before.skip(0) == before,
{
    reveal(Seq::filter);
    assert(before.take(0) =~= before.take(0).filter(keep));
    assert(before.skip(0) =~= before);
}

proof fn lemma_retain_end<A>(
    current: Seq<A>,
    i: int,
    before: Seq<A>,
    seen: int,
    keep: spec_fn(A) -> bool,
)
    requires
        i == current.len(),
        0 <= seen <= before.len(),
        current.take(i) == before.take(seen).filter(keep),
        current.skip(i) == before.skip(seen),
    ensures
        current == before.filter(keep),
{
    assert(current.skip(i).len() == current.len() - i);
    assert(before.skip(seen).len() == before.len() - seen);
    assert(before.take(seen) =~= before);
    assert(current.take(i) =~= current);
}

impl Default for Registry {
    fn default() -> (r: Registry)
        ensures
            r@ == (RegistryView { clients: seq![], codes: seq![] }),
    {
        let r = Registry { clients: Vec::new(), codes: Vec::new() };
        assert(r@ =~= RegistryView { clients: seq![], codes: seq![] });
        r
    }
}

impl Registry {
    /// Drops the expired codes.
    pub fn purge_expired_codes(&mut self, now: u64)
        ensures
            final(self)@ == purged(old(self)@, now),
    {
        let ghost before = self@.codes;
        let ghost keep = |c: CodeView| c.expires_unix > now;
        let ghost mut seen: int = 0;
        let mut i: usize = 0;
        proof {
            lemma_retain_start(before, keep);
        }
        while i < self.codes.len()
            invariant
                0 <= seen <= before.len(),
                i <= self.codes@.len(),
                keep == (|c: CodeView| c.expires_unix > now),
                self@.clients == old(self)@.clients,
                self@.codes.take(i as int) == before.take(seen).filter(keep),
                self@.codes.skip(i as int) == before.skip(seen),
            decreases self.codes@.len() - i,
        {
            let ghost codes = self@.codes;
            proof {
                lemma_retain_step(codes, i as int, before, seen, keep);
                seen = seen + 1;
            }
            if self.codes[i].expires_unix > now {
                i += 1;
            } else {
                self.codes.remove(i);
                assert(self@.codes =~= codes.remove(i as int));
            }
        }
        proof {
            lemma_retain_end(self@.codes, i as int, before, seen, keep);
        }
    }

    /// Drops every client with a given identifier; tells whether there was one.
    pub fn revoke(&mut self, uuid: u128) -> (r: bool)
        ensures
            final(self)@ == revoked(old(self)@, uuid),
            r == is_paired(old(self)@.clients, uuid),
    {
        let ghost before = self@.clients;
        let ghost keep = |c: ClientView| c.uuid != uuid;
        let ghost mut seen: int = 0;
        let mut found = false;
        let mut i: usize = 0;
        proof {
            lemma_retain_start(before, keep);
        }
        while i < self.clients.len()
            invariant
                0 <= seen <= before.len(),
                i <= self.clients@.len(),
                keep == (|c: ClientView| c.uuid != uuid),
                self@.codes == old(self)@.codes,
                self@.clients.take(i as int) == before.take(seen).filter(keep),
                self@.clients.skip(i as int) == before.skip(seen),
                found == exists|k: int| 0 <= k < seen && before[k].uuid == uuid,
            decreases self.clients@.len() - i,
        {
            let ghost clients = self@.clients;
            proof {
                lemma_retain_step(clients, i as int, before, seen, keep);
                seen = seen + 1;
            }
            if self.clients[i].uuid != uuid {
                i += 1;
            } else {
                self.clients.remove(i);
                found = true;
                assert(self@.clients =~= clients.remove(i as int));
                assert(before[seen - 1].uuid == uuid);
            }
        }
        proof {
            lemma_retain_end(self@.clients, i as int, before, seen, keep);
            assert(self@.clients.skip(i as int).len() == 0);
            assert(before.skip(seen).len() == before.len() - seen);
        }
        found
    }

    /// The place of a code in the list, or the length of the list where it is not there.
    fn position(&self, code: &String) -> (r: usize)
        ensures
            r == code_index(self@.codes, code@),
    {
        let mut i: usize = 0;
        proof {
            lemma_code_index(self@.codes, code@);
        }
        while i < self.codes.len()
            invariant
                i <= self.codes@.len(),
                forall|j: int| 0 <= j < i ==> (#[trigger] self@.codes[j]).code != code@,
                0 <= code_index(self@.codes, code@) <= self@.codes.len(),
                code_index(self@.codes, code@) < self@.codes.len() ==> self@.codes[code_index(
                    self@.codes,
                    code@,
                )].code == code@,
                forall|j: int| 0 <= j < code_index(self@.codes, code@) ==> (
                #[trigger] self@.codes[j]).code != code@,
            decreases self.codes@.len() - i,
        {
            assert(self@.codes[i as int] == self.codes@[i as int]@);
            if self.codes[i].code == *code {
                return i;
            }
            i += 1;
        }
        i
    }

    /// Uses up a pairing code: true where the text, white space and ASCII case aside, is a code
    /// that has not expired. That code is then gone, and so is every expired one.
    pub fn consume_pairing_code(&mut self, code: &str, now: u64) -> (r: bool)
        ensures
            r == accepts_code(old(self)@, code@, now),
            final(self)@ == consumed(old(self)@, code@, now),
    {
        self.purge_expired_codes(now);
        let trimmed = text::trim(code);
        let wanted = text::to_upper(trimmed.as_str());
        let index: usize = self.position(&wanted);
        proof {
            lemma_code_index(self@.codes, wanted@);
        }
        if index < self.codes.len() {
            let ghost codes = self@.codes;
            self.codes.swap_remove(index);
            assert(self@.codes =~= swap_removed(codes, index as int));
            true
        } else {
            false
        }
    }

    /// Adds a code unless it is already among those handed out; tells whether it was added.
    pub fn offer_code(&mut self, code: String, now: u64) -> (r: bool)
        requires
            now + CODE_LIFETIME_SECS <= u64::MAX,
        ensures
            r == !has_code(old(self)@.codes, code@),
            final(self)@.clients == old(self)@.clients,
            final(self)@.codes == if r {
                old(self)@.codes.push(
                    CodeView { code: code@, expires_unix: (now + CODE_LIFETIME_SECS) as u64 },
                )
            } else {
                old(self)@.codes
            },
    {
        let index: usize = self.position(&code);
        proof {
            lemma_code_index(self@.codes, code@);
        }
        if index < self.codes.len() {
            return false;
        }
        let ghost codes = self@.codes;
        self.codes.push(PairingCode { code, expires_unix: now + CODE_LIFETIME_SECS });
        assert(self@.codes =~= codes.push(self.codes@.last()@));
        true
    }

    /// The code with the smallest number that is not among those handed out.
    pub fn first_free_code(&self) -> (r: String)
        requires
            self@.codes.len() < CODE_SPACE,
        ensures
            is_code(r@),
            !has_code(self@.codes, r@),
            exists|n: int| 0 <= n < CODE_SPACE && #[trigger] is_first_free(self@.codes, n, r@),
    {
        let mut n: u64 = 0;
        loop
            invariant
                n < CODE_SPACE,
                n <= self@.codes.len() < CODE_SPACE,
                forall|j: int| 0 <= j < n ==> has_code(
                    self@.codes,
                    #[trigger] numbered_code(j, CODE_LENGTH as nat),
                ),
            decreases CODE_SPACE - n,
        {
            let code = nth_code(n);
            let index: usize = self.position(&code);
            proof {
                lemma_code_index(self@.codes, code@);
                lemma_numbered_code_shape(n as int, CODE_LENGTH as nat);
            }
            if index == self.codes.len() {
                assert(is_first_free(self@.codes, n as int, code@));
                return code;
            }
            proof {
                lemma_taken_codes(self@.codes, (n + 1) as nat);
            }
            n += 1;
        }
    }

    /// Hands out a new pairing code, which can be used for ten minutes, and drops the expired ones.
    ///
    /// Codes are drawn at random until one is drawn that is not in use. Only a run of
    /// `u64::MAX` draws of codes that are all in use is cut short, by `first_free_code`.
    pub fn create_pairing_code(&mut self, now: u64) -> (r: String)
        requires
            now + CODE_LIFETIME_SECS <= u64::MAX,
            old(self)@.codes.len() < CODE_SPACE,
        ensures
            is_code(r@),
            !has_code(live(old(self)@.codes, now), r@),
            final(self)@ == issued(old(self)@, r@, now),
    {
        self.purge_expired_codes(now);
        proof {
            old(self)@.codes.lemma_filter_len(|c: CodeView| c.expires_unix > now);
        }
        let mut draws: u64 = u64::MAX;
        while draws > 0
            invariant
                now + CODE_LIFETIME_SECS <= u64::MAX,
                self@ == purged(old(self)@, now),
            decreases draws,
        {
            let code = random_code();
            let copy = code.clone();
            if self.offer_code(copy, now) {
                return code;
            }
            draws -= 1;
        }
        let code = self.first_free_code();
        let copy = code.clone();
        let added = self.offer_code(copy, now);
        code
    }

    /// Adds a client with a given identifier and token. Only the hash of the token is kept.
    pub fn enroll(&mut self, uuid: u128, token: &str, name: String, now: u64)
        ensures
            final(self)@ == enrolled(old(self)@, uuid, token@, name@, now),
    {
        let ghost clients = self@.clients;
        let client = Client {
            uuid,
            token_sha256: token::token_hash(token),
            name,
            created: now,
            last_seen: now,
        };
        self.clients.push(client);
        assert(self@.clients =~= clients.push(client@));
    }

    /// Adds a client with a random identifier and a random token, and returns both: the
    /// identifier is a version 4 UUID, the token 32 bytes in hexadecimal.
    pub fn add_client(&mut self, name: String, now: u64) -> (r: (u128, String))
        ensures
            final(self)@ == enrolled(old(self)@, r.0, r.1@, name@, now),
            token::is_random_uuid(r.0),
            token::is_secret(r.1@),
    {
        let (uuid, token) = token::new_secret();
        self.enroll(uuid, token.as_str(), name, now);
        (uuid, token)
    }

    /// The place of the first client that answers to the credentials, or the number of clients.
    pub(crate) fn find_client(&self, uuid: u128, token_hash: &str) -> (r: usize)
        ensures
            r == client_index(self@.clients, uuid, token_hash@),
    {
        let mut i: usize = 0;
        proof {
            lemma_client_index(self@.clients, uuid, token_hash@);
        }
        while i < self.clients.len()
            invariant
                i <= self.clients@.len(),
                forall|j: int| 0 <= j < i ==> !answers_to(#[trigger] self@.clients[j], uuid, token_hash@),
                0 <= client_index(self@.clients, uuid, token_hash@) <= self@.clients.len(),
                client_index(self@.clients, uuid, token_hash@) < self@.clients.len() ==> answers_to(
                    self@.clients[client_index(self@.clients, uuid, token_hash@)],
                    uuid,
                    token_hash@,
                ),
                forall|j: int|
                    0 <= j < client_index(self@.clients, uuid, token_hash@) ==> !answers_to(
                        #[trigger] self@.clients[j],
                        uuid,
                        token_hash@,
                    ),
            decreases self.clients@.len() - i,
        {
            assert(self@.clients[i as int] == self.clients@[i as int]@);
            let stored = self.clients[i].token_sha256.as_str();
            let same = token::constant_time_equal(stored.as_bytes(), token_hash.as_bytes());
            proof {
                vstd::utf8::encode_utf8_decode_utf8(stored@);
                vstd::utf8::encode_utf8_decode_utf8(token_hash@);
            }
            if self.clients[i].uuid == uuid && same {
                return i;
            }
            i += 1;
        }
        i
    }
}

/// A random text in the shape of a pairing code.
fn random_code() -> (r: String)
    ensures
        is_code(r@),
{
    let mut code = String::new();
    let mut k: usize = 0;
    while k < CODE_LENGTH
        invariant
            k <= CODE_LENGTH,
            code@.len() == k,
            forall|j: int| 0 <= j < k ==> is_code_char(#[trigger] code@[j]),
        decreases CODE_LENGTH - k,
    {
        let byte: u8 = token::sample_alphanumeric();
        code.push(text::char_to_upper(byte as char));
        k += 1;
    }
    code
}

/// The code that a number is written as.
fn nth_code(n: u64) -> (r: String)
    ensures
        r@ == numbered_code(n as int, CODE_LENGTH as nat),
{
    let mut digits: Vec<char> = Vec::new();
    let mut rest: u64 = n;
    let mut k: usize = 0;
    while k < CODE_LENGTH
        invariant
            k <= CODE_LENGTH,
            digits@.len() == k,
            numbered_code(n as int, CODE_LENGTH as nat) == numbered_code(
                rest as int,
                (CODE_LENGTH - k) as nat,
            ) + digits@.reverse(),
        decreases CODE_LENGTH - k,
    {
        let d: u8 = (rest % 36) as u8;
        let c: char = if d < 10 {
            (48 + d) as char
        } else {
            (55 + d) as char
        };
        let ghost before = digits@;
        digits.push(c);
        proof {
            let head = numbered_code(rest as int / 36, (CODE_LENGTH - k - 1) as nat);
            assert(head.push(c) + before.reverse() =~= head + digits@.reverse());
        }
        rest = rest / 36;
        k += 1;
    }
    let mut code = String::new();
    let mut left: usize = digits.len();
    while left > 0
        invariant
            left <= digits@.len(),
            code@ == digits@.reverse().take(digits@.len() - left),
        decreases left,
    {
        left -= 1;
        code.push(digits[left]);
        assert(code@ =~= digits@.reverse().take(digits@.len() - left));
    }
    assert(code@ =~= numbered_code(n as int, CODE_LENGTH as nat));
    code
}

/// What a registry is seen as is what it holds: every client and every code, in its place.
pub proof fn law_views_of_registries_are_faithful(r: Registry, k: int)
    ensures
        r@.clients.len() == r.clients@.len(),
        r@.codes.len() == r.codes@.len(),
        0 <= k < r.clients@.len() ==> {
            &&& r@.clients[k].uuid == r.clients@[k].uuid
            &&& r@.clients[k].token_sha256 == r.clients@[k].token_sha256@
            &&& r@.clients[k].name == r.clients@[k].name@
            &&& r@.clients[k].created == r.clients@[k].created
            &&& r@.clients[k].last_seen == r.clients@[k].last_seen
        },
        0 <= k < r.codes@.len() ==> {
            &&& r@.codes[k].code == r.codes@[k].code@
            &&& r@.codes[k].expires_unix == r.codes@[k].expires_unix
        },
{
}

} // verus!
