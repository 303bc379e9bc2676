//! The cache of HTTP clients, each pinned to the addresses that its host was checked to have.

use vstd::prelude::*;

use crate::address;
use crate::address::SocketAddress;
use crate::text;

verus! {

/// How many pinned clients are kept.
pub const MAX_PINNED_CLIENTS: usize = 128;

/// A client with the addresses that it may connect to.
#[derive(Clone, Debug)]
pub struct PinnedHttpClient<C> {
    pub client: C,
    pub addresses: Vec<SocketAddress>,
}

/// A pinned client under the key of its target.
pub struct PinnedEntry<C> {
    pub key: String,
    pub pinned: PinnedHttpClient<C>,
}

/// The pinned clients, the one that was added first before the others.
pub struct PinnedClients<C> {
    pub entries: Vec<PinnedEntry<C>>,
}

#[verifier::ext_equal]
pub struct EntryView<C> {
    pub key: Seq<char>,
    pub client: C,
    pub addresses: Seq<SocketAddress>,
}

impl<C> View for PinnedEntry<C> {
    type V = EntryView<C>;

    open spec fn view(&self) -> EntryView<C> {
        EntryView {
            key: self.key@,
            client: self.pinned.client,
            addresses: self.pinned.addresses@,
        }
    }
}

impl<C> View for PinnedClients<C> {
    type V = Seq<EntryView<C>>;

    open spec fn view(&self) -> Seq<EntryView<C>> {
        self.entries@.map_values(|e: PinnedEntry<C>| e@)
    }
}

/// The key of a target: the host in lower case, a colon and the port.
pub open spec fn pin_key(host: Seq<char>, port: u16) -> Seq<char> {
    text::lower(host) + seq![':'] + text::decimal(port as nat)
}

pub fn key_of(host: &str, port: u16) -> (r: String)
    ensures
        r@ == pin_key(host@, port),
{
    let mut key = text::to_lower(host);
    key.push(':');
    let digits = text::decimal_text(port as u64);
    key.append(digits.as_str());
    assert(key@ =~= pin_key(host@, port));
    key
}

/// The place of a key, or the number of entries where it is not there.
pub open spec fn key_index<C>(entries: Seq<EntryView<C>>, key: Seq<char>) -> int
    decreases entries.len(),
{
    if entries.len() == 0 || entries[0].key == key {
        0
    } else {
        1 + key_index(entries.drop_first(), key)
    }
}

pub proof fn lemma_key_index<C>(entries: Seq<EntryView<C>>, key: Seq<char>)
    ensures
        0 <= key_index(entries, key) <= entries.len(),
        forall|j: int| 0 <= j < key_index(entries, key) ==> (#[trigger] entries[j]).key != key,
        key_index(entries, key) < entries.len() ==> entries[key_index(entries, key)].key == key,
    decreases entries.len(),
{
    if entries.len() > 0 && entries[0].key != key {
        let rest = entries.drop_first();
        lemma_key_index(rest, key);
        assert forall|j: int| 0 <= j < key_index(entries, key) implies (
        #[trigger] entries[j]).key != key by {
            if j > 0 {
                assert(entries[j] == rest[j - 1]);
            }
        }
    }
}

/// Whether a list of entries can be a cache: no key twice, not too many, and the addresses of each
/// sorted without repetition.
pub open spec fn is_cache<C>(entries: Seq<EntryView<C>>) -> bool {
    &&& entries.len() <= MAX_PINNED_CLIENTS
    &&& forall|i: int, j: int|
        0 <= i < j < entries.len() ==> (#[trigger] entries[i]).key != (#[trigger] entries[j]).key
    &&& forall|i: int| 0 <= i < entries.len() ==> address::ordered((#[trigger] entries[i]).addresses)
}

/// The client for a target, where there is one and it is pinned to the very addresses.
pub open spec fn cached<C>(
    entries: Seq<EntryView<C>>,
    host: Seq<char>,
    port: u16,
    addresses: Seq<SocketAddress>,
) -> Option<C> {
    let i = key_index(entries, pin_key(host, port));
    if i < entries.len() && address::same_members(entries[i].addresses, addresses) {
        Some(entries[i].client)
    } else {
        None
    }
}

/// The entries after a client was stored: in the place of the one with its key, where there is
/// one; else at the end, and where the cache is full the first entry gives way.
pub open spec fn stored<C>(entries: Seq<EntryView<C>>, entry: EntryView<C>) -> Seq<EntryView<C>> {
    let i = key_index(entries, entry.key);
    if i < entries.len() {
        entries.update(i, entry)
    } else if entries.len() >= MAX_PINNED_CLIENTS {
        entries.drop_first().push(entry)
    } else {
        entries.push(entry)
    }
}

fn same_addresses(a: &Vec<SocketAddress>, b: &Vec<SocketAddress>) -> (r: bool)
    ensures
        r == (a@ == b@),
{
    if a.len() != b.len() {
        return false;
    }
    let mut i: usize = 0;
    while i < a.len()
        invariant
            i <= a@.len(),
            a@.len() == b@.len(),
            forall|k: int| 0 <= k < i ==> a@[k] == b@[k],
        decreases a@.len() - i,
    {
        if a[i] != b[i] {
            return false;
        }
        i += 1;
    }
    assert(a@ =~= b@);
    true
}

impl<C> PinnedClients<C> {
    pub open spec fn wf(self) -> bool {
        is_cache(self@)
    }

    /// No clients.
    pub fn new() -> (r: PinnedClients<C>)
        ensures
            r@ == Seq::<EntryView<C>>::empty(),
            r.wf(),
    {
        let r = PinnedClients { entries: Vec::new() };
        assert(r@ =~= Seq::<EntryView<C>>::empty());
        r
    }

    fn find(&self, key: &String) -> (r: usize)
        ensures
            r == key_index(self@, key@),
    {
        let mut i: usize = 0;
        proof {
            lemma_key_index(self@, key@);
        }
        while i < self.entries.len()
            invariant
                i <= self.entries@.len(),
                forall|j: int| 0 <= j < i ==> (#[trigger] self@[j]).key != key@,
                0 <= key_index(self@, key@) <= self@.len(),
                forall|j: int| 0 <= j < key_index(self@, key@) ==> (#[trigger] self@[j]).key != key@,
                key_index(self@, key@) < self@.len() ==> self@[key_index(self@, key@)].key == key@,
            decreases self.entries@.len() - i,
        {
            assert(self@[i as int] == self.entries@[i as int]@);
            if self.entries[i].key == *key {
                return i;
            }
            i += 1;
        }
        i
    }

    /// The client for a target, provided that it is pinned to the addresses that the target has
    /// now, whatever their order.
    pub fn cached_pinned_client(
        &self,
        host: &str,
        port: u16,
        addresses: &Vec<SocketAddress>,
    ) -> (r: Option<&C>)
        requires
            self.wf(),
        ensures
            match r {
                Some(client) => cached(self@, host@, port, addresses@) == Some(*client),
                None => cached(self@, host@, port, addresses@) is None,
            },
    {
        let key = key_of(host, port);
        let validated = address::canonical(addresses);
        let i: usize = self.find(&key);
        proof {
            lemma_key_index(self@, key@);
        }
        if i < self.entries.len() {
            assert(self@[i as int] == self.entries@[i as int]@);
            let same = same_addresses(&self.entries[i].pinned.addresses, &validated);
            proof {
                let kept = self@[i as int].addresses;
                assert(address::is_canonical(kept, kept));
                address::law_canonical_form_is_unique(kept, addresses@, kept, validated@);
            }
            if same {
                return Some(&self.entries[i].pinned.client);
            }
        }
        None
    }

    /// Keeps a client for a target, pinned to its addresses. It takes the place of an earlier client
    /// for the target; where there is none and the cache is full, the oldest entry gives way.
    pub fn store(&mut self, host: &str, port: u16, addresses: &Vec<SocketAddress>, client: C)
        requires
            old(self).wf(),
        ensures
            final(self).wf(),
            exists|list: Seq<SocketAddress>|
                address::is_canonical(list, addresses@) && final(self)@ == #[trigger] stored(
                    old(self)@,
                    EntryView { key: pin_key(host@, port), client, addresses: list },
                ),
    {
        let ghost before = self@;
        let key = key_of(host, port);
        let validated = address::canonical(addresses);
        let i: usize = self.find(&key);
        let entry = PinnedEntry {
            key,
            pinned: PinnedHttpClient { client, addresses: validated },
        };
        proof {
            lemma_key_index(before, entry@.key);
        }
        if i < self.entries.len() {
            self.entries.set(i, entry);
            assert(self@ =~= before.update(i as int, entry@));
        } else {
            if self.entries.len() >= MAX_PINNED_CLIENTS {
                self.entries.remove(0);
                assert(self@ =~= before.drop_first());
            }
            let ghost kept = self@;
            self.entries.push(entry);
            assert(self@ =~= kept.push(entry@));
        }
        proof {
            assert(self@ == stored(before, entry@));
            lemma_stored_is_cache(before, entry@);
        }
    }
}

/// Storing a client keeps the cache a cache.
pub proof fn lemma_stored_is_cache<C>(entries: Seq<EntryView<C>>, entry: EntryView<C>)
    requires
        is_cache(entries),
        address::ordered(entry.addresses),
    ensures
        is_cache(stored(entries, entry)),
{
    lemma_key_index(entries, entry.key);
    let after = stored(entries, entry);
    let at = key_index(entries, entry.key);
    let shift: int = if at >= entries.len() && entries.len() >= MAX_PINNED_CLIENTS {
        1
    } else {
        0
    };
    assert forall|i: int, j: int| 0 <= i < j < after.len() implies (#[trigger] after[i]).key != (
    #[trigger] after[j]).key by {
        if at < entries.len() {
            assert(entries[i].key != entries[j].key);
        } else if j < after.len() - 1 {
            assert(after[i] == entries[i + shift] && after[j] == entries[j + shift]);
        } else {
            assert(after[i] == entries[i + shift]);
        }
    }
    assert forall|i: int| 0 <= i < after.len() implies address::ordered(
        (#[trigger] after[i]).addresses,
    ) by {
        if at < entries.len() {
            if i != at {
                assert(after[i] == entries[i]);
            }
        } else if i < after.len() - 1 {
            assert(after[i] == entries[i + shift]);
        }
    }
}

/// A client that was stored is found again for its target, as long as the target has the same
/// addresses, in whatever order; with other addresses it is not found.
pub proof fn law_stored_clients_are_cached<C>(
    entries: Seq<EntryView<C>>,
    host: Seq<char>,
    port: u16,
    list: Seq<SocketAddress>,
    client: C,
    addresses: Seq<SocketAddress>,
)
    requires
        is_cache(entries),
    ensures
        cached(
            stored(entries, EntryView { key: pin_key(host, port), client, addresses: list }),
            host,
            port,
            addresses,
        ) == if address::same_members(list, addresses) {
            Some(client)
        } else {
            None
        },
{
    let entry = EntryView { key: pin_key(host, port), client, addresses: list };
    let after = stored(entries, entry);
    let at = key_index(entries, entry.key);
    lemma_key_index(entries, entry.key);
    lemma_key_index(after, entry.key);
    let found = key_index(after, entry.key);
    if at < entries.len() {
        assert(after[at] == entry);
        if found < at {
            assert(after[found] == entries[found]);
        }
        assert(found == at);
    } else {
        let shift: int = if entries.len() >= MAX_PINNED_CLIENTS {
            1
        } else {
            0
        };
        assert(after[after.len() - 1] == entry);
        if found < after.len() - 1 {
            assert(after[found] == entries[found + shift]);
        }
        assert(found == after.len() - 1);
    }
}

/// Storing a client leaves the clients of other targets, but for the one that gives way where a new
/// target comes to a full cache.
pub proof fn law_storing_leaves_other_targets<C>(
    entries: Seq<EntryView<C>>,
    entry: EntryView<C>,
    host: Seq<char>,
    port: u16,
    addresses: Seq<SocketAddress>,
)
    requires
        is_cache(entries),
        pin_key(host, port) != entry.key,
        key_index(entries, entry.key) < entries.len() || entries.len() < MAX_PINNED_CLIENTS
            || entries[0].key != pin_key(host, port),
    ensures
        cached(stored(entries, entry), host, port, addresses) == cached(entries, host, port, addresses),
{
    let after = stored(entries, entry);
    let key = pin_key(host, port);
    let at = key_index(entries, entry.key);
    lemma_key_index(entries, entry.key);
    lemma_key_index(entries, key);
    lemma_key_index(after, key);
    let i = key_index(entries, key);
    let j = key_index(after, key);
    if at < entries.len() {
        if i < j {
            assert(after[i] == entries[i]);
        } else if j < i {
            if j == at {
                assert(after[j].key == entry.key);
            } else {
                assert(after[j] == entries[j]);
            }
        }
    } else {
        let shift: int = if entries.len() >= MAX_PINNED_CLIENTS {
            1
        } else {
            0
        };
        assert(after[after.len() - 1] == entry);
        if i < entries.len() {
            assert(after[i - shift] == entries[i]);
            if j < i - shift {
                assert(after[j] == entries[j + shift]);
            }
            assert(j == i - shift);
        } else if j < after.len() - 1 {
            assert(after[j] == entries[j + shift]);
        }
    }
}

proof fn lemma_decimals_differ(a: nat, b: nat)
    requires
        text::decimal(a) == text::decimal(b),
    ensures
        a == b,
{
    text::law_numbers_are_read_back(a);
    text::law_numbers_are_read_back(b);
}

/// Targets share a key exactly where they have the same port, and the same host but for ASCII case.
pub proof fn law_keys_tell_targets_apart(a: Seq<char>, p: u16, b: Seq<char>, q: u16)
    ensures
        pin_key(a, p) == pin_key(b, q) <==> p == q && text::match_but_for_case(a, b),
{
    text::law_case_is_ignored(a, b);
    let da = text::decimal(p as nat);
    let db = text::decimal(q as nat);
    text::law_numbers_are_read_back(p as nat);
    text::law_numbers_are_read_back(q as nat);
    assert(!da.contains(':')) by {
        if da.contains(':') {
            let k = choose|k: int| 0 <= k < da.len() && da[k] == ':';
            assert(da[k] as u32 <= 57);
        }
    }
    assert(!db.contains(':')) by {
        if db.contains(':') {
            let k = choose|k: int| 0 <= k < db.len() && db[k] == ':';
            assert(db[k] as u32 <= 57);
        }
    }
    text::law_the_last_place_counts(text::lower(a), ':', da);
    text::law_the_last_place_counts(text::lower(b), ':', db);
    let ka = pin_key(a, p);
    let kb = pin_key(b, q);
    if ka == kb {
        assert(da == db);
        lemma_decimals_differ(p as nat, q as nat);
        assert(ka.take(ka.len() - da.len() - 1) =~= text::lower(a));
        assert(kb.take(kb.len() - db.len() - 1) =~= text::lower(b));
    }
}

/// Storing a client keeps the entries in their places: the one with its key is replaced where there is
/// one; else it comes behind the others, and the first of 128 gives way.
pub proof fn law_storing_is_exact<C>(entries: Seq<EntryView<C>>, entry: EntryView<C>, k: int)
    requires
        is_cache(entries),
    ensures
        0 <= k < entries.len() && entries[k].key == entry.key ==> stored(entries, entry)
            == entries.update(k, entry),
        (forall|j: int| 0 <= j < entries.len() ==> (#[trigger] entries[j]).key != entry.key) ==> {
            &&& entries.len() < 128 ==> stored(entries, entry) == entries.push(entry)
            &&& entries.len() >= 128 ==> stored(entries, entry) == entries.skip(1).push(entry)
        },
        stored(entries, entry).len() <= 128,
{
    lemma_key_index(entries, entry.key);
    let i = key_index(entries, entry.key);
    if 0 <= k < entries.len() && entries[k].key == entry.key {
        if i < k {
            assert(entries[i].key != entries[k].key);
        }
        assert(i == k);
    }
    assert(entries.drop_first() =~= entries.skip(1));
}

/// A client is found exactly where an entry has the key of the target and the very addresses, in
/// whatever order and however often; it is then the client of that entry.
pub proof fn law_finding_is_exact<C>(
    entries: Seq<EntryView<C>>,
    k: int,
    host: Seq<char>,
    port: u16,
    addresses: Seq<SocketAddress>,
)
    requires
        is_cache(entries),
    ensures
        0 <= k < entries.len() && entries[k].key == pin_key(host, port) && (forall|x: SocketAddress|
            #[trigger] entries[k].addresses.contains(x) <==> addresses.contains(x)) ==> cached(
            entries,
            host,
            port,
            addresses,
        ) == Some(entries[k].client),
        0 <= k < entries.len() && entries[k].key == pin_key(host, port) && !(forall|x: SocketAddress|
            #[trigger] entries[k].addresses.contains(x) <==> addresses.contains(x)) ==> cached(
            entries,
            host,
            port,
            addresses,
        ) is None,
        (forall|j: int| 0 <= j < entries.len() ==> (#[trigger] entries[j]).key != pin_key(host, port))
            ==> cached(entries, host, port, addresses) is None,
{
    let key = pin_key(host, port);
    lemma_key_index(entries, key);
    let i = key_index(entries, key);
    if 0 <= k < entries.len() && entries[k].key == key {
        if i < k {
            assert(entries[i].key != entries[k].key);
        }
        assert(i == k);
    }
}

} // verus!
