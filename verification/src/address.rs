//! Network addresses: which of them are public, and their canonical order.

use vstd::prelude::*;

verus! {

/// An IP address, as a number.
#[derive(Clone, Copy, Debug, PartialEq, Eq, Structural)]
pub enum IpAddress {
    V4(u32),
    V6(u128),
}

/// An IP address with a port.
#[derive(Clone, Copy, Debug, PartialEq, Eq, Structural)]
pub enum SocketAddress {
    V4 { v4: u32, port: u16 },
    V6 { v6: u128, port: u16, flowinfo: u32, scope_id: u32 },
}

/// The IPv4 addresses that are no public destination.
pub open spec fn blocked_v4(ip: u32) -> bool {
    // 0.0.0.0/8, this network
    ||| ip <= 0x00ff_ffff
    // 10.0.0.0/8, private
    ||| 0x0a00_0000 <= ip <= 0x0aff_ffff
    // 100.64.0.0/10, shared between a carrier and its customers
    ||| 0x6440_0000 <= ip <= 0x647f_ffff
    // 127.0.0.0/8, loopback
    ||| 0x7f00_0000 <= ip <= 0x7fff_ffff
    // 169.254.0.0/16, link-local
    ||| 0xa9fe_0000 <= ip <= 0xa9fe_ffff
    // 172.16.0.0/12, private
    ||| 0xac10_0000 <= ip <= 0xac1f_ffff
    // 192.168.0.0/16, private
    ||| 0xc0a8_0000 <= ip <= 0xc0a8_ffff
    // 224.0.0.0/4, multicast
    ||| 0xe000_0000 <= ip <= 0xefff_ffff
    // broadcast
    ||| ip == 0xffff_ffff
}

/// The IPv6 address that stands for an IPv4 address.
pub open spec fn mapped(ip: u32) -> u128 {
    (0xffff_0000_0000 + ip) as u128
}

/// Whether an IPv6 address stands for an IPv4 address.
pub open spec fn is_mapped(ip: u128) -> bool {
    0xffff_0000_0000 <= ip <= 0xffff_ffff_ffff
}

/// The IPv6 addresses, other than those that stand for an IPv4 address, that are no public
/// destination.
pub open spec fn blocked_v6(ip: u128) -> bool {
    // unspecified and loopback
    ||| ip <= 1
    // fc00::/7, unique local
    ||| 0xfc00_0000_0000_0000_0000_0000_0000_0000 <= ip
        <= 0xfdff_ffff_ffff_ffff_ffff_ffff_ffff_ffff
    // fe80::/10, link-local
    ||| 0xfe80_0000_0000_0000_0000_0000_0000_0000 <= ip
        <= 0xfebf_ffff_ffff_ffff_ffff_ffff_ffff_ffff
    // ff00::/8, multicast
    ||| 0xff00_0000_0000_0000_0000_0000_0000_0000 <= ip
}

/// The addresses that are no public destination.
pub open spec fn blocked(ip: IpAddress) -> bool {
    match ip {
        IpAddress::V4(v4) => blocked_v4(v4),
        IpAddress::V6(v6) => if is_mapped(v6) {
            blocked_v4((v6 - 0xffff_0000_0000) as u32)
        } else {
            blocked_v6(v6)
        },
    }
}

/// Whether an IPv4 address is loopback, private, link-local or otherwise not public.
pub fn is_disallowed_ipv4(ip: u32) -> (r: bool)
    ensures
        r == blocked_v4(ip),
{
    let first: u32 = ip / 0x100_0000;
    let second: u32 = ip / 0x1_0000 % 0x100;
    let loopback = first == 127;
    let private = first == 10 || (first == 172 && second >= 16 && second <= 31) || (first == 192
        && second == 168);
    let link_local = first == 169 && second == 254;
    let multicast = first >= 224 && first <= 239;
    let broadcast = ip == 0xffff_ffff;
    loopback || private || link_local || broadcast || multicast || first == 0 || (first == 100
        && second >= 64 && second <= 127)
}

/// Whether an IP address is no public destination. An IPv6 address that stands for an IPv4
/// address is judged as that one.
pub fn is_disallowed_ip(ip: IpAddress) -> (r: bool)
    ensures
        r == blocked(ip),
{
    match ip {
        IpAddress::V4(v4) => is_disallowed_ipv4(v4),
        IpAddress::V6(v6) => {
            if v6 / 0x1_0000_0000 == 0xffff {
                return is_disallowed_ipv4((v6 % 0x1_0000_0000) as u32);
            }
            let loopback = v6 == 1;
            let unspecified = v6 == 0;
            let multicast = v6 / 0x100_0000_0000_0000_0000_0000_0000_0000 == 0xff;
            let unique_local = v6 / 0x200_0000_0000_0000_0000_0000_0000_0000 == 0x7e;
            let link_local = v6 / 0x40_0000_0000_0000_0000_0000_0000_0000 == 0x3fa;
            loopback || unspecified || multicast || unique_local || link_local
        },
    }
}

impl SocketAddress {
    pub open spec fn ip_spec(self) -> IpAddress {
        match self {
            SocketAddress::V4 { v4, port } => IpAddress::V4(v4),
            SocketAddress::V6 { v6, port, flowinfo, scope_id } => IpAddress::V6(v6),
        }
    }

    /// The IP address.
    pub fn ip(&self) -> (r: IpAddress)
        ensures
            r == self.ip_spec(),
    {
        match self {
            SocketAddress::V4 { v4, port } => IpAddress::V4(*v4),
            SocketAddress::V6 { v6, port, flowinfo, scope_id } => IpAddress::V6(*v6),
        }
    }
}

/// The rank of an address: IPv4 before IPv6, then by IP address, port, flow and scope.
pub open spec fn rank(a: SocketAddress) -> int {
    match a {
        SocketAddress::V4 { v4, port } => v4 * 0x1_0000 + port,
        SocketAddress::V6 { v6, port, flowinfo, scope_id } => 0x1_0000_0000_0000 + ((v6 * 0x1_0000
            + port) * 0x1_0000_0000 + flowinfo) * 0x1_0000_0000 + scope_id,
    }
}

proof fn lemma_rank_injective(a: SocketAddress, b: SocketAddress)
    requires
        rank(a) == rank(b),
    ensures
        a == b,
{
}

fn precedes(a: &SocketAddress, b: &SocketAddress) -> (r: bool)
    ensures
        r == (rank(*a) < rank(*b)),
{
    match (*a, *b) {
        (SocketAddress::V4 { v4, port }, SocketAddress::V4 { v4: other, port: port2 }) => v4 < other || (
        v4 == other && port < port2),
        (SocketAddress::V4 { .. }, SocketAddress::V6 { .. }) => true,
        (SocketAddress::V6 { .. }, SocketAddress::V4 { .. }) => false,
        (
            SocketAddress::V6 { v6, port, flowinfo, scope_id },
            SocketAddress::V6 { v6: other, port: port2, flowinfo: flowinfo2, scope_id: scope_id2 },
        ) => v6 < other || (v6 == other && (port < port2 || (port == port2 && (flowinfo < flowinfo2 || (
        flowinfo == flowinfo2 && scope_id < scope_id2))))),
    }
}

/// Strictly rising rank: sorted, and nothing twice.
pub open spec fn ordered(list: Seq<SocketAddress>) -> bool {
    forall|i: int, j: int| 0 <= i < j < list.len() ==> rank(#[trigger] list[i]) < rank(#[trigger] list[j])
}

pub open spec fn same_members(a: Seq<SocketAddress>, b: Seq<SocketAddress>) -> bool {
    forall|x: SocketAddress| #[trigger] a.contains(x) <==> b.contains(x)
}

/// Whether `list` holds the addresses of `addresses`, sorted and each once.
pub open spec fn is_canonical(list: Seq<SocketAddress>, addresses: Seq<SocketAddress>) -> bool {
    ordered(list) && same_members(list, addresses)
}

/// Puts an address in its place, unless it is there already.
fn insert_ordered(list: &mut Vec<SocketAddress>, address: SocketAddress)
    requires
        ordered(old(list)@),
    ensures
        ordered(final(list)@),
        same_members(final(list)@, old(list)@.push(address)),
{
    let ghost before = list@;
    let mut i: usize = 0;
    while i < list.len() && precedes(&list[i], &address)
        invariant
            i <= list@.len(),
            list@ == before,
            forall|k: int| 0 <= k < i ==> rank(#[trigger] list@[k]) < rank(address),
        decreases list@.len() - i,
    {
        i += 1;
    }
    if i < list.len() && !precedes(&address, &list[i]) {
        proof {
            lemma_rank_injective(address, before[i as int]);
            assert forall|x: SocketAddress| #[trigger] before.contains(x) <==> before.push(
                address,
            ).contains(x) by {
                lemma_push_contains(before, address, x);
            }
        }
        return ;
    }
    list.insert(i, address);
    proof {
        assert forall|x: SocketAddress| #[trigger] list@.contains(x) <==> before.push(
            address,
        ).contains(x) by {
            lemma_push_contains(before, address, x);
            lemma_insert_contains(before, i as int, address, x);
        }
        assert forall|a: int, b: int| 0 <= a < b < list@.len() implies rank(#[trigger] list@[a]) < rank(
            #[trigger] list@[b],
        ) by {
            let from_a = if a < i {
                a
            } else {
                a - 1
            };
            let from_b = if b < i {
                b
            } else {
                b - 1
            };
            if a == i {
                assert(list@[b] == before[b - 1]);
                if b - 1 > i {
                    assert(rank(before[i as int]) < rank(before[b - 1]));
                }
            } else if b == i {
                assert(list@[a] == before[a]);
            } else {
                assert(list@[a] == before[from_a] && list@[b] == before[from_b]);
            }
        }
    }
}

proof fn lemma_push_contains(s: Seq<SocketAddress>, a: SocketAddress, x: SocketAddress)
    ensures
        s.push(a).contains(x) <==> s.contains(x) || x == a,
{
    if s.contains(x) {
        let k = choose|k: int| 0 <= k < s.len() && s[k] == x;
        assert(s.push(a)[k] == x);
    }
    if x == a {
        assert(s.push(a)[s.len() as int] == x);
    }
    if s.push(a).contains(x) && x != a {
        let k = choose|k: int| 0 <= k < s.push(a).len() && s.push(a)[k] == x;
        assert(s[k] == x);
    }
}

proof fn lemma_insert_contains(s: Seq<SocketAddress>, i: int, a: SocketAddress, x: SocketAddress)
    requires
        0 <= i <= s.len(),
    ensures
        s.insert(i, a).contains(x) <==> s.contains(x) || x == a,
{
    let t = s.insert(i, a);
    if s.contains(x) {
        let k = choose|k: int| 0 <= k < s.len() && s[k] == x;
        assert(t[if k < i { k } else { k + 1 }] == x);
    }
    if x == a {
        assert(t[i] == x);
    }
    if t.contains(x) && x != a {
        let k = choose|k: int| 0 <= k < t.len() && t[k] == x;
        assert(s[if k < i { k } else { k - 1 }] == x);
    }
}

/// The addresses sorted, each once.
pub fn canonical(addresses: &Vec<SocketAddress>) -> (r: Vec<SocketAddress>)
    ensures
        is_canonical(r@, addresses@),
{
    let mut list: Vec<SocketAddress> = Vec::new();
    let mut i: usize = 0;
    assert(list@ =~= addresses@.take(0));
    while i < addresses.len()
        invariant
            i <= addresses@.len(),
            ordered(list@),
            same_members(list@, addresses@.take(i as int)),
        decreases addresses@.len() - i,
    {
        let ghost before = list@;
        insert_ordered(&mut list, addresses[i]);
        proof {
            let a = addresses@[i as int];
            assert(addresses@.take(i + 1) =~= addresses@.take(i as int).push(a));
            assert forall|x: SocketAddress| #[trigger] list@.contains(x) <==> addresses@.take(
                i + 1,
            ).contains(x) by {
                lemma_push_contains(before, a, x);
                lemma_push_contains(addresses@.take(i as int), a, x);
                assert(before.contains(x) <==> addresses@.take(i as int).contains(x));
                assert(list@.contains(x) <==> before.push(a).contains(x));
            }
        }
        i += 1;
    }
    assert(addresses@.take(i as int) =~= addresses@);
    list
}

/// Sorted lists without repetition that have the same members are the same list.
pub proof fn lemma_ordered_unique(a: Seq<SocketAddress>, b: Seq<SocketAddress>)
    requires
        ordered(a),
        ordered(b),
        same_members(a, b),
    ensures
        a == b,
    decreases a.len(),
{
    if a.len() == 0 {
        if b.len() > 0 {
            assert(b.contains(b[0]));
            assert(a.contains(b[0]));
        }
        assert(a =~= b);
    } else {
        assert(a.contains(a[0]));
        assert(b.contains(a[0]));
        let x = a.last();
        let y = b.last();
        assert(a.contains(a[a.len() - 1]) && b.contains(x));
        assert(b.contains(b[b.len() - 1]) && a.contains(y));
        let k = choose|k: int| 0 <= k < b.len() && b[k] == x;
        let m = choose|m: int| 0 <= m < a.len() && a[m] == y;
        if k < b.len() - 1 {
            assert(rank(b[k]) < rank(b[b.len() - 1]));
        }
        if m < a.len() - 1 {
            assert(rank(a[m]) < rank(a[a.len() - 1]));
        }
        lemma_rank_injective(x, y);
        let a1 = a.drop_last();
        let b1 = b.drop_last();
        assert(a =~= a1.push(x) && b =~= b1.push(x));
        assert(!a1.contains(x)) by {
            if a1.contains(x) {
                let k = choose|k: int| 0 <= k < a1.len() && a1[k] == x;
                assert(rank(a[k]) < rank(a[a.len() - 1]));
            }
        }
        assert(!b1.contains(x)) by {
            if b1.contains(x) {
                let k = choose|k: int| 0 <= k < b1.len() && b1[k] == x;
                assert(rank(b[k]) < rank(b[b.len() - 1]));
            }
        }
        assert forall|z: SocketAddress| #[trigger] a1.contains(z) <==> b1.contains(z) by {
            lemma_push_contains(a1, x, z);
            lemma_push_contains(b1, x, z);
            assert(a.contains(z) <==> b.contains(z));
        }
        assert forall|i: int, j: int| 0 <= i < j < a1.len() implies rank(#[trigger] a1[i]) < rank(
            #[trigger] a1[j],
        ) by {
            assert(rank(a[i]) < rank(a[j]));
        }
        assert forall|i: int, j: int| 0 <= i < j < b1.len() implies rank(#[trigger] b1[i]) < rank(
            #[trigger] b1[j],
        ) by {
            assert(rank(b[i]) < rank(b[j]));
        }
        lemma_ordered_unique(a1, b1);
    }
}

/// The order and the repetitions in a list of addresses do not matter to its canonical form.
pub proof fn law_canonical_form_is_unique(
    a: Seq<SocketAddress>,
    b: Seq<SocketAddress>,
    canonical_a: Seq<SocketAddress>,
    canonical_b: Seq<SocketAddress>,
)
    requires
        is_canonical(canonical_a, a),
        is_canonical(canonical_b, b),
    ensures
        canonical_a == canonical_b <==> same_members(a, b),
{
    if same_members(a, b) {
        assert forall|x: SocketAddress| #[trigger] canonical_a.contains(x) <==> canonical_b.contains(
            x,
        ) by {
            assert(a.contains(x) <==> b.contains(x));
            assert(canonical_b.contains(x) <==> b.contains(x));
        }
        lemma_ordered_unique(canonical_a, canonical_b);
    }
    if canonical_a == canonical_b {
        assert forall|x: SocketAddress| #[trigger] a.contains(x) <==> b.contains(x) by {
            assert(canonical_a.contains(x) <==> a.contains(x));
            assert(canonical_b.contains(x) <==> b.contains(x));
        }
    }
}

/// An IPv6 address that stands for an IPv4 address is blocked where that one is.
pub proof fn law_mapped_addresses_are_judged_alike(ip: u32)
    ensures
        is_mapped(mapped(ip)),
        blocked(IpAddress::V6(mapped(ip))) == blocked(IpAddress::V4(ip)),
{
}

/// The IPv4 addresses that are blocked, by their four octets: this network, private, shared,
/// loopback, link-local, multicast and broadcast addresses, and no others.
pub proof fn law_blocked_ipv4_by_octets(a: u8, b: u8, c: u8, d: u8)
    ensures
        blocked(IpAddress::V4((((a * 256 + b) * 256 + c) * 256 + d) as u32)) <==> {
            ||| a == 0
            ||| a == 10
            ||| a == 127
            ||| a == 100 && 64 <= b <= 127
            ||| a == 169 && b == 254
            ||| a == 172 && 16 <= b <= 31
            ||| a == 192 && b == 168
            ||| 224 <= a <= 239
            ||| a == 255 && b == 255 && c == 255 && d == 255
        },
{
}

/// The IPv6 addresses that are blocked, by their first group of 16 bits: unique local, link-local and
/// multicast ones, the unspecified and the loopback address, and those that stand for a blocked IPv4
/// address; no others.
pub proof fn law_blocked_ipv6_by_groups(first: u16, rest: u128)
    requires
        rest < 0x1_0000_0000_0000_0000_0000_0000_0000,
    ensures
        ({
            let ip = (first * 0x1_0000_0000_0000_0000_0000_0000_0000 + rest) as u128;
            blocked(IpAddress::V6(ip)) <==> {
                ||| first == 0 && rest <= 1
                ||| first == 0 && 0xffff_0000_0000 <= rest <= 0xffff_ffff_ffff && blocked(
                    IpAddress::V4((rest - 0xffff_0000_0000) as u32),
                )
                ||| 0xfc00 <= first <= 0xfdff
                ||| 0xfe80 <= first <= 0xfebf
                ||| 0xff00 <= first
            }
        }),
{
    assert(first * 0x1_0000_0000_0000_0000_0000_0000_0000 + rest
        <= 0xffff_ffff_ffff_ffff_ffff_ffff_ffff_ffff);
}

/// Whether an address comes before another: IPv4 first, then by IP address, port, flow and scope.
pub open spec fn comes_before(a: SocketAddress, b: SocketAddress) -> bool {
    match (a, b) {
        (SocketAddress::V4 { v4, port }, SocketAddress::V4 { v4: w4, port: q }) => v4 < w4 || (v4 == w4
            && port < q),
        (SocketAddress::V4 { v4, port }, SocketAddress::V6 { v6: w6, port: q, flowinfo: g, scope_id: t }) => true,
        (SocketAddress::V6 { v6, port, flowinfo, scope_id }, SocketAddress::V4 { v4: w4, port: q }) => false,
        (
            SocketAddress::V6 { v6, port, flowinfo, scope_id },
            SocketAddress::V6 { v6: w6, port: q, flowinfo: g, scope_id: t },
        ) => {
            ||| v6 < w6
            ||| v6 == w6 && port < q
            ||| v6 == w6 && port == q && flowinfo < g
            ||| v6 == w6 && port == q && flowinfo == g && scope_id < t
        },
    }
}

/// The canonical form of some addresses has each of them and no other, one before the next.
pub proof fn law_canonical_lists_are_sorted(
    list: Seq<SocketAddress>,
    addresses: Seq<SocketAddress>,
)
    ensures
        is_canonical(list, addresses) <==> {
            &&& forall|i: int, j: int|
                0 <= i < j < list.len() ==> comes_before(#[trigger] list[i], #[trigger] list[j])
            &&& forall|x: SocketAddress| list.contains(x) <==> #[trigger] addresses.contains(x)
        },
{
    assert forall|a: SocketAddress, b: SocketAddress| comes_before(a, b) == (#[trigger] rank(a)
        < #[trigger] rank(b)) by {}
    if is_canonical(list, addresses) {
        assert forall|x: SocketAddress| list.contains(x) <==> #[trigger] addresses.contains(x) by {
            assert(list.contains(x) <==> addresses.contains(x));
        }
    }
    if forall|x: SocketAddress| list.contains(x) <==> #[trigger] addresses.contains(x) {
        assert(same_members(list, addresses));
    }
}

} // verus!
