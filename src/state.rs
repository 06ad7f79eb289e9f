//! The advertised configuration: the prefix table, keyed by address, the set
//! of DNS servers, and the link MTU; how control requests change it, and how
//! expired prefixes are reaped.

use vstd::prelude::*;
use crate::control::{
    frame, frame_bytes, parse_request, remaining, response_bytes, Error, Prefix, Request, Response,
};

verus! {

/// The addresses of the entries increase strictly, so no address occurs
/// twice and the order is that of the addresses.
pub open spec fn addrs_increasing(s: Seq<Prefix>) -> bool {
    forall|i: int, j: int| 0 <= i < j < s.len() ==> s[i].prefix < s[j].prefix
}

/// Some entry of `s` has the address `a`.
pub open spec fn has_addr(s: Seq<Prefix>, a: u128) -> bool {
    exists|i: int| 0 <= i < s.len() && s[i].prefix == a
}

/// The entries as a map from address to prefix.
pub open spec fn table_map(s: Seq<Prefix>) -> Map<u128, Prefix> {
    Map::new(
        |a: u128| has_addr(s, a),
        |a: u128| s[choose|i: int| 0 <= i < s.len() && s[i].prefix == a],
    )
}

/// In increasing entries, the map gives each entry under its address.
pub proof fn lemma_table_map_at(s: Seq<Prefix>, i: int)
    requires
        addrs_increasing(s),
        0 <= i < s.len(),
    ensures
        table_map(s).contains_key(s[i].prefix),
        table_map(s)[s[i].prefix] == s[i],
{
    let a = s[i].prefix;
    assert(has_addr(s, a));
    let j = choose|j: int| 0 <= j < s.len() && s[j].prefix == a;
    assert(j == i) by {
        if j < i {
            assert(s[j].prefix < s[i].prefix);
        } else if j > i {
            assert(s[i].prefix < s[j].prefix);
        }
    }
}

/// The prefixes to advertise, one per address, in increasing order of
/// address.
pub struct PrefixTable {
    entries: Vec<Prefix>,
}

impl PrefixTable {
    #[verifier::type_invariant]
    closed spec fn inv(&self) -> bool {
        addrs_increasing(self.entries@)
    }

    /// The entries, in increasing order of address.
    pub closed spec fn entries_seq(&self) -> Seq<Prefix> {
        self.entries@
    }

    pub open spec fn wf(&self) -> bool {
        addrs_increasing(self.entries_seq())
    }

    /// An empty table.
    pub fn new() -> (r: PrefixTable)
        ensures
            r.wf(),
            r.entries_seq() == Seq::<Prefix>::empty(),
            r@ == Map::<u128, Prefix>::empty(),
    {
        let r = PrefixTable { entries: Vec::new() };
        assert(r@ =~= Map::<u128, Prefix>::empty());
        r
    }

    /// The entries, in increasing order of address.
    pub fn entries(&self) -> (r: &Vec<Prefix>)
        ensures
            r@ == self.entries_seq(),
            self.wf(),
    {
        proof {
            use_type_invariant(self);
        }
        &self.entries
    }

    /// The number of prefixes.
    pub fn len(&self) -> (r: usize)
        ensures
            r == self.entries_seq().len(),
    {
        self.entries.len()
    }

    /// Adds a prefix, replacing the one with the same address if there is one.
    pub fn insert(&mut self, p: Prefix)
        ensures
            final(self).wf(),
            final(self)@ == old(self)@.insert(p.prefix, p),
    {
        proof {
            use_type_invariant(&*self);
        }
        let ghost s = self.entries@;
        let n = self.entries.len();
        let mut k: usize = 0;
        while k < n && self.entries[k].prefix < p.prefix
            invariant
                k <= n,
                n == self.entries@.len(),
                self.entries@ == s,
                addrs_increasing(s),
                forall|j: int| 0 <= j < k ==> s[j].prefix < p.prefix,
            decreases n - k,
        {
            k = k + 1;
        }
        if k < n && self.entries[k].prefix == p.prefix {
            let ghost t = s.update(k as int, p);
            assert(addrs_increasing(t));
            assert forall|a: u128| #[trigger] table_map(t).contains_key(a) == table_map(
                s,
            ).insert(p.prefix, p).contains_key(a) by {
                if has_addr(s, a) {
                    let i = choose|i: int| 0 <= i < s.len() && s[i].prefix == a;
                    assert(t[i].prefix == a);
                }
                if has_addr(t, a) {
                    let i = choose|i: int| 0 <= i < t.len() && t[i].prefix == a;
                    assert(s[i].prefix == a);
                }
            }
            assert forall|a: u128| #[trigger] table_map(t).contains_key(a) implies table_map(t)[a]
                == table_map(s).insert(p.prefix, p)[a] by {
                let i = choose|i: int| 0 <= i < t.len() && t[i].prefix == a;
                lemma_table_map_at(t, i);
                if a != p.prefix {
                    assert(i != k);
                    assert(s[i] == t[i]);
                    lemma_table_map_at(s, i);
                }
            }
            assert(table_map(t) =~= table_map(s).insert(p.prefix, p));
            // Change the vector outside the table, whose invariant holds at every step.
            let mut entries: Vec<Prefix> = Vec::new();
            std::mem::swap(&mut self.entries, &mut entries);
            entries.set(k, p);
            self.entries = entries;
        } else {
            let ghost t = s.insert(k as int, p);
            assert forall|j: int| k <= j < s.len() implies p.prefix < #[trigger] s[j].prefix by {
                assert(s[k as int].prefix != p.prefix);
                assert(s[k as int].prefix >= p.prefix);
                if j > k {
                    assert(s[k as int].prefix < s[j].prefix);
                }
            }
            assert forall|i: int, j: int| 0 <= i < j < t.len() implies t[i].prefix
                < t[j].prefix by {
                if j < k {
                } else if j == k {
                } else if i < k {
                    assert(t[j] == s[j - 1]);
                } else if i == k {
                    assert(t[j] == s[j - 1]);
                } else {
                    assert(t[i] == s[i - 1] && t[j] == s[j - 1]);
                }
            }
            assert(addrs_increasing(t));
            assert forall|a: u128| #[trigger] table_map(t).contains_key(a) == table_map(
                s,
            ).insert(p.prefix, p).contains_key(a) by {
                if has_addr(s, a) {
                    let i = choose|i: int| 0 <= i < s.len() && s[i].prefix == a;
                    if i < k {
                        assert(t[i].prefix == a);
                    } else {
                        assert(t[i + 1].prefix == a);
                    }
                }
                if a == p.prefix {
                    assert(t[k as int].prefix == a);
                }
                if has_addr(t, a) && a != p.prefix {
                    let i = choose|i: int| 0 <= i < t.len() && t[i].prefix == a;
                    if i < k {
                        assert(s[i].prefix == a);
                    } else {
                        assert(s[i - 1].prefix == a);
                    }
                }
            }
            assert forall|a: u128| #[trigger] table_map(t).contains_key(a) implies table_map(t)[a]
                == table_map(s).insert(p.prefix, p)[a] by {
                let i = choose|i: int| 0 <= i < t.len() && t[i].prefix == a;
                lemma_table_map_at(t, i);
                if a != p.prefix {
                    if i < k {
                        assert(s[i] == t[i]);
                        lemma_table_map_at(s, i);
                    } else {
                        assert(s[i - 1] == t[i]);
                        lemma_table_map_at(s, i - 1);
                    }
                }
            }
            assert(table_map(t) =~= table_map(s).insert(p.prefix, p));
            // Change the vector outside the table, whose invariant holds at every step.
            let mut entries: Vec<Prefix> = Vec::new();
            std::mem::swap(&mut self.entries, &mut entries);
            entries.insert(k, p);
            self.entries = entries;
        }
    }

    /// Removes the prefix with address `addr`, if there is one.
    pub fn remove(&mut self, addr: u128)
        ensures
            final(self).wf(),
            final(self)@ == old(self)@.remove(addr),
    {
        proof {
            use_type_invariant(&*self);
        }
        let ghost s = self.entries@;
        let n = self.entries.len();
        let mut k: usize = 0;
        while k < n && self.entries[k].prefix != addr
            invariant
                k <= n,
                n == self.entries@.len(),
                self.entries@ == s,
                forall|j: int| 0 <= j < k ==> s[j].prefix != addr,
            decreases n - k,
        {
            k = k + 1;
        }
        if k < n {
            let ghost t = s.remove(k as int);
            assert forall|i: int, j: int| 0 <= i < j < t.len() implies t[i].prefix
                < t[j].prefix by {
                if j < k {
                } else if i < k {
                    assert(t[j] == s[j + 1]);
                } else {
                    assert(t[i] == s[i + 1] && t[j] == s[j + 1]);
                }
            }
            assert forall|a: u128| #[trigger] table_map(t).contains_key(a) == table_map(
                s,
            ).remove(addr).contains_key(a) by {
                if has_addr(s, a) && a != addr {
                    let i = choose|i: int| 0 <= i < s.len() && s[i].prefix == a;
                    if i < k {
                        assert(t[i].prefix == a);
                    } else {
                        assert(i != k);
                        assert(t[i - 1].prefix == a);
                    }
                }
                if has_addr(t, a) {
                    let i = choose|i: int| 0 <= i < t.len() && t[i].prefix == a;
                    if i < k {
                        assert(s[i].prefix == a);
                        assert(a != addr);
                    } else {
                        assert(s[i + 1].prefix == a);
                        assert(s[k as int].prefix < s[i + 1].prefix);
                    }
                }
            }
            assert forall|a: u128| #[trigger] table_map(t).contains_key(a) implies table_map(t)[a]
                == table_map(s).remove(addr)[a] by {
                let i = choose|i: int| 0 <= i < t.len() && t[i].prefix == a;
                lemma_table_map_at(t, i);
                if i < k {
                    assert(s[i] == t[i]);
                    lemma_table_map_at(s, i);
                } else {
                    assert(s[i + 1] == t[i]);
                    lemma_table_map_at(s, i + 1);
                }
            }
            assert(table_map(t) =~= table_map(s).remove(addr));
            // Change the vector outside the table, whose invariant holds at every step.
            let mut entries: Vec<Prefix> = Vec::new();
            std::mem::swap(&mut self.entries, &mut entries);
            entries.remove(k);
            self.entries = entries;
        } else {
            assert(!has_addr(s, addr));
            assert(table_map(s) =~= table_map(s).remove(addr));
        }
    }
}

impl View for PrefixTable {
    type V = Map<u128, Prefix>;

    open spec fn view(&self) -> Map<u128, Prefix> {
        table_map(self.entries_seq())
    }
}

/// The values of `s` increase strictly.
pub open spec fn increasing(s: Seq<u128>) -> bool {
    forall|i: int, j: int| 0 <= i < j < s.len() ==> s[i] < s[j]
}

/// The recursive DNS servers to advertise, by address, in increasing order.
pub struct DnsSet {
    addrs: Vec<u128>,
}

impl DnsSet {
    #[verifier::type_invariant]
    closed spec fn inv(&self) -> bool {
        increasing(self.addrs@)
    }

    /// The addresses, in increasing order.
    pub closed spec fn addrs_seq(&self) -> Seq<u128> {
        self.addrs@
    }

    pub open spec fn wf(&self) -> bool {
        increasing(self.addrs_seq())
    }

    /// An empty set.
    pub fn new() -> (r: DnsSet)
        ensures
            r.wf(),
            r.addrs_seq() == Seq::<u128>::empty(),
            r@ == Set::<u128>::empty(),
    {
        let r = DnsSet { addrs: Vec::new() };
        assert(r@ =~= Set::<u128>::empty());
        r
    }

    /// The addresses, in increasing order.
    pub fn addrs(&self) -> (r: &Vec<u128>)
        ensures
            r@ == self.addrs_seq(),
            self.wf(),
    {
        proof {
            use_type_invariant(self);
        }
        &self.addrs
    }

    /// The number of servers.
    pub fn len(&self) -> (r: usize)
        ensures
            r == self.addrs_seq().len(),
    {
        self.addrs.len()
    }

    /// Adds a server; one already there stays once.
    pub fn insert(&mut self, a: u128)
        ensures
            final(self).wf(),
            final(self)@ == old(self)@.insert(a),
    {
        proof {
            use_type_invariant(&*self);
        }
        let ghost s = self.addrs@;
        let n = self.addrs.len();
        let mut k: usize = 0;
        while k < n && self.addrs[k] < a
            invariant
                k <= n,
                n == self.addrs@.len(),
                self.addrs@ == s,
                increasing(s),
                forall|j: int| 0 <= j < k ==> s[j] < a,
            decreases n - k,
        {
            k = k + 1;
        }
        if k < n && self.addrs[k] == a {
            assert(s.contains(a));
            assert(Set::new(|x: u128| s.contains(x)) =~= Set::new(|x: u128| s.contains(x)).insert(
                a,
            ));
        } else {
            let ghost t = s.insert(k as int, a);
            assert forall|j: int| k <= j < s.len() implies a < #[trigger] s[j] by {
                if j > k {
                    assert(s[k as int] < s[j]);
                }
            }
            assert forall|i: int, j: int| 0 <= i < j < t.len() implies t[i] < t[j] by {
                if j < k {
                } else if j == k {
                } else if i < k {
                    assert(t[j] == s[j - 1]);
                } else if i == k {
                    assert(t[j] == s[j - 1]);
                } else {
                    assert(t[i] == s[i - 1] && t[j] == s[j - 1]);
                }
            }
            assert forall|x: u128| t.contains(x) == (s.contains(x) || x == a) by {
                if s.contains(x) {
                    let i = choose|i: int| 0 <= i < s.len() && s[i] == x;
                    if i < k {
                        assert(t[i] == x);
                    } else {
                        assert(t[i + 1] == x);
                    }
                }
                if x == a {
                    assert(t[k as int] == x);
                }
                if t.contains(x) && x != a {
                    let i = choose|i: int| 0 <= i < t.len() && t[i] == x;
                    if i < k {
                        assert(s[i] == x);
                    } else {
                        assert(s[i - 1] == x);
                    }
                }
            }
            assert(Set::new(|x: u128| t.contains(x)) =~= Set::new(|x: u128| s.contains(x)).insert(
                a,
            ));
            // Change the vector outside the table, whose invariant holds at every step.
            let mut addrs: Vec<u128> = Vec::new();
            std::mem::swap(&mut self.addrs, &mut addrs);
            addrs.insert(k, a);
            self.addrs = addrs;
        }
    }

    /// Removes a server, if it is there.
    pub fn remove(&mut self, a: u128)
        ensures
            final(self).wf(),
            final(self)@ == old(self)@.remove(a),
    {
        proof {
            use_type_invariant(&*self);
        }
        let ghost s = self.addrs@;
        let n = self.addrs.len();
        let mut k: usize = 0;
        while k < n && self.addrs[k] != a
            invariant
                k <= n,
                n == self.addrs@.len(),
                self.addrs@ == s,
                forall|j: int| 0 <= j < k ==> s[j] != a,
            decreases n - k,
        {
            k = k + 1;
        }
        if k < n {
            let ghost t = s.remove(k as int);
            assert forall|i: int, j: int| 0 <= i < j < t.len() implies t[i] < t[j] by {
                if j < k {
                } else if i < k {
                    assert(t[j] == s[j + 1]);
                } else {
                    assert(t[i] == s[i + 1] && t[j] == s[j + 1]);
                }
            }
            assert forall|x: u128| t.contains(x) == (s.contains(x) && x != a) by {
                if s.contains(x) && x != a {
                    let i = choose|i: int| 0 <= i < s.len() && s[i] == x;
                    if i < k {
                        assert(t[i] == x);
                    } else {
                        assert(t[i - 1] == x);
                    }
                }
                if t.contains(x) {
                    let i = choose|i: int| 0 <= i < t.len() && t[i] == x;
                    if i < k {
                        assert(s[i] == x);
                    } else {
                        assert(s[i + 1] == x);
                        assert(s[k as int] < s[i + 1]);
                    }
                }
            }
            assert(Set::new(|x: u128| t.contains(x)) =~= Set::new(|x: u128| s.contains(x)).remove(
                a,
            ));
            // Change the vector outside the table, whose invariant holds at every step.
            let mut addrs: Vec<u128> = Vec::new();
            std::mem::swap(&mut self.addrs, &mut addrs);
            addrs.remove(k);
            self.addrs = addrs;
        } else {
            assert(!s.contains(a));
            assert(Set::new(|x: u128| s.contains(x)) =~= Set::new(|x: u128| s.contains(x)).remove(
                a,
            ));
        }
    }
}

impl View for DnsSet {
    type V = Set<u128>;

    open spec fn view(&self) -> Set<u128> {
        Set::new(|x: u128| self.addrs_seq().contains(x))
    }
}

/// The advertised configuration.
pub struct State {
    pub prefixes: PrefixTable,
    pub dns_servers: DnsSet,
    pub mtu: u32,
}

/// The entries of `s` whose valid lifetime has not run out at `now`, in
/// their order.
pub open spec fn live_prefixes(s: Seq<Prefix>, now: u64) -> Seq<Prefix>
    decreases s.len(),
{
    if s.len() == 0 {
        seq![]
    } else {
        let init = live_prefixes(s.drop_last(), now);
        if remaining(s.last().valid_lifetime, now) > 0 {
            init.push(s.last())
        } else {
            init
        }
    }
}

/// `after` is `before` with the request applied: a prefix is added or
/// replaced, or removed, by its address; a DNS server is added or removed;
/// nothing else changes.
pub open spec fn applied(before: State, after: State, req: Request) -> bool {
    &&& after.mtu == before.mtu
    &&& match req {
        Request::AddPrefix(p) => after.prefixes@ == before.prefixes@.insert(p.prefix, p)
            && after.dns_servers@ == before.dns_servers@,
        Request::RemovePrefix(p) => after.prefixes@ == before.prefixes@.remove(p.prefix)
            && after.dns_servers@ == before.dns_servers@,
        Request::AddDnsServer(d) => after.dns_servers@ == before.dns_servers@.insert(d.addr)
            && after.prefixes@ == before.prefixes@,
        Request::RemoveDnsServer(d) => after.dns_servers@ == before.dns_servers@.remove(d.addr)
            && after.prefixes@ == before.prefixes@,
    }
}

/// The persisted form of the configuration: the prefixes and the DNS
/// server addresses, each in increasing order of address.
pub struct Database {
    pub prefixes: Vec<Prefix>,
    pub dns_servers: Vec<u128>,
}

impl State {
    pub open spec fn wf(&self) -> bool {
        self.prefixes.wf() && self.dns_servers.wf()
    }

    /// An empty configuration with the given MTU.
    pub fn new(mtu: u32) -> (r: State)
        ensures
            r.wf(),
            r.prefixes@ == Map::<u128, Prefix>::empty(),
            r.dns_servers@ == Set::<u128>::empty(),
            r.mtu == mtu,
    {
        State { prefixes: PrefixTable::new(), dns_servers: DnsSet::new(), mtu }
    }

    /// Applies a control request: a prefix is added or replaced, or removed,
    /// by its address; a DNS server is added or removed.
    pub fn apply(&mut self, req: Request)
        ensures
            final(self).wf(),
            final(self).mtu == old(self).mtu,
            applied(*old(self), *final(self), req),
    {
        proof {
            use_type_invariant(&self.prefixes);
            use_type_invariant(&self.dns_servers);
        }
        match req {
            Request::AddPrefix(p) => self.prefixes.insert(p),
            Request::RemovePrefix(p) => self.prefixes.remove(p.prefix),
            Request::AddDnsServer(d) => self.dns_servers.insert(d.addr),
            Request::RemoveDnsServer(d) => self.dns_servers.remove(d.addr),
        }
    }

    /// Removes the prefixes whose valid lifetime has run out at `now`, and
    /// gives the shortest valid lifetime left among the others, `None` where
    /// none is left.
    pub fn reap(&mut self, now: u64) -> (r: Option<u64>)
        ensures
            final(self).wf(),
            final(self).prefixes.entries_seq() == live_prefixes(
                old(self).prefixes.entries_seq(),
                now,
            ),
            final(self).dns_servers == old(self).dns_servers,
            final(self).mtu == old(self).mtu,
            r is None <==> final(self).prefixes.entries_seq().len() == 0,
            r matches Some(m) ==> {
                &&& forall|i: int|
                    0 <= i < final(self).prefixes.entries_seq().len() ==> m <= remaining(
                        #[trigger] final(self).prefixes.entries_seq()[i].valid_lifetime,
                        now,
                    )
                &&& exists|i: int|
                    0 <= i < final(self).prefixes.entries_seq().len() && m == remaining(
                        #[trigger] final(self).prefixes.entries_seq()[i].valid_lifetime,
                        now,
                    )
            },
    {
        proof {
            use_type_invariant(&self.prefixes);
            use_type_invariant(&self.dns_servers);
        }
        let ghost s = self.prefixes.entries@;
        let n = self.prefixes.entries.len();
        let mut kept: Vec<Prefix> = Vec::new();
        let mut next: Option<u64> = None;
        let mut i: usize = 0;
        while i < n
            invariant
                i <= n,
                n == s.len(),
                s == self.prefixes.entries@,
                addrs_increasing(s),
                kept@ == live_prefixes(s.subrange(0, i as int), now),
                addrs_increasing(kept@),
                forall|m: int, j: int|
                    0 <= m < kept@.len() && i <= j < n ==> kept@[m].prefix < s[j].prefix,
                next is None <==> kept@.len() == 0,
                next matches Some(m) ==> {
                    &&& forall|j: int|
                        0 <= j < kept@.len() ==> m <= remaining(
                            #[trigger] kept@[j].valid_lifetime,
                            now,
                        )
                    &&& exists|j: int|
                        0 <= j < kept@.len() && m == remaining(
                            #[trigger] kept@[j].valid_lifetime,
                            now,
                        )
                },
            decreases n - i,
        {
            let p = self.prefixes.entries[i];
            let left = p.valid_lifetime.remaining_at(now);
            assert(s.subrange(0, i + 1).drop_last() =~= s.subrange(0, i as int));
            if left > 0 {
                let ghost before = kept@;
                kept.push(p);
                next = match next {
                    Some(m) => if left < m {
                        Some(left)
                    } else {
                        Some(m)
                    },
                    None => Some(left),
                };
                proof {
                    assert(kept@[before.len() as int] == p);
                    assert forall|j: int| 0 <= j < before.len() implies kept@[j] == before[j] by {}
                    if let Some(m) = next {
                        if left == m {
                            assert(m == remaining(kept@[before.len() as int].valid_lifetime, now));
                        } else {
                            let w = choose|j: int|
                                0 <= j < before.len() && m == remaining(
                                    #[trigger] before[j].valid_lifetime,
                                    now,
                                );
                            assert(kept@[w] == before[w]);
                        }
                    }
                }
            }
            i = i + 1;
        }
        assert(s.subrange(0, n as int) =~= s);
        self.prefixes.entries = kept;
        next
    }

    /// The persisted form of the configuration.
    pub fn snapshot(&self) -> (r: Database)
        ensures
            r.prefixes@ == self.prefixes.entries_seq(),
            r.dns_servers@ == self.dns_servers.addrs_seq(),
    {
        let mut prefixes: Vec<Prefix> = Vec::new();
        let n = self.prefixes.entries.len();
        let mut i: usize = 0;
        while i < n
            invariant
                i <= n,
                n == self.prefixes.entries@.len(),
                prefixes@ == self.prefixes.entries@.subrange(0, i as int),
            decreases n - i,
        {
            prefixes.push(self.prefixes.entries[i]);
            assert(self.prefixes.entries@.subrange(0, i + 1) =~= self.prefixes.entries@.subrange(
                0,
                i as int,
            ).push(self.prefixes.entries@[i as int]));
            i = i + 1;
        }
        let mut dns_servers: Vec<u128> = Vec::new();
        let m = self.dns_servers.addrs.len();
        let mut j: usize = 0;
        while j < m
            invariant
                j <= m,
                m == self.dns_servers.addrs@.len(),
                dns_servers@ == self.dns_servers.addrs@.subrange(0, j as int),
            decreases m - j,
        {
            dns_servers.push(self.dns_servers.addrs[j]);
            assert(self.dns_servers.addrs@.subrange(0, j + 1) =~= self.dns_servers.addrs@.subrange(
                0,
                j as int,
            ).push(self.dns_servers.addrs@[j as int]));
            j = j + 1;
        }
        assert(self.prefixes.entries@.subrange(0, n as int) =~= self.prefixes.entries@);
        assert(self.dns_servers.addrs@.subrange(0, m as int) =~= self.dns_servers.addrs@);
        Database { prefixes, dns_servers }
    }
}

/// The prefix table never holds two entries with the same address.
pub proof fn lemma_one_entry_per_address(t: PrefixTable)
    requires
        t.wf(),
    ensures
        forall|i: int, j: int|
            0 <= i < t.entries_seq().len() && 0 <= j < t.entries_seq().len() && i != j
                ==> t.entries_seq()[i].prefix != t.entries_seq()[j].prefix,
{
    assert forall|i: int, j: int|
        0 <= i < t.entries_seq().len() && 0 <= j < t.entries_seq().len() && i != j implies t.entries_seq()[i].prefix
        != t.entries_seq()[j].prefix by {
        if i < j {
            assert(t.entries_seq()[i].prefix < t.entries_seq()[j].prefix);
        } else {
            assert(t.entries_seq()[j].prefix < t.entries_seq()[i].prefix);
        }
    }
}

proof fn lemma_live_all_live(s: Seq<Prefix>, now: u64)
    ensures
        forall|i: int|
            0 <= i < live_prefixes(s, now).len() ==> remaining(
                #[trigger] live_prefixes(s, now)[i].valid_lifetime,
                now,
            ) > 0,
    decreases s.len(),
{
    if s.len() > 0 {
        lemma_live_all_live(s.drop_last(), now);
    }
}

proof fn lemma_live_of_live(s: Seq<Prefix>, now: u64)
    requires
        forall|i: int| 0 <= i < s.len() ==> remaining(#[trigger] s[i].valid_lifetime, now) > 0,
    ensures
        live_prefixes(s, now) == s,
    decreases s.len(),
{
    if s.len() > 0 {
        lemma_live_of_live(s.drop_last(), now);
        assert(s.drop_last().push(s.last()) =~= s);
    }
}

/// Reaping a second time at the same moment, with nothing changed in
/// between, changes neither the table nor its persisted form.
pub proof fn lemma_reap_idempotent(s: Seq<Prefix>, now: u64)
    ensures
        live_prefixes(live_prefixes(s, now), now) == live_prefixes(s, now),
{
    lemma_live_all_live(s, now);
    lemma_live_of_live(live_prefixes(s, now), now);
}

/// Serves one control request payload: decodes it, applies it, and gives
/// the frame of the answer; a payload that does not decode changes nothing.
pub fn serve_request(state: &mut State, payload: &[u8]) -> (r: Result<Vec<u8>, Error>)
    ensures
        final(state).wf(),
        match parse_request(payload@) {
            Ok(req) => r matches Ok(bytes) && bytes@ == frame_bytes(response_bytes(Response::Okay))
                && applied(*old(state), *final(state), req),
            Err(e) => r == Err::<Vec<u8>, Error>(e) && *final(state) == *old(state),
        },
{
    proof {
        use_type_invariant(&state.prefixes);
        use_type_invariant(&state.dns_servers);
    }
    let req = match Request::decode(payload) {
        Ok(req) => req,
        Err(e) => return Err(e),
    };
    state.apply(req);
    let mut body: Vec<u8> = Vec::new();
    Response::Okay.encode(&mut body);
    Ok(frame(body.as_slice()))
}

} // verus!
