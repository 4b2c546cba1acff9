//! The registry of intercepted names: which hosts and wildcard domains services have claimed, and the
//! synthetic IPv4 address that stands for each host.
//!
//! A host that a service names gets its address when it is registered. A name under a wildcard domain
//! gets one when it is first looked up. Both give it back when the last claim on them is dropped.

#[allow(unused_imports)]
use vstd::arithmetic::power2::pow2;
use vstd::prelude::*;

use crate::addr::{parse_ip_or_cidr, IpNet};
#[allow(unused_imports)]
use crate::addr::net_text;
use crate::names::{check_name, tail_of, Name};
#[allow(unused_imports)]
use crate::names::{closest, first_dot, lemma_first_dot, lower, name_of, NameSpec};
use crate::table::Table;
#[allow(unused_imports)]
use crate::table::{holds, lists, slot_of};

verus! {

/// The block of IPv4 addresses that synthetic addresses come from, and the offset in it to try next.
#[derive(Clone, Copy, Debug, PartialEq, Eq, Structural)]
pub struct Pool {
    pub base: u32,
    pub size: u64,
    pub next: u64,
}

impl Pool {
    pub open spec fn wf(self) -> bool {
        1 <= self.size && self.base + self.size <= 0x1_0000_0000 && self.next < self.size
    }

    /// The offset that the `i`-th try from now is made at.
    pub open spec fn offset(self, i: nat) -> nat {
        ((self.next + i) % (self.size as int)) as nat
    }

    /// Whether the address at an offset may be handed out: not the first of the block nor the last,
    /// and not one of `used`.
    pub open spec fn free(self, used: Set<u32>, offset: nat) -> bool {
        0 < offset < self.size - 1 && !used.contains((self.base + offset) as u32)
    }

    /// The first free offset from the `i`-th try on, each offset of the block tried once.
    pub open spec fn next_free(self, used: Set<u32>, i: nat) -> Option<nat>
        decreases self.size - i,
    {
        if i >= self.size {
            None
        } else if self.free(used, self.offset(i)) {
            Some(self.offset(i))
        } else {
            self.next_free(used, i + 1)
        }
    }

    /// The pool after the address at `offset` was handed out.
    pub open spec fn after(self, offset: nat) -> Pool {
        Pool { next: ((offset + 1) % (self.size as nat)) as u64, ..self }
    }

    /// What is found is free, and nothing is found only where nothing is free.
    pub proof fn lemma_next_free(self, used: Set<u32>, i: nat)
        requires
            self.wf(),
        ensures
            match self.next_free(used, i) {
                Some(k) => self.free(used, k),
                None => forall|j: nat| i <= j < self.size ==> !self.free(used, #[trigger] self.offset(j)),
            },
        decreases self.size - i,
    {
        if i < self.size && !self.free(used, self.offset(i)) {
            self.lemma_next_free(used, i + 1);
        }
    }
}

/// A host: its address, the domain under which it was first looked up, if that is how it came, and
/// the services that named it.
pub struct HostState {
    pub ip: u32,
    pub domain: Option<Seq<char>>,
    pub claims: Set<Seq<char>>,
}

/// The registry: what is reserved, each host by its name, and the claims on each domain.
pub struct DnsState {
    pub pool: Option<Pool>,
    pub reserved: Set<u32>,
    pub hosts: Map<Seq<char>, HostState>,
    pub domains: Map<Seq<char>, Set<Seq<char>>>,
}

/// What came of a registration.
#[derive(Clone, Copy, Debug, PartialEq, Eq, Structural)]
pub enum RegisterOutcome {
    /// A host, with its address.
    Hostname(u32),
    /// A wildcard domain.
    Domain,
    /// The name is too long.
    Rejected,
    /// No address is left for the host.
    IpUnavailable,
}

/// What a name was found to be.
#[derive(Clone, Copy, Debug, PartialEq, Eq, Structural)]
pub struct DnsMatch {
    /// The synthetic address that stands for the name.
    pub ip: u32,
}

impl DnsState {
    /// The addresses that may not be handed out: those reserved and those of the hosts.
    pub open spec fn used(self) -> Set<u32> {
        Set::new(
            |ip: u32|
                self.reserved.contains(ip) || exists|n: Seq<char>| #[trigger]
                    self.hosts.contains_key(n) && self.hosts[n].ip == ip,
        )
    }

    /// The next address, and the pool after it; `None` if there is no pool or none is free.
    pub open spec fn allocate(self) -> Option<(u32, Pool)> {
        match self.pool {
            None => None,
            Some(pool) => match pool.next_free(self.used(), 0) {
                None => None,
                Some(k) => Some(((pool.base + k) as u32, pool.after(k))),
            },
        }
    }

    /// The claims on a domain; none where it is not registered.
    pub open spec fn claims_on(self, domain: Seq<char>) -> Set<Seq<char>> {
        if self.domains.contains_key(domain) {
            self.domains[domain]
        } else {
            Set::empty()
        }
    }

    /// The registry with one more host.
    pub open spec fn with_host(self, name: Seq<char>, pool: Pool, host: HostState) -> DnsState {
        DnsState { pool: Some(pool), hosts: self.hosts.insert(name, host), ..self }
    }

    /// The registry after `service` registered `addr`, and the outcome.
    pub open spec fn register(self, addr: Seq<char>, service: Seq<char>) -> (DnsState, RegisterOutcome) {
        match name_of(addr) {
            None => (self, RegisterOutcome::Rejected),
            Some(NameSpec::Domain(d)) => (
                DnsState {
                    domains: self.domains.insert(d, self.claims_on(d).insert(service)),
                    ..self
                },
                RegisterOutcome::Domain,
            ),
            Some(NameSpec::Host(h)) => if self.hosts.contains_key(h) {
                let host = self.hosts[h];
                (
                    DnsState {
                        hosts: self.hosts.insert(
                            h,
                            HostState { claims: host.claims.insert(service), ..host },
                        ),
                        ..self
                    },
                    RegisterOutcome::Hostname(host.ip),
                )
            } else {
                match self.allocate() {
                    None => (self, RegisterOutcome::IpUnavailable),
                    Some((ip, pool)) => (
                        self.with_host(
                            h,
                            pool,
                            HostState { ip, domain: None, claims: Set::empty().insert(service) },
                        ),
                        RegisterOutcome::Hostname(ip),
                    ),
                }
            },
        }
    }

    /// The closest registered domain that the text, as a host name, lies in.
    pub open spec fn matched_domain(self, name: Seq<char>) -> Option<Seq<char>> {
        match name_of(name) {
            Some(NameSpec::Host(h)) => closest(self.domains.dom(), h),
            _ => None,
        }
    }

    /// The registry after `name` was looked up, and the match.
    pub open spec fn lookup(self, name: Seq<char>) -> (DnsState, Option<DnsMatch>) {
        match name_of(name) {
            Some(NameSpec::Host(h)) => if self.hosts.contains_key(h) {
                (self, Some(DnsMatch { ip: self.hosts[h].ip }))
            } else {
                match (closest(self.domains.dom(), h), self.allocate()) {
                    (Some(d), Some((ip, pool))) => (
                        self.with_host(
                            h,
                            pool,
                            HostState { ip, domain: Some(d), claims: Set::empty() },
                        ),
                        Some(DnsMatch { ip }),
                    ),
                    _ => (self, None),
                }
            },
            _ => (self, None),
        }
    }

    /// Whether a host is still claimed once `service` has dropped its claims.
    pub open spec fn survives(self, host: HostState, service: Seq<char>) -> bool {
        host.claims.remove(service) != Set::<Seq<char>>::empty() || (host.domain matches Some(d)
            && self.claims_on(d).remove(service) != Set::<Seq<char>>::empty())
    }

    /// The registry after `service` dropped its claims: what nobody claims any more is gone.
    pub open spec fn deregister(self, service: Seq<char>) -> DnsState {
        DnsState {
            hosts: Map::new(
                |n: Seq<char>| self.hosts.contains_key(n) && self.survives(self.hosts[n], service),
                |n: Seq<char>|
                    HostState {
                        claims: self.hosts[n].claims.remove(service),
                        ..self.hosts[n]
                    },
            ),
            domains: Map::new(
                |d: Seq<char>|
                    self.domains.contains_key(d) && self.domains[d].remove(service) != Set::<
                        Seq<char>,
                    >::empty(),
                |d: Seq<char>| self.domains[d].remove(service),
            ),
            ..self
        }
    }

    /// What holds of every registry: the pool is a block, no two hosts share an address, and every
    /// domain and every host is claimed, the host by a service of its own or through its domain.
    pub open spec fn wf(self) -> bool {
        &&& self.pool matches Some(p) ==> p.wf()
        &&& forall|a: Seq<char>, b: Seq<char>|
            #![trigger self.hosts.contains_key(a), self.hosts.contains_key(b)]
            self.hosts.contains_key(a) && self.hosts.contains_key(b) && self.hosts[a].ip
                == self.hosts[b].ip ==> a == b
        &&& forall|d: Seq<char>| #[trigger]
            self.domains.contains_key(d) ==> self.domains[d] != Set::<Seq<char>>::empty()
        &&& forall|n: Seq<char>| #[trigger]
            self.hosts.contains_key(n) ==> self.hosts[n].claims != Set::<Seq<char>>::empty() || (
            self.hosts[n].domain matches Some(d) && self.domains.contains_key(d))
    }

    /// The host that an address stands for.
    pub open spec fn reverse(self, ip: u32) -> Option<Seq<char>> {
        if exists|n: Seq<char>| #[trigger] self.hosts.contains_key(n) && self.hosts[n].ip == ip {
            Some(choose|n: Seq<char>| #[trigger] self.hosts.contains_key(n) && self.hosts[n].ip == ip)
        } else {
            None
        }
    }

    /// The domain under which an address was handed out.
    pub open spec fn reverse_domain(self, ip: u32) -> Option<Seq<char>> {
        match self.reverse(ip) {
            Some(n) => self.hosts[n].domain,
            None => None,
        }
    }

    /// An address that is handed out is of the pool, and was neither reserved nor in use.
    pub proof fn lemma_allocate(self)
        requires
            self.wf(),
        ensures
            self.allocate() matches Some((ip, pool)) ==> !self.used().contains(ip) && pool.wf()
                && self.pool is Some && self.pool->0.base < ip < self.pool->0.base
                + self.pool->0.size - 1,
    {
        if let Some(p) = self.pool {
            p.lemma_next_free(self.used(), 0);
        }
    }

    /// Every operation keeps what holds of a registry.
    pub proof fn lemma_register_wf(self, addr: Seq<char>, service: Seq<char>)
        requires
            self.wf(),
        ensures
            self.register(addr, service).0.wf(),
    {
        self.lemma_allocate();
        let next = self.register(addr, service).0;
        match name_of(addr) {
            Some(NameSpec::Domain(d)) => {
                assert(self.claims_on(d).insert(service).contains(service));
            },
            Some(NameSpec::Host(h)) => {
                if self.hosts.contains_key(h) {
                    assert(next.hosts[h].claims.contains(service));
                    assert(forall|n: Seq<char>| #[trigger] next.hosts.contains_key(n)
                        ==> next.hosts[n].ip == self.hosts[n].ip && self.hosts.contains_key(n));
                } else if let Some((ip, pool)) = self.allocate() {
                    assert(next.hosts[h].claims.contains(service));
                    assert(!self.used().contains(ip));
                }
            },
            None => {},
        }
    }

    pub proof fn lemma_lookup_wf(self, name: Seq<char>)
        requires
            self.wf(),
        ensures
            self.lookup(name).0.wf(),
    {
        self.lemma_allocate();
        if let Some(NameSpec::Host(h)) = name_of(name) {
            crate::names::lemma_closest_lies_in(self.domains.dom(), h);
            if let Some((ip, pool)) = self.allocate() {
                assert(!self.used().contains(ip));
            }
        }
    }

    pub proof fn lemma_deregister_wf(self, service: Seq<char>)
        requires
            self.wf(),
        ensures
            self.deregister(service).wf(),
    {
        let next = self.deregister(service);
        assert forall|n: Seq<char>| #[trigger] next.hosts.contains_key(n) implies next.hosts[n].claims
            != Set::<Seq<char>>::empty() || (next.hosts[n].domain matches Some(d)
            && next.domains.contains_key(d)) by {
            assert(self.hosts.contains_key(n));
            assert(Set::<Seq<char>>::empty().remove(service) =~= Set::<Seq<char>>::empty());
        }
        assert forall|a: Seq<char>, b: Seq<char>|
            #![trigger next.hosts.contains_key(a), next.hosts.contains_key(b)]
            next.hosts.contains_key(a) && next.hosts.contains_key(b) && next.hosts[a].ip
                == next.hosts[b].ip implies a == b by {
            assert(self.hosts.contains_key(a) && self.hosts.contains_key(b));
        }
    }
}

/// The views of a list of names, as a set.
pub open spec fn names(s: Seq<String>) -> Set<Seq<char>> {
    Set::new(|n: Seq<char>| exists|i: int| 0 <= i < s.len() && (#[trigger] s[i])@ == n)
}

/// A registered host.
#[derive(Clone, Debug)]
struct HostEntry {
    ip: u32,
    domain: Option<String>,
    claims: Vec<String>,
}

impl View for HostEntry {
    type V = HostState;

    closed spec fn view(&self) -> HostState {
        HostState {
            ip: self.ip,
            domain: match self.domain {
                Some(d) => Some(d@),
                None => None,
            },
            claims: names(self.claims@),
        }
    }
}

/// The registry of intercepted names.
#[derive(Clone, Debug)]
pub struct DnsMatcher {
    pool: Option<Pool>,
    reserved: Vec<u32>,
    hosts: Table<String, HostEntry>,
    domains: Table<String, Vec<String>>,
}

impl View for DnsMatcher {
    type V = DnsState;

    closed spec fn view(&self) -> DnsState {
        DnsState {
            pool: self.pool,
            reserved: self.reserved@.to_set(),
            hosts: self.hosts@.map_values(|h: HostEntry| h@),
            domains: self.domains@.map_values(|c: Vec<String>| names(c@)),
        }
    }
}

/// Adds a name to a list of names, once.
fn add_claim(claims: &mut Vec<String>, service: &str)
    ensures
        names(final(claims)@) == names(old(claims)@).insert(service@),
{
    let owned: String = service.to_owned();
    let mut i: usize = 0;
    while i < claims.len()
        invariant
            i <= claims@.len(),
            owned@ == service@,
            claims@ == old(claims)@,
        decreases claims@.len() - i,
    {
        if claims[i] == owned {
            assert(names(claims@) =~= names(old(claims)@).insert(service@));
            return;
        }
        i += 1;
    }
    let ghost before = claims@;
    claims.push(owned);
    proof {
        assert forall|n: Seq<char>| names(before).insert(service@).contains(n) implies names(
            claims@,
        ).contains(n) by {
            if n == service@ {
                assert(claims@[before.len() as int]@ == n);
            } else {
                let j = choose|j: int| 0 <= j < before.len() && before[j]@ == n;
                assert(claims@[j]@ == n);
            }
        }
        assert(names(claims@) =~= names(before).insert(service@));
    }
}

/// The names of a list without one.
fn drop_claim(claims: &Vec<String>, service: &str) -> (r: Vec<String>)
    ensures
        names(r@) == names(claims@).remove(service@),
        r@.len() == 0 <==> names(claims@).remove(service@) == Set::<Seq<char>>::empty(),
{
    let owned: String = service.to_owned();
    let mut out: Vec<String> = Vec::new();
    let mut i: usize = 0;
    while i < claims.len()
        invariant
            i <= claims@.len(),
            owned@ == service@,
            names(out@) == names(claims@.take(i as int)).remove(service@),
        decreases claims@.len() - i,
    {
        let ghost before = out@;
        let ghost seen = claims@.take(i as int);
        let ghost now = claims@.take(i + 1);
        proof {
            assert(now =~= seen.push(claims@[i as int]));
            assert(names(now) =~= names(seen).insert(claims@[i as int]@)) by {
                assert forall|n: Seq<char>| names(seen).insert(claims@[i as int]@).contains(n) implies
                    names(now).contains(n) by {
                    if n == claims@[i as int]@ {
                        assert(now[i as int]@ == n);
                    } else {
                        let j = choose|j: int| 0 <= j < seen.len() && seen[j]@ == n;
                        assert(now[j]@ == n);
                    }
                }
            }
        }
        if claims[i] != owned {
            out.push(claims[i].clone());
            proof {
                assert(out@ =~= before.push(claims@[i as int]));
                assert forall|n: Seq<char>| names(before).insert(claims@[i as int]@).contains(
                    n,
                ) implies names(out@).contains(n) by {
                    if n == claims@[i as int]@ {
                        assert(out@[before.len() as int]@ == n);
                    } else {
                        let j = choose|j: int| 0 <= j < before.len() && before[j]@ == n;
                        assert(out@[j]@ == n);
                    }
                }
                assert(names(out@) =~= names(before).insert(claims@[i as int]@));
            }
        }
        assert(names(out@) =~= names(now).remove(service@));
        i += 1;
    }
    proof {
        assert(claims@.take(i as int) =~= claims@);
        if out@.len() > 0 {
            assert(names(out@).contains(out@[0]@));
        } else {
            assert(names(out@) =~= Set::<Seq<char>>::empty());
        }
    }
    out
}

impl DnsMatcher {
    /// What holds of every registry.
    pub closed spec fn wf(&self) -> bool {
        self.hosts.wf() && self.domains.wf() && self@.wf()
    }

    /// What a caller may use of it.
    pub proof fn lemma_wf(&self)
        requires
            self.wf(),
        ensures
            self@.wf(),
    {
    }

    /// An empty registry, without a pool: no host can get an address.
    pub fn new() -> (r: Self)
        ensures
            r.wf(),
            r@ == (DnsState {
                pool: None,
                reserved: Set::empty(),
                hosts: Map::empty(),
                domains: Map::empty(),
            }),
    {
        let r = DnsMatcher {
            pool: None,
            reserved: Vec::new(),
            hosts: Table::new(),
            domains: Table::new(),
        };
        assert(r@.reserved =~= Set::<u32>::empty());
        assert(r@.hosts =~= Map::<Seq<char>, HostState>::empty());
        assert(r@.domains =~= Map::<Seq<char>, Set<Seq<char>>>::empty());
        r
    }

    /// Takes the addresses to hand out from an IPv4 network, from its second one on; `false`, and
    /// nothing changes, if the text is not an IPv4 network.
    pub fn seed_pool(&mut self, cidr: &str) -> (r: bool)
        requires
            old(self).wf(),
        ensures
            final(self).wf(),
            match net_text(cidr@) {
                Some(IpNet::V4 { addr, prefix }) => r && final(self)@ == (DnsState {
                    pool: Some(
                        Pool {
                            base: (IpNet::V4 { addr, prefix }).first() as u32,
                            size: pow2((32 - prefix) as nat) as u64,
                            next: (1nat % pow2((32 - prefix) as nat)) as u64,
                        },
                    ),
                    ..old(self)@
                }),
                _ => !r && final(self)@ == old(self)@,
            },
    {
        match parse_ip_or_cidr(cidr) {
            Some(IpNet::V4 { addr, prefix }) => {
                let base: u32 = IpNet::v4_trunc(addr, prefix);
                let bits: u32 = 32 - prefix as u32;
                let size: u64 = block_size(bits);
                proof {
                    lemma_block_fits(addr, bits as nat);
                }
                self.pool = Some(Pool { base, size, next: 1 % size });
                true
            },
            _ => false,
        }
    }

    /// Keeps an address from being handed out.
    pub fn reserve(&mut self, ip: u32)
        requires
            old(self).wf(),
        ensures
            final(self).wf(),
            final(self)@ == (DnsState { reserved: old(self)@.reserved.insert(ip), ..old(self)@ }),
    {
        let ghost before = self.reserved@;
        self.reserved.push(ip);
        proof {
            assert(self.reserved@.to_set() =~= before.to_set().insert(ip)) by {
                assert(self.reserved@[before.len() as int] == ip);
                assert forall|x: u32| before.contains(x) implies self.reserved@.contains(x) by {
                    let j = choose|j: int| 0 <= j < before.len() && before[j] == x;
                    assert(self.reserved@[j] == x);
                }
            }
        }
    }

    /// Whether an address may not be handed out.
    fn in_use(&self, ip: u32) -> (r: bool)
        requires
            self.wf(),
        ensures
            r == self@.used().contains(ip),
    {
        let mut i: usize = 0;
        while i < self.reserved.len()
            invariant
                i <= self.reserved@.len(),
                forall|j: int| 0 <= j < i ==> self.reserved@[j] != ip,
            decreases self.reserved@.len() - i,
        {
            if self.reserved[i] == ip {
                assert(self.reserved@.contains(ip));
                return true;
            }
            i += 1;
        }
        let has_ip = |_k: &String, h: &HostEntry| -> (b: bool)
            ensures
                b == (h.ip == ip),
        {
            h.ip == ip
        };
        let found = self.hosts.find_by(has_ip);
        proof {
            if let Some((k, h)) = found {
                assert(self@.hosts.contains_key(k@) && self@.hosts[k@].ip == ip);
            } else {
                assert forall|n: Seq<char>| #[trigger] self@.hosts.contains_key(n) implies self@.hosts[n].ip
                    != ip by {
                    assert(self.hosts@.contains_key(n));
                }
            }
        }
        found.is_some()
    }

    /// Hands out the next address.
    fn allocate_ip(&mut self) -> (r: Option<u32>)
        requires
            old(self).wf(),
        ensures
            final(self).hosts == old(self).hosts,
            final(self).domains == old(self).domains,
            final(self).reserved == old(self).reserved,
            final(self).wf(),
            match old(self)@.allocate() {
                None => r is None && final(self).pool == old(self).pool,
                Some((ip, pool)) => r == Some(ip) && final(self).pool == Some(pool),
            },
    {
        match self.pool {
            None => None,
            Some(pool) => {
                let ghost used = self@.used();
                let mut i: u64 = 0;
                while i < pool.size
                    invariant
                        self.wf(),
                        self == old(self),
                        self.pool == Some(pool),
                        pool.wf(),
                        used == self@.used(),
                        i <= pool.size,
                        pool.next_free(used, 0) == pool.next_free(used, i as nat),
                    decreases pool.size - i,
                {
                    let k: u64 = (pool.next + i) % pool.size;
                    let last: u64 = pool.size - 1;
                    if k != 0 && k != last {
                        let ip: u32 = (pool.base as u64 + k) as u32;
                        if !self.in_use(ip) {
                            let next: u64 = (k + 1) % pool.size;
                            let ghost was = self@;
                            self.pool = Some(Pool { next, ..pool });
                            assert(self@.hosts == was.hosts && self@.domains == was.domains);
                            assert(next < pool.size);
                            return Some(ip);
                        }
                    }
                    i += 1;
                }
                None
            },
        }
    }

    /// Registers an address that `service` intercepts: a host gets its synthetic address, a wildcard
    /// domain none of its own. Either is then claimed by the service.
    pub fn register(&mut self, addr: &str, service: &str) -> (r: RegisterOutcome)
        requires
            old(self).wf(),
        ensures
            final(self).wf(),
            final(self)@ == old(self)@.register(addr@, service@).0,
            r == old(self)@.register(addr@, service@).1,
    {
        let ghost before = self@;
        proof {
            before.lemma_register_wf(addr@, service@);
        }
        match check_name(addr) {
            None => RegisterOutcome::Rejected,
            Some(Name::Domain(d)) => {
                let ghost key = d@;
                let mut claims: Vec<String> = match self.domains.remove(&d) {
                    Some(c) => c,
                    None => Vec::new(),
                };
                assert(names(claims@) =~= before.claims_on(key));
                add_claim(&mut claims, service);
                self.domains.insert(d, claims);
                assert(self@.domains =~= before.domains.insert(
                    key,
                    before.claims_on(key).insert(service@),
                ));
                RegisterOutcome::Domain
            },
            Some(Name::Host(h)) => {
                let ghost key = h@;
                if self.hosts.contains(&h) {
                    let mut entry: HostEntry = self.hosts.remove(&h).unwrap();
                    let ghost was = entry@;
                    add_claim(&mut entry.claims, service);
                    let ip: u32 = entry.ip;
                    self.hosts.insert(h, entry);
                    assert(self@.hosts =~= before.hosts.insert(
                        key,
                        (HostState { claims: was.claims.insert(service@), ..was }),
                    ));
                    return RegisterOutcome::Hostname(ip);
                }
                match self.allocate_ip() {
                    None => RegisterOutcome::IpUnavailable,
                    Some(ip) => {
                        let mut claims: Vec<String> = Vec::new();
                        assert(names(claims@) =~= Set::<Seq<char>>::empty());
                        add_claim(&mut claims, service);
                        self.hosts.insert(h, HostEntry { ip, domain: None, claims });
                        assert(self@.hosts =~= before.hosts.insert(
                            key,
                            (HostState { ip, domain: None, claims: Set::empty().insert(service@) }),
                        ));
                        RegisterOutcome::Hostname(ip)
                    },
                }
            },
        }
    }

    /// The closest registered domain that the normalised `name` lies in.
    fn find_domain(&self, name: &String) -> (r: Option<String>)
        requires
            self.wf(),
        ensures
            match r {
                Some(d) => closest(self@.domains.dom(), name@) == Some(d@),
                None => closest(self@.domains.dom(), name@) is None,
            },
    {
        let mut rest: String = name.clone();
        loop
            invariant
                self.wf(),
                closest(self@.domains.dom(), name@) == closest(self@.domains.dom(), rest@),
            decreases rest@.len(),
        {
            assert(self@.domains.contains_key(rest@) == self.domains@.contains_key(rest@));
            if self.domains.contains(&rest) {
                return Some(rest);
            }
            match dot_of(rest.as_str()) {
                None => {
                    return None;
                },
                Some(k) => {
                    proof {
                        lemma_first_dot(rest@);
                    }
                    rest = tail_of(rest.as_str(), k + 1);
                },
            }
        }
    }

    /// The closest registered domain that `name` lies in.
    pub fn matched_domain(&self, name: &str) -> (r: Option<String>)
        requires
            self.wf(),
        ensures
            match r {
                Some(d) => self@.matched_domain(name@) == Some(d@),
                None => self@.matched_domain(name@) is None,
            },
    {
        match check_name(name) {
            Some(Name::Host(h)) => self.find_domain(&h),
            _ => None,
        }
    }

    /// Whether `name` lies in a registered domain.
    pub fn matches_domain(&self, name: &str) -> (r: bool)
        requires
            self.wf(),
        ensures
            r == self@.matched_domain(name@) is Some,
    {
        self.matched_domain(name).is_some()
    }

    /// Looks a name up. A name under a registered domain that has no address yet gets one.
    pub fn lookup(&mut self, name: &str) -> (r: Option<DnsMatch>)
        requires
            old(self).wf(),
        ensures
            final(self).wf(),
            final(self)@ == old(self)@.lookup(name@).0,
            r == old(self)@.lookup(name@).1,
    {
        let ghost before = self@;
        proof {
            before.lemma_lookup_wf(name@);
        }
        match check_name(name) {
            Some(Name::Host(h)) => {
                let ghost key = h@;
                if let Some(entry) = self.hosts.get(&h) {
                    assert(before.hosts[key].ip == entry.ip);
                    return Some(DnsMatch { ip: entry.ip });
                }
                assert(!before.hosts.contains_key(key));
                match self.find_domain(&h) {
                    None => None,
                    Some(domain) => {
                        let ghost d = domain@;
                        match self.allocate_ip() {
                            None => None,
                            Some(ip) => {
                                let claims: Vec<String> = Vec::new();
                                assert(names(claims@) =~= Set::<Seq<char>>::empty());
                                self.hosts.insert(h, HostEntry { ip, domain: Some(domain), claims });
                                assert(self@.hosts =~= before.hosts.insert(
                                    key,
                                    (HostState { ip, domain: Some(d), claims: Set::empty() }),
                                ));
                                Some(DnsMatch { ip })
                            },
                        }
                    },
                }
            },
            _ => None,
        }
    }

    /// The host that an address stands for.
    fn host_at(&self, ip: u32) -> (r: Option<(&String, &HostEntry)>)
        requires
            self.wf(),
        ensures
            match r {
                Some((n, h)) => self@.reverse(ip) == Some(n@) && self@.hosts.contains_key(n@)
                    && self@.hosts[n@] == h@,
                None => self@.reverse(ip) is None,
            },
    {
        let has_ip = |_k: &String, h: &HostEntry| -> (b: bool)
            ensures
                b == (h.ip == ip),
        {
            h.ip == ip
        };
        let found = self.hosts.find_by(has_ip);
        proof {
            if let Some((k, h)) = found {
                assert(self@.hosts.contains_key(k@) && self@.hosts[k@].ip == ip);
            } else {
                assert forall|n: Seq<char>| #[trigger] self@.hosts.contains_key(n) implies self@.hosts[n].ip
                    != ip by {
                    assert(self.hosts@.contains_key(n));
                }
            }
        }
        found
    }

    /// The name of the host that an address stands for.
    pub fn reverse_lookup(&self, ip: u32) -> (r: Option<&str>)
        requires
            self.wf(),
        ensures
            match r {
                Some(n) => self@.reverse(ip) == Some(n@),
                None => self@.reverse(ip) is None,
            },
    {
        match self.host_at(ip) {
            Some((n, _)) => Some(n.as_str()),
            None => None,
        }
    }

    /// The domain under which an address was handed out; none for a host that a service named, for a
    /// reserved address, or for one that stands for nothing.
    pub fn reverse_lookup_domain(&self, ip: u32) -> (r: Option<&str>)
        requires
            self.wf(),
        ensures
            match r {
                Some(d) => self@.reverse_domain(ip) == Some(d@),
                None => self@.reverse_domain(ip) is None,
            },
    {
        match self.host_at(ip) {
            Some((_, h)) => match &h.domain {
                Some(d) => Some(d.as_str()),
                None => None,
            },
            None => None,
        }
    }

    /// The domain of a wildcard address, in the form in which it is registered.
    pub fn wildcard_suffix(addr: &str) -> (r: Option<String>)
        ensures
            match r {
                Some(d) => name_of(addr@) == Some(NameSpec::Domain(d@)),
                None => !(name_of(addr@) matches Some(NameSpec::Domain(_))),
            },
    {
        match check_name(addr) {
            Some(Name::Domain(d)) => Some(d),
            _ => None,
        }
    }

    /// Drops every claim of `service`. A domain that nobody claims any more goes, and so does a host
    /// that nobody claims, neither itself nor through its domain, and its address is free again.
    pub fn deregister_intercept(&mut self, service: &str)
        requires
            old(self).wf(),
        ensures
            final(self).wf(),
            final(self)@ == old(self)@.deregister(service@),
    {
        let ghost before = self@;
        let ghost hosts0 = self.hosts@;
        let ghost domains0 = self.domains@;
        proof {
            before.lemma_deregister_wf(service@);
        }
        let mut old_domains: Vec<(String, Vec<String>)> = self.domains.drain();
        let ghost all = old_domains@;
        while old_domains.len() > 0
            invariant
                lists(all, domains0),
                old_domains@ == all.take(old_domains@.len() as int),
                old_domains@.len() <= all.len(),
                self.domains.wf(),
                self.hosts.wf(),
                self.hosts@ == hosts0,
                self.pool == before.pool,
                self.reserved@.to_set() == before.reserved,
                before.domains == domains0.map_values(|c: Vec<String>| names(c@)),
                forall|d: Seq<char>| #[trigger]
                    self.domains@.contains_key(d) ==> before.deregister(service@).domains.contains_key(
                        d,
                    ) && names(self.domains@[d]@) == before.deregister(service@).domains[d],
                forall|j: int|
                    old_domains@.len() <= j < all.len() && before.deregister(
                        service@,
                    ).domains.contains_key((#[trigger] all[j]).0@) ==> self.domains@.contains_key(
                        all[j].0@,
                    ),
            decreases old_domains@.len(),
        {
            let ghost n = old_domains@.len() as int;
            let (d, claims) = old_domains.pop().unwrap();
            assert(all[n - 1] == (d, claims));
            assert(old_domains@ =~= all.take(n - 1));
            let ghost key = d@;
            assert(domains0.contains_key(key) && domains0[key] == claims);
            let left: Vec<String> = drop_claim(&claims, service);
            if left.len() > 0 {
                self.domains.insert(d, left);
            }
            assert(forall|j: int| n <= j < all.len() ==> (#[trigger] all[j]).0@ != key);
        }
        proof {
            assert forall|d: Seq<char>| before.deregister(service@).domains.contains_key(d) implies self.domains@.contains_key(
                d,
            ) by {
                assert(domains0.contains_key(d));
                let j = slot_of(all, d);
                assert(holds(all, d));
                assert(all[j].0@ == d);
            }
            assert(self@.domains =~= before.deregister(service@).domains);
        }
        let mut old_hosts: Vec<(String, HostEntry)> = self.hosts.drain();
        let ghost all = old_hosts@;
        let ghost domains1 = self.domains@;
        while old_hosts.len() > 0
            invariant
                lists(all, hosts0),
                old_hosts@ == all.take(old_hosts@.len() as int),
                old_hosts@.len() <= all.len(),
                self.hosts.wf(),
                self.domains.wf(),
                self.domains@ == domains1,
                self@.domains == before.deregister(service@).domains,
                self.pool == before.pool,
                self.reserved@.to_set() == before.reserved,
                before.hosts == hosts0.map_values(|h: HostEntry| h@),
                forall|n: Seq<char>| #[trigger]
                    self.hosts@.contains_key(n) ==> before.deregister(service@).hosts.contains_key(n)
                        && self.hosts@[n]@ == before.deregister(service@).hosts[n],
                forall|j: int|
                    old_hosts@.len() <= j < all.len() && before.deregister(service@).hosts.contains_key(
                        (#[trigger] all[j]).0@,
                    ) ==> self.hosts@.contains_key(all[j].0@),
            decreases old_hosts@.len(),
        {
            let ghost n = old_hosts@.len() as int;
            let (name, entry) = old_hosts.pop().unwrap();
            assert(all[n - 1] == (name, entry));
            assert(old_hosts@ =~= all.take(n - 1));
            let ghost key = name@;
            assert(hosts0.contains_key(key) && hosts0[key] == entry);
            assert(before.hosts[key] == entry@);
            let left: Vec<String> = drop_claim(&entry.claims, service);
            let alive: bool = left.len() > 0 || match &entry.domain {
                Some(d) => {
                    assert(self@.domains.contains_key(d@) == self.domains@.contains_key(d@));
                    self.domains.contains(d)
                },
                None => false,
            };
            proof {
                assert(Set::<Seq<char>>::empty().remove(service@) =~= Set::<Seq<char>>::empty());
                assert(alive == before.survives(entry@, service@));
            }
            if alive {
                let fresh = HostEntry { ip: entry.ip, domain: entry.domain, claims: left };
                assert(fresh@ == before.deregister(service@).hosts[key]);
                self.hosts.insert(name, fresh);
            }
            assert(forall|j: int| n <= j < all.len() ==> (#[trigger] all[j]).0@ != key);
        }
        proof {
            assert forall|n: Seq<char>| before.deregister(service@).hosts.contains_key(n) implies self.hosts@.contains_key(
                n,
            ) by {
                assert(hosts0.contains_key(n));
                let j = slot_of(all, n);
                assert(holds(all, n));
                assert(all[j].0@ == n);
            }
            assert(self@.hosts =~= before.deregister(service@).hosts);
        }
    }
}

/// The position of the first dot.
fn dot_of(s: &str) -> (r: Option<usize>)
    ensures
        match r {
            Some(k) => k < s@.len() && k < usize::MAX && first_dot(s@) == k,
            None => first_dot(s@) == s@.len(),
        },
{
    let chars = crate::text::chars_of(s);
    let mut i: usize = 0;
    proof {
        lemma_first_dot(s@);
    }
    while i < chars.len()
        invariant
            i <= chars@.len(),
            chars@ == s@,
            0 <= first_dot(s@) <= s@.len(),
            forall|j: int| 0 <= j < first_dot(s@) ==> s@[j] != '.',
            first_dot(s@) < s@.len() ==> s@[first_dot(s@)] == '.',
            forall|j: int| 0 <= j < i ==> s@[j] != '.',
        decreases chars@.len() - i,
    {
        if chars[i] == '.' {
            return Some(i);
        }
        i += 1;
    }
    None
}

/// The number of addresses of `bits` bits.
fn block_size(bits: u32) -> (r: u64)
    requires
        bits <= 32,
    ensures
        r == pow2(bits as nat),
        1 <= r <= 0x1_0000_0000,
{
    proof {
        vstd::arithmetic::power2::lemma2_to64();
        vstd::bits::lemma_u64_pow2_no_overflow(bits as nat);
        vstd::bits::lemma_u64_shl_is_mul(1, bits as u64);
        if bits < 32 {
            vstd::arithmetic::power2::lemma_pow2_strictly_increases(bits as nat, 32);
        }
        vstd::arithmetic::power2::lemma_pow2_pos(bits as nat);
    }
    1u64 << (bits as u64)
}

/// The block of `2^bits` addresses that an IPv4 address lies in ends within the address space.
pub proof fn lemma_block_fits(addr: u32, bits: nat)
    requires
        bits <= 32,
    ensures
        0 <= crate::addr::block_start(addr as int, bits),
        crate::addr::block_start(addr as int, bits) + pow2(bits) <= 0x1_0000_0000,
{
    vstd::arithmetic::power2::lemma2_to64();
    vstd::arithmetic::power2::lemma_pow2_pos(bits);
    vstd::arithmetic::power2::lemma_pow2_adds(bits, (32 - bits) as nat);
    let size = pow2(bits) as int;
    let count = pow2((32 - bits) as nat) as int;
    let a = addr as int;
    vstd::arithmetic::div_mod::lemma_fundamental_div_mod(a, size);
    vstd::arithmetic::div_mod::lemma_mod_bound(a, size);
    let q = a / size;
    assert(q < count) by (nonlinear_arith)
        requires
            a == size * q + a % size,
            0 <= a % size,
            a < 0x1_0000_0000,
            size * count == 0x1_0000_0000,
            size > 0,
    ;
    assert(size * q + size <= size * count) by (nonlinear_arith)
        requires
            q < count,
            size > 0,
    ;
    assert(0 <= size * q) by (nonlinear_arith)
        requires
            a == size * q + a % size,
            a >= 0,
            a % size < size,
            size > 0,
    ;
}

/// A name that was looked up is what its address stands for, under the domain it was found in.
pub proof fn law_reverse_of_lookup(s: DnsState, name: Seq<char>)
    requires
        s.wf(),
    ensures
        s.lookup(name).1 matches Some(m) ==> {
            &&& name_of(name) == Some(NameSpec::Host(lower(name)))
            &&& s.lookup(name).0.reverse(m.ip) == Some(lower(name))
            &&& !s.hosts.contains_key(lower(name)) ==> s.lookup(name).0.reverse_domain(m.ip)
                == s.matched_domain(name)
        },
{
    s.lemma_lookup_wf(name);
    let after = s.lookup(name).0;
    if let Some(m) = s.lookup(name).1 {
        let h = lower(name);
        assert(after.hosts.contains_key(h) && after.hosts[h].ip == m.ip);
    }
}

/// A second lookup of a name changes nothing and finds the same address.
pub proof fn law_lookup_is_stable(s: DnsState, name: Seq<char>)
    ensures
        s.lookup(name).1 is Some ==> s.lookup(name).0.lookup(name) == s.lookup(name),
{
}

/// A host keeps its address when other services register it too.
pub proof fn law_shared_host_keeps_its_address(
    s: DnsState,
    addr: Seq<char>,
    first: Seq<char>,
    second: Seq<char>,
)
    ensures
        s.register(addr, first).1 matches RegisterOutcome::Hostname(ip) ==> s.register(
            addr,
            first,
        ).0.register(addr, second).1 == RegisterOutcome::Hostname(ip),
{
}

/// An address that a registration or a lookup newly hands out is neither reserved nor that of
/// another host.
pub proof fn law_fresh_address(s: DnsState, name: Seq<char>, service: Seq<char>)
    requires
        s.wf(),
    ensures
        s.register(name, service).1 matches RegisterOutcome::Hostname(ip) ==> s.hosts.contains_key(
            lower(name),
        ) || !s.used().contains(ip),
        s.lookup(name).1 matches Some(m) ==> s.hosts.contains_key(lower(name)) || !s.used().contains(
            m.ip,
        ),
{
    s.lemma_allocate();
}

/// After a service dropped its claims, it claims no host and no domain.
pub proof fn law_deregister_is_complete(s: DnsState, service: Seq<char>)
    ensures
        forall|n: Seq<char>| #[trigger]
            s.deregister(service).hosts.contains_key(n) ==> !s.deregister(
                service,
            ).hosts[n].claims.contains(service),
        forall|d: Seq<char>| #[trigger]
            s.deregister(service).domains.contains_key(d) ==> !s.deregister(
                service,
            ).domains[d].contains(service),
{
}

/// What another service claims stays when a service drops its claims: a host with its address, a
/// domain, and every host that was looked up under that domain.
pub proof fn law_shared_claims_survive(s: DnsState, service: Seq<char>, other: Seq<char>)
    requires
        service != other,
    ensures
        forall|n: Seq<char>| #[trigger]
            s.hosts.contains_key(n) && s.hosts[n].claims.contains(other) ==> s.deregister(
                service,
            ).hosts.contains_key(n) && s.deregister(service).hosts[n].ip == s.hosts[n].ip,
        forall|d: Seq<char>| #[trigger]
            s.domains.contains_key(d) && s.domains[d].contains(other) ==> s.deregister(
                service,
            ).domains.contains_key(d),
        forall|n: Seq<char>, d: Seq<char>|
            s.hosts.contains_key(n) && s.hosts[n].domain == Some(d) && s.domains.contains_key(d)
                && #[trigger] s.domains[d].contains(other) ==> #[trigger] s.deregister(
                service,
            ).hosts.contains_key(n) && s.deregister(service).hosts[n].ip == s.hosts[n].ip,
{
    assert forall|n: Seq<char>| #[trigger]
        s.hosts.contains_key(n) && s.hosts[n].claims.contains(other) implies s.deregister(
        service,
    ).hosts.contains_key(n) by {
        assert(s.hosts[n].claims.remove(service).contains(other));
    }
    assert forall|d: Seq<char>| #[trigger]
        s.domains.contains_key(d) && s.domains[d].contains(other) implies s.domains[d].remove(service)
        != Set::<Seq<char>>::empty() by {
        assert(s.domains[d].remove(service).contains(other));
    }
}

/// A host that nobody but the service claims, neither itself nor through a domain, is gone with it,
/// and its address may be handed out again unless it is reserved.
pub proof fn law_orphan_is_released(s: DnsState, service: Seq<char>, name: Seq<char>)
    requires
        s.wf(),
        s.hosts.contains_key(name),
        !s.survives(s.hosts[name], service),
        !s.reserved.contains(s.hosts[name].ip),
    ensures
        !s.deregister(service).hosts.contains_key(name),
        s.deregister(service).reverse(s.hosts[name].ip) is None,
        !s.deregister(service).used().contains(s.hosts[name].ip),
{
    let after = s.deregister(service);
    assert forall|n: Seq<char>| #[trigger] after.hosts.contains_key(n) implies after.hosts[n].ip
        != s.hosts[name].ip by {
        assert(s.hosts.contains_key(n));
    }
}

/// An address is handed out as long as one is left: where none is, every address of the pool but its
/// first and its last is reserved or stands for a host.
pub proof fn law_no_address_is_held_back(s: DnsState, ip: u32)
    requires
        s.wf(),
        s.allocate() is None,
        s.pool matches Some(p) && p.base < ip < p.base + p.size - 1,
    ensures
        s.used().contains(ip),
{
    let p = s.pool->0;
    p.lemma_next_free(s.used(), 0);
    let k = ip - p.base;
    let size = p.size as int;
    let i: int = if k >= p.next {
        k - p.next
    } else {
        k - p.next + size
    };
    assert((p.next + i) % size == k) by {
        if k >= p.next {
            vstd::arithmetic::div_mod::lemma_small_mod(k as nat, size as nat);
        } else {
            vstd::arithmetic::div_mod::lemma_mod_add_multiples_vanish(k, size);
            vstd::arithmetic::div_mod::lemma_small_mod(k as nat, size as nat);
        }
    }
    assert(p.offset(i as nat) == k as nat);
}

} // verus!
