//! What each operation of the registry of names does to its hosts, its domains and its pool.

use vstd::prelude::*;
use vstd::utf8::encode_utf8;

use crate::dns::{names, DnsState, Pool, RegisterOutcome};
use crate::names::lower;

verus! {

/// Whether an address was reserved or is that of a host.
pub open spec fn taken(s: DnsState, ip: u32) -> bool {
    s.reserved.contains(ip) || exists|n: Seq<char>| #[trigger]
        s.hosts.contains_key(n) && s.hosts[n].ip == ip
}

/// Whether the address at an offset of the pool could be handed out: it is neither the first of the block
/// nor the last, and it is not taken.
pub open spec fn vacant(s: DnsState, p: Pool, offset: int) -> bool {
    0 < offset && offset < p.size - 1 && !taken(s, (p.base + offset) as u32)
}

proof fn lemma_next_free_is_first(p: Pool, used: Set<u32>, i: nat) -> (j: nat)
    requires
        p.wf(),
        p.next_free(used, i) is Some,
    ensures
        i <= j < p.size,
        p.next_free(used, i) == Some(p.offset(j)),
        p.free(used, p.offset(j)),
        forall|t: nat| i <= t < j ==> !p.free(used, #[trigger] p.offset(t)),
    decreases p.size - i,
{
    if p.free(used, p.offset(i)) {
        i
    } else {
        lemma_next_free_is_first(p, used, i + 1)
    }
}

/// An address is handed out in turn: it is the first vacant one from where the pool stands, around the
/// block, and the pool then stands behind it. Nothing else of the pool changes.
pub proof fn law_addresses_are_handed_out_in_turn(s: DnsState)
    requires
        s.wf(),
        s.allocate() is Some,
    ensures
        s.pool is Some,
        ({
            let p = s.pool->0;
            let (ip, after) = s.allocate()->0;
            &&& exists|j: nat|
                {
                    &&& j < p.size
                    &&& ip == p.base + #[trigger] p.offset(j)
                    &&& vacant(s, p, (p.next + j) % (p.size as int))
                    &&& forall|t: nat| t < j && #[trigger] p.offset(t) >= 0 ==> !vacant(
                        s,
                        p,
                        (p.next + t) % (p.size as int),
                    )
                    &&& p.offset(j) == (p.next + j) % (p.size as int)
                }
            &&& after.base == p.base
            &&& after.size == p.size
            &&& after.next == (ip - p.base + 1) % (p.size as int)
        }),
{
    let p = s.pool->0;
    let used = s.used();
    let j = lemma_next_free_is_first(p, used, 0);
    let (ip, after) = s.allocate()->0;
    assert forall|i: u32| #[trigger] used.contains(i) <==> taken(s, i) by {}
    assert(ip == p.base + p.offset(j));
    assert(!used.contains(ip));
    assert(vacant(s, p, (p.next + j) % (p.size as int)));
    assert forall|t: nat| t < j && #[trigger] p.offset(t) >= 0 implies !vacant(
        s,
        p,
        (p.next + t) % (p.size as int),
    ) by {
        assert(!p.free(used, p.offset(t)));
    }
    vstd::arithmetic::div_mod::lemma_mod_bound(p.offset(j) as int + 1, p.size as int);
}

/// A registry without a pool hands out nothing.
pub proof fn law_no_pool_no_address(s: DnsState)
    requires
        s.pool is None,
    ensures
        s.allocate() is None,
{
}

/// To register a wildcard domain adds the service to the claims on it, in lower case and without its
/// mark. Every other domain, the hosts, the pool and what is reserved stay as they are.
pub proof fn law_registered_domain(s: DnsState, name: Seq<char>, service: Seq<char>, other: Seq<char>)
    requires
        encode_utf8(lower(name)).len() < 256,
    ensures
        ({
            let (after, outcome) = s.register(seq!['*', '.'] + name, service);
            &&& outcome == RegisterOutcome::Domain
            &&& after.domains.contains_key(lower(name))
            &&& after.domains[lower(name)].contains(service)
            &&& s.domains.contains_key(lower(name)) ==> after.domains[lower(name)] == s.domains[lower(
                name,
            )].insert(service)
            &&& !s.domains.contains_key(lower(name)) ==> after.domains[lower(name)] == set![service]
            &&& other != lower(name) ==> (after.domains.contains_key(other) <==> s.domains.contains_key(
                other,
            ))
            &&& other != lower(name) && s.domains.contains_key(other) ==> after.domains[other]
                == s.domains[other]
            &&& after.hosts == s.hosts
            &&& after.pool == s.pool
            &&& after.reserved == s.reserved
        }),
{
    crate::config_laws::law_names_of_addresses(name);
    let (after, outcome) = s.register(seq!['*', '.'] + name, service);
    if !s.domains.contains_key(lower(name)) {
        assert(after.domains[lower(name)] =~= set![service]);
    }
}

/// To register a host that is known adds the service to the claims on it; the host keeps its address and
/// nothing else changes. One that is not known gets the next address, claimed by the service alone, or
/// is refused and changes nothing where no address is left.
pub proof fn law_registered_host(s: DnsState, name: Seq<char>, service: Seq<char>, other: Seq<char>)
    requires
        !(name.len() >= 2 && name[0] == '*' && name[1] == '.'),
        encode_utf8(lower(name)).len() < 256,
    ensures
        ({
            let (after, outcome) = s.register(name, service);
            let h = lower(name);
            &&& s.hosts.contains_key(h) ==> {
                &&& outcome == RegisterOutcome::Hostname(s.hosts[h].ip)
                &&& after.hosts.contains_key(h)
                &&& after.hosts[h].ip == s.hosts[h].ip
                &&& after.hosts[h].domain == s.hosts[h].domain
                &&& after.hosts[h].claims == s.hosts[h].claims.insert(service)
                &&& after.pool == s.pool
            }
            &&& !s.hosts.contains_key(h) && s.allocate() is Some ==> {
                &&& outcome == RegisterOutcome::Hostname((s.allocate()->0).0)
                &&& after.hosts.contains_key(h)
                &&& after.hosts[h].ip == (s.allocate()->0).0
                &&& after.hosts[h].domain is None
                &&& after.hosts[h].claims == set![service]
                &&& after.pool == Some((s.allocate()->0).1)
            }
            &&& !s.hosts.contains_key(h) && s.allocate() is None ==> outcome
                == RegisterOutcome::IpUnavailable && after == s
            &&& other != h ==> (after.hosts.contains_key(other) <==> s.hosts.contains_key(other))
            &&& other != h && s.hosts.contains_key(other) ==> after.hosts[other] == s.hosts[other]
            &&& after.domains == s.domains
            &&& after.reserved == s.reserved
        }),
{
    crate::config_laws::law_names_of_addresses(name);
    let (after, outcome) = s.register(name, service);
    let h = lower(name);
    if !s.hosts.contains_key(h) && s.allocate() is Some {
        assert(after.hosts[h].claims =~= set![service]);
    }
}

/// A name of 256 bytes or more is neither registered nor found.
pub proof fn law_long_name_is_refused(s: DnsState, name: Seq<char>, service: Seq<char>)
    requires
        encode_utf8(lower(name)).len() >= 256,
    ensures
        s.register(seq!['*', '.'] + name, service) == (s, RegisterOutcome::Rejected),
        !(name.len() >= 2 && name[0] == '*' && name[1] == '.') ==> s.register(name, service) == (
            s,
            RegisterOutcome::Rejected,
        ) && s.lookup(name).0 == s && s.lookup(name).1 is None && s.matched_domain(name) is None,
{
    crate::config_laws::law_names_of_addresses(name);
}

/// To look a known host up gives its address and changes nothing. A name that is not known gets the next
/// address if a registered domain has it, and is then a host of its closest domain that no service
/// claims; else it is not found and nothing changes. A wildcard is never found.
pub proof fn law_looked_up_name(s: DnsState, name: Seq<char>, other: Seq<char>)
    ensures
        ({
            let (after, found) = s.lookup(name);
            let h = lower(name);
            let mark = name.len() >= 2 && name[0] == '*' && name[1] == '.';
            let short = encode_utf8(lower(name)).len() < 256;
            &&& mark ==> after == s && found is None
            &&& !mark && short && s.hosts.contains_key(h) ==> after == s && (found matches Some(m)
                && m.ip == s.hosts[h].ip)
            &&& !mark && short && !s.hosts.contains_key(h) && s.matched_domain(name) is Some
                && s.allocate() is Some ==> {
                &&& found matches Some(m) && m.ip == (s.allocate()->0).0
                &&& after.hosts.contains_key(h)
                &&& after.hosts[h].ip == (s.allocate()->0).0
                &&& after.hosts[h].domain == s.matched_domain(name)
                &&& after.hosts[h].claims == Set::<Seq<char>>::empty()
                &&& after.pool == Some((s.allocate()->0).1)
            }
            &&& !s.hosts.contains_key(h) && (s.matched_domain(name) is None || s.allocate() is None)
                ==> after == s && found is None
            &&& other != h ==> (after.hosts.contains_key(other) <==> s.hosts.contains_key(other))
            &&& other != h && s.hosts.contains_key(other) ==> after.hosts[other] == s.hosts[other]
            &&& after.domains == s.domains
            &&& after.reserved == s.reserved
        }),
{
    crate::config_laws::law_names_of_addresses(name);
    if crate::names::has_wildcard_mark(name) {
        crate::config_laws::law_names_of_addresses(name.skip(2));
    }
}

/// A name with the mark of a wildcard is matched to no domain.
pub proof fn law_wildcard_is_matched_to_nothing(s: DnsState, name: Seq<char>)
    ensures
        s.matched_domain(seq!['*', '.'] + name) is None,
{
    crate::config_laws::law_names_of_addresses(name);
}

/// The domain that a name is matched to is a registered one that the name lies in, and no registered
/// domain that it lies in is longer; there is none only where it lies in none.
pub proof fn law_matched_domain(s: DnsState, name: Seq<char>, other: Seq<char>)
    requires
        !(name.len() >= 2 && name[0] == '*' && name[1] == '.'),
        encode_utf8(lower(name)).len() < 256,
    ensures
        s.matched_domain(name) matches Some(d) ==> s.domains.contains_key(d) && crate::names::lies_in(
            lower(name),
            d,
        ),
        s.domains.contains_key(other) && crate::names::lies_in(lower(name), other) ==> (s.matched_domain(
            name,
        ) matches Some(d) && other.len() <= d.len()),
{
    crate::config_laws::law_names_of_addresses(name);
    crate::names::lemma_closest_lies_in(s.domains.dom(), lower(name));
    if s.domains.contains_key(other) && crate::names::lies_in(lower(name), other) {
        crate::names::law_closest_domain_is_longest(s.domains.dom(), lower(name), other);
    }
}

/// When a service drops its claims, a domain keeps the claims of the others and is gone where there are
/// none; a host keeps its address, its domain and the claims of the others, and is gone just where none
/// of them claims it and none claims its domain. The pool and what is reserved stay as they are.
pub proof fn law_dropped_claims(s: DnsState, service: Seq<char>, n: Seq<char>)
    ensures
        ({
            let after = s.deregister(service);
            &&& after.domains.contains_key(n) <==> s.domains.contains_key(n) && exists|c: Seq<char>|
                c != service && #[trigger] s.domains[n].contains(c)
            &&& after.domains.contains_key(n) ==> after.domains[n] == s.domains[n].remove(service)
            &&& after.hosts.contains_key(n) <==> s.hosts.contains_key(n) && ((exists|c: Seq<char>|
                c != service && #[trigger] s.hosts[n].claims.contains(c)) || (s.hosts[n].domain matches Some(
                d,
            ) && s.domains.contains_key(d) && exists|c: Seq<char>|
                c != service && #[trigger] s.domains[d].contains(c)))
            &&& after.hosts.contains_key(n) ==> after.hosts[n].ip == s.hosts[n].ip
                && after.hosts[n].domain == s.hosts[n].domain && after.hosts[n].claims
                == s.hosts[n].claims.remove(service)
            &&& after.pool == s.pool
            &&& after.reserved == s.reserved
        }),
{
    let after = s.deregister(service);
    lemma_others_claim(s.domains[n], service);
    lemma_others_claim(s.hosts[n].claims, service);
    if s.hosts.contains_key(n) {
        if let Some(d) = s.hosts[n].domain {
            lemma_others_claim(s.domains[d], service);
            assert(Set::<Seq<char>>::empty().remove(service) =~= Set::<Seq<char>>::empty());
        }
    }
}

proof fn lemma_others_claim(claims: Set<Seq<char>>, service: Seq<char>)
    ensures
        claims.remove(service) != Set::<Seq<char>>::empty() <==> exists|c: Seq<char>|
            c != service && #[trigger] claims.contains(c),
{
    if claims.remove(service) != Set::<Seq<char>>::empty() {
        if forall|c: Seq<char>| !#[trigger] claims.remove(service).contains(c) {
            assert(claims.remove(service) =~= Set::<Seq<char>>::empty());
        }
        let c = choose|c: Seq<char>| #[trigger] claims.remove(service).contains(c);
        assert(c != service && claims.contains(c));
    }
    if exists|c: Seq<char>| c != service && #[trigger] claims.contains(c) {
        let c = choose|c: Seq<char>| c != service && #[trigger] claims.contains(c);
        assert(claims.remove(service).contains(c));
    }
}

/// An address stands for the host that has it, and was handed out under the domain of that host; one that
/// no host has stands for none.
pub proof fn law_reverse_of_an_address(s: DnsState, n: Seq<char>, ip: u32)
    requires
        s.wf(),
    ensures
        s.hosts.contains_key(n) ==> s.reverse(s.hosts[n].ip) == Some(n) && s.reverse_domain(
            s.hosts[n].ip,
        ) == s.hosts[n].domain,
        (forall|m: Seq<char>| #[trigger] s.hosts.contains_key(m) ==> s.hosts[m].ip != ip)
            ==> s.reverse(ip) is None && s.reverse_domain(ip) is None,
{
    if s.hosts.contains_key(n) {
        let ip = s.hosts[n].ip;
        assert(s.hosts.contains_key(n) && s.hosts[n].ip == ip);
        let m = s.reverse(ip)->0;
        assert(s.hosts.contains_key(m) && s.hosts[m].ip == ip);
    }
}

/// A list of names has the names of its texts, and no other.
pub proof fn law_names_of_a_list(s: Seq<String>, n: Seq<char>)
    ensures
        names(s).contains(n) <==> exists|i: int| 0 <= i < s.len() && (#[trigger] s[i])@ == n,
{
}

} // verus!
