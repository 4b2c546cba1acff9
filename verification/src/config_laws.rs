//! What holds of a service's configuration and of the names that it gives.

use vstd::prelude::*;
use vstd::utf8::encode_utf8;

use crate::addr::{net_text, IpAddr, IpNet};
use crate::config::{
    admits, first_of_type, literal_nets, opt_nets, sources_of, texts, timeout_of, unstarred,
    ConfigState, InterceptV1Config, Service, ServiceConfig,
};
use crate::names::{first_dot, has_wildcard_mark, lies_in, lower, name_of, Name, NameSpec};

verus! {

proof fn lemma_first_of_type(configs: Seq<ServiceConfig>, config_type: Seq<char>)
    ensures
        0 <= first_of_type(configs, config_type) <= configs.len(),
        first_of_type(configs, config_type) < configs.len() ==> configs[first_of_type(
            configs,
            config_type,
        )].config_type@ == config_type,
        forall|j: int|
            0 <= j < first_of_type(configs, config_type) ==> (#[trigger] configs[j]).config_type@
                != config_type,
    decreases configs.len(),
{
    if configs.len() > 0 && configs[0].config_type@ != config_type {
        let rest = configs.skip(1);
        lemma_first_of_type(rest, config_type);
        assert forall|j: int| 0 <= j < first_of_type(configs, config_type) implies (
        #[trigger] configs[j]).config_type@ != config_type by {
            if j > 0 {
                assert(rest[j - 1] == configs[j]);
            }
        }
    }
}

/// The configuration of a service that says what it intercepts is the first of the type
/// `intercept.v1`: it has that type and none before it has. A service is without one only if none of
/// its configurations has the type.
pub proof fn law_intercept_configuration_is_the_first_of_its_type(svc: &Service)
    ensures
        0 <= svc.intercept_index() <= svc.configs@.len(),
        svc.intercept_index() < svc.configs@.len() ==> svc.configs@[svc.intercept_index()].config_type@
            == "intercept.v1"@,
        forall|j: int|
            0 <= j < svc.intercept_index() ==> (#[trigger] svc.configs@[j]).config_type@
                != "intercept.v1"@,
        (exists|j: int|
            0 <= j < svc.configs@.len() && (#[trigger] svc.configs@[j]).config_type@
                == "intercept.v1"@) <==> svc.intercept_index() < svc.configs@.len(),
{
    lemma_first_of_type(svc.configs@, "intercept.v1"@);
    if svc.intercept_index() < svc.configs@.len() {
        let j = svc.intercept_index();
        assert(svc.configs@[j].config_type@ == "intercept.v1"@);
    }
}

/// A service may be dialled just if one of its permissions is `Dial`.
pub proof fn law_dial_permission(svc: &Service)
    ensures
        svc.dials() <==> exists|i: int|
            0 <= i < svc.permissions@.len() && (#[trigger] svc.permissions@[i])@ == "Dial"@,
{
}

/// What the rules of interception read of a configuration is what stands in it.
pub proof fn law_configuration_is_read_as_it_stands(cfg: &InterceptV1Config, i: int)
    ensures
        cfg@.protocols.len() == cfg.protocols@.len(),
        0 <= i < cfg.protocols@.len() ==> cfg@.protocols[i] == cfg.protocols@[i]@,
        cfg@.addresses.len() == cfg.addresses@.len(),
        0 <= i < cfg.addresses@.len() ==> cfg@.addresses[i] == cfg.addresses@[i]@,
        cfg@.port_ranges == cfg.port_ranges@,
        cfg@.allowed_source_addresses.len() == cfg.allowed_source_addresses@.len(),
        0 <= i < cfg.allowed_source_addresses@.len() ==> cfg@.allowed_source_addresses[i]
            == cfg.allowed_source_addresses@[i]@,
        cfg.dial_options is None ==> cfg@.connect_timeout_seconds is None,
        cfg.dial_options matches Some(o) ==> cfg@.connect_timeout_seconds == o.connect_timeout_seconds,
        forall|s: Option<Vec<IpNet>>| #[trigger]
            opt_nets(s) == (match s {
                Some(v) => Some(v@),
                None => None,
            }),
{
}

/// A dial may take the seconds that the configuration gives, fifteen where it gives zero, and five
/// where it gives none.
pub proof fn law_dial_timeout(cfg: ConfigState, n: u32)
    ensures
        cfg.connect_timeout_seconds is None ==> timeout_of(cfg) == 5,
        cfg.connect_timeout_seconds == Some(0u32) ==> timeout_of(cfg) == 15,
        n > 0 && cfg.connect_timeout_seconds == Some(n) ==> timeout_of(cfg) == n,
{
}

/// The networks that a list of texts writes are those of its parts, one after the other; a text by
/// itself gives the network that it writes, or none.
pub proof fn law_networks_of_a_list(a: Seq<Seq<char>>, x: Seq<char>, b: Seq<Seq<char>>)
    ensures
        literal_nets(a + b) == literal_nets(a) + literal_nets(b),
        literal_nets(seq![x]) == (match net_text(x) {
            Some(n) => seq![n],
            None => Seq::<IpNet>::empty(),
        }),
        literal_nets(Seq::<Seq<char>>::empty()).len() == 0,
    decreases b.len(),
{
    assert(seq![x].drop_last() =~= Seq::<Seq<char>>::empty());
    assert(literal_nets(seq![x].drop_last()) =~= Seq::<IpNet>::empty());
    if b.len() == 0 {
        assert(a + b =~= a);
        assert(literal_nets(b) =~= Seq::<IpNet>::empty());
        assert(literal_nets(a) + literal_nets(b) =~= literal_nets(a));
    } else {
        let rest = b.drop_last();
        law_networks_of_a_list(a, x, rest);
        assert((a + b).drop_last() =~= a + rest);
        assert((a + b).last() == b.last());
        match net_text(b.last()) {
            Some(n) => {
                assert(literal_nets(a + rest).push(n) =~= literal_nets(a) + literal_nets(rest).push(n));
            },
            None => {},
        }
    }
}

/// A list of networks has those that the list of texts writes, and no other.
pub proof fn law_networks_are_those_written(s: Seq<Seq<char>>, n: IpNet)
    ensures
        literal_nets(s).contains(n) <==> exists|i: int|
            0 <= i < s.len() && net_text(#[trigger] s[i]) == Some(n),
    decreases s.len(),
{
    if s.len() > 0 {
        let rest = s.drop_last();
        law_networks_are_those_written(rest, n);
        let all = literal_nets(s);
        let before = literal_nets(rest);
        if literal_nets(s).contains(n) {
            let k = choose|k: int| 0 <= k < all.len() && all[k] == n;
            if k < before.len() {
                assert(before[k] == n);
                let i = choose|i: int| 0 <= i < rest.len() && net_text(#[trigger] rest[i]) == Some(n);
                assert(s[i] == rest[i]);
            } else {
                assert(s[s.len() - 1] == s.last());
            }
        }
        if exists|i: int| 0 <= i < s.len() && net_text(#[trigger] s[i]) == Some(n) {
            let i = choose|i: int| 0 <= i < s.len() && net_text(#[trigger] s[i]) == Some(n);
            if i < rest.len() {
                assert(rest[i] == s[i]);
                let k = choose|k: int| 0 <= k < before.len() && before[k] == n;
                assert(all[k] == n);
            } else {
                assert(all[before.len() as int] == n);
            }
        }
    }
}

proof fn lemma_unstarred_has(s: Seq<Seq<char>>, x: Seq<char>)
    ensures
        unstarred(s).contains(x) <==> s.contains(x) && !(x.len() > 0 && x[0] == '*'),
    decreases s.len(),
{
    if s.len() > 0 {
        let rest = s.drop_last();
        lemma_unstarred_has(rest, x);
        let all = unstarred(s);
        let before = unstarred(rest);
        if all.contains(x) {
            let k = choose|k: int| 0 <= k < all.len() && all[k] == x;
            if k < before.len() {
                assert(before[k] == x);
                let i = choose|i: int| 0 <= i < rest.len() && rest[i] == x;
                assert(s[i] == x);
            } else {
                assert(s[s.len() - 1] == x);
            }
        }
        if s.contains(x) && !(x.len() > 0 && x[0] == '*') {
            let i = choose|i: int| 0 <= i < s.len() && s[i] == x;
            if i < rest.len() {
                assert(rest[i] == x);
                let k = choose|k: int| 0 <= k < before.len() && before[k] == x;
                assert(all[k] == x);
            } else {
                assert(all[before.len() as int] == x);
            }
        }
    }
}

/// Whether a text does not begin with an asterisk and writes a network with the source in it.
pub open spec fn lets_in(text: Seq<char>, src: IpAddr) -> bool {
    !(text.len() > 0 && text[0] == '*') && match net_text(text) {
        Some(n) => n.covers(src),
        None => false,
    }
}

proof fn lemma_admitted_is_let_in(allowed: Seq<Seq<char>>, src: IpAddr) -> (i: int)
    requires
        allowed.len() > 0,
        admits(sources_of(allowed), src),
    ensures
        0 <= i < allowed.len(),
        lets_in(allowed[i], src),
{
    let kept = unstarred(allowed);
    let nets = literal_nets(kept);
    assert(sources_of(allowed) == Some(nets));
    let k = choose|k: int| 0 <= k < nets.len() && (#[trigger] nets[k]).covers(src);
    law_networks_are_those_written(kept, nets[k]);
    assert(nets.contains(nets[k]));
    let j = choose|j: int| 0 <= j < kept.len() && net_text(#[trigger] kept[j]) == Some(nets[k]);
    lemma_unstarred_has(allowed, kept[j]);
    assert(kept.contains(kept[j]));
    choose|i: int| 0 <= i < allowed.len() && allowed[i] == kept[j]
}

proof fn lemma_let_in_is_admitted(allowed: Seq<Seq<char>>, src: IpAddr, i: int)
    requires
        0 <= i < allowed.len(),
        lets_in(allowed[i], src),
    ensures
        admits(sources_of(allowed), src),
{
    let kept = unstarred(allowed);
    let nets = literal_nets(kept);
    let n = net_text(allowed[i])->0;
    lemma_unstarred_has(allowed, allowed[i]);
    assert(allowed.contains(allowed[i]));
    let j = choose|j: int| 0 <= j < kept.len() && kept[j] == allowed[i];
    assert(kept.contains(allowed[i]));
    assert(0 <= j < kept.len() && net_text(kept[j]) == Some(n));
    law_networks_are_those_written(kept, n);
    assert(nets.contains(n));
    let k = choose|k: int| 0 <= k < nets.len() && nets[k] == n;
    assert(0 <= k < nets.len() && nets[k] == n);
    assert(nets[k].covers(src));
    assert(admits(Some(nets), src));
}

/// A source is admitted just if the list of allowed addresses is empty or has a text that does not
/// begin with an asterisk and writes a network with the source in it.
pub proof fn law_who_is_admitted(allowed: Seq<Seq<char>>, src: IpAddr)
    ensures
        allowed.len() == 0 ==> admits(sources_of(allowed), src),
        allowed.len() > 0 ==> (admits(sources_of(allowed), src) <==> exists|i: int|
            0 <= i < allowed.len() && lets_in(#[trigger] allowed[i], src)),
{
    if allowed.len() > 0 {
        if admits(sources_of(allowed), src) {
            let i = lemma_admitted_is_let_in(allowed, src);
            assert(lets_in(allowed[i], src));
        } else {
            assert forall|i: int| 0 <= i < allowed.len() implies !lets_in(#[trigger] allowed[i], src) by {
                if lets_in(allowed[i], src) {
                    lemma_let_in_is_admitted(allowed, src, i);
                }
            }
        }
    }
}

/// In lower case each of the letters from `A` to `Z` is the one that stands 32 places after it, and
/// every other character is itself.
pub proof fn law_lower_case(s: Seq<char>, i: int)
    requires
        0 <= i < s.len(),
    ensures
        lower(s).len() == s.len(),
        'A' <= s[i] <= 'Z' ==> lower(s)[i] as int == s[i] as int + 32,
        !('A' <= s[i] <= 'Z') ==> lower(s)[i] == s[i],
        lower(lower(s)) == lower(s),
{
    assert(lower(lower(s)) =~= lower(s));
}

/// What an address of a configuration names: behind the mark `*.` it is a domain, else a host, in
/// lower case. A name of 256 bytes or more is none.
pub proof fn law_names_of_addresses(s: Seq<char>)
    ensures
        name_of(seq!['*', '.'] + s) == (if encode_utf8(lower(s)).len() >= 256 {
            None
        } else {
            Some(NameSpec::Domain(lower(s)))
        }),
        !(s.len() >= 2 && s[0] == '*' && s[1] == '.') ==> name_of(s) == (if encode_utf8(lower(s)).len()
            >= 256 {
            None
        } else {
            Some(NameSpec::Host(lower(s)))
        }),
        has_wildcard_mark(seq!['*', '.'] + s),
        has_wildcard_mark(s) ==> s == seq!['*', '.'] + s.skip(2),
{
    assert((seq!['*', '.'] + s).skip(2) =~= s);
    if has_wildcard_mark(s) {
        assert(s =~= seq!['*', '.'] + s.skip(2));
    }
}

/// A name is told by its kind and its text as they stand.
pub proof fn law_names_are_read_as_they_stand(name: &Name)
    ensures
        match *name {
            Name::Host(h) => name@ == NameSpec::Host(h@),
            Name::Domain(d) => name@ == NameSpec::Domain(d@),
        },
{
}

/// A name lies in a domain just if it is the domain or is something, a dot and the domain.
pub proof fn law_names_in_a_domain(p: Seq<char>, name: Seq<char>, domain: Seq<char>)
    ensures
        lies_in(domain, domain),
        lies_in(p + seq!['.'] + domain, domain),
        lies_in(name, domain) && name != domain ==> name.len() > domain.len() && name == name.take(
            name.len() - domain.len() - 1,
        ) + seq!['.'] + domain,
{
    let t = p + seq!['.'] + domain;
    assert(t.skip(t.len() - domain.len()) =~= domain);
    if lies_in(name, domain) && name != domain {
        assert(name =~= name.take(name.len() - domain.len() - 1) + seq!['.'] + domain);
    }
}

/// The first dot of a text is one before which there is no other.
pub proof fn law_first_dot(p: Seq<char>, rest: Seq<char>)
    requires
        forall|i: int| 0 <= i < p.len() ==> p[i] != '.',
    ensures
        first_dot(p + seq!['.'] + rest) == p.len(),
        first_dot(p) == p.len(),
    decreases p.len(),
{
    let t = p + seq!['.'] + rest;
    if p.len() > 0 {
        law_first_dot(p.skip(1), rest);
        assert(t.skip(1) =~= p.skip(1) + seq!['.'] + rest);
    }
}

} // verus!
