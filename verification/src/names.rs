//! Names of hosts and domains, and the relation between a name and the domains it lies in.

use vstd::prelude::*;
use vstd::utf8::encode_utf8;

use crate::text::{chars_of, string_of};

verus! {

/// The number of bytes from which on a name is refused.
pub const MAX_DNS_NAME: usize = 256;

/// The lower case of an ASCII letter; any other character is itself.
pub open spec fn lower_char(c: char) -> char {
    if 'A' <= c && c <= 'Z' {
        ((c as u32 + 32) as u8) as char
    } else {
        c
    }
}

/// A text with its ASCII letters in lower case.
pub open spec fn lower(s: Seq<char>) -> Seq<char> {
    s.map_values(|c: char| lower_char(c))
}

/// Whether a text begins with `*.`, the mark of a wildcard domain.
pub open spec fn has_wildcard_mark(s: Seq<char>) -> bool {
    s.len() >= 2 && s[0] == '*' && s[1] == '.'
}

/// What an address of a configuration names, normalised.
pub enum NameSpec {
    Host(Seq<char>),
    Domain(Seq<char>),
}

/// The name that a text gives: a domain if it begins with the wildcard mark, else a host; `None` if
/// the name has 256 bytes or more.
pub open spec fn name_of(s: Seq<char>) -> Option<NameSpec> {
    let domain = has_wildcard_mark(s);
    let rest = lower(
        if domain {
            s.skip(2)
        } else {
            s
        },
    );
    if encode_utf8(rest).len() >= MAX_DNS_NAME {
        None
    } else if domain {
        Some(NameSpec::Domain(rest))
    } else {
        Some(NameSpec::Host(rest))
    }
}

/// A normalised name.
pub enum Name {
    Host(String),
    Domain(String),
}

impl View for Name {
    type V = NameSpec;

    open spec fn view(&self) -> NameSpec {
        match self {
            Name::Host(s) => NameSpec::Host(s@),
            Name::Domain(s) => NameSpec::Domain(s@),
        }
    }
}

/// Whether `s` begins with the wildcard mark.
pub fn is_wildcard(s: &str) -> (r: bool)
    ensures
        r == has_wildcard_mark(s@),
{
    let chars = chars_of(s);
    chars.len() >= 2 && chars[0] == '*' && chars[1] == '.'
}

fn lower_one(c: char) -> (r: char)
    ensures
        r == lower_char(c),
{
    if 'A' <= c && c <= 'Z' {
        ((c as u32 + 32) as u8) as char
    } else {
        c
    }
}

/// Normalises a name.
pub fn check_name(s: &str) -> (r: Option<Name>)
    ensures
        match r {
            Some(n) => name_of(s@) == Some(n@),
            None => name_of(s@) is None,
        },
{
    let chars = chars_of(s);
    let domain: bool = is_wildcard(s);
    let from: usize = if domain {
        2
    } else {
        0
    };
    let mut out: String = String::new();
    let mut i: usize = from;
    let ghost rest: Seq<char> = if domain {
        s@.skip(2)
    } else {
        s@
    };
    while i < chars.len()
        invariant
            from <= i <= chars@.len(),
            chars@ == s@,
            rest == s@.skip(from as int),
            out@ == lower(rest.take(i - from)),
        decreases chars@.len() - i,
    {
        out.push(lower_one(chars[i]));
        i += 1;
        assert(out@ =~= lower(rest.take(i - from)));
    }
    assert(rest.take(i - from) =~= rest);
    if out.as_str().as_bytes().len() >= MAX_DNS_NAME {
        return None;
    }
    if domain {
        Some(Name::Domain(out))
    } else {
        Some(Name::Host(out))
    }
}

/// The position of the first dot, or the length where there is none.
pub open spec fn first_dot(s: Seq<char>) -> int
    decreases s.len(),
{
    if s.len() == 0 || s[0] == '.' {
        0
    } else {
        1 + first_dot(s.skip(1))
    }
}

pub proof fn lemma_first_dot(s: Seq<char>)
    ensures
        0 <= first_dot(s) <= s.len(),
        forall|i: int| 0 <= i < first_dot(s) ==> s[i] != '.',
        first_dot(s) < s.len() ==> s[first_dot(s)] == '.',
    decreases s.len(),
{
    if s.len() > 0 && s[0] != '.' {
        lemma_first_dot(s.skip(1));
        assert forall|i: int| 0 <= i < first_dot(s) implies s[i] != '.' by {
            if i > 0 {
                assert(s.skip(1)[i - 1] == s[i]);
            }
        }
    }
}

/// The first of `name`, what follows its first dot, what follows the second, and so on, that is one
/// of `domains`: the closest domain that the name lies in.
pub open spec fn closest(domains: Set<Seq<char>>, name: Seq<char>) -> Option<Seq<char>>
    decreases name.len(),
{
    if domains.contains(name) {
        Some(name)
    } else if first_dot(name) < name.len() && 0 <= first_dot(name) {
        closest(domains, name.skip(first_dot(name) + 1))
    } else {
        None
    }
}

/// Whether `name` is `domain` or ends in a dot and `domain`.
pub open spec fn lies_in(name: Seq<char>, domain: Seq<char>) -> bool {
    name == domain || (name.len() > domain.len() && name[name.len() - domain.len() - 1] == '.'
        && name.skip(name.len() - domain.len()) == domain)
}

/// The closest domain of a name is one that the name lies in.
pub proof fn lemma_closest_lies_in(domains: Set<Seq<char>>, name: Seq<char>)
    ensures
        closest(domains, name) matches Some(d) ==> domains.contains(d) && lies_in(name, d),
    decreases name.len(),
{
    lemma_first_dot(name);
    if !domains.contains(name) && first_dot(name) < name.len() {
        let k = first_dot(name) + 1;
        let rest = name.skip(k);
        lemma_closest_lies_in(domains, rest);
        if let Some(d) = closest(domains, rest) {
            if rest == d {
                assert(name.skip(name.len() - d.len()) =~= d);
            } else {
                assert(name[name.len() - d.len() - 1] == rest[rest.len() - d.len() - 1]);
                assert(name.skip(name.len() - d.len()) =~= rest.skip(rest.len() - d.len()));
            }
        }
    }
}

/// No domain that the name lies in is longer than the closest one, and there is a closest one if the
/// name lies in any.
pub proof fn law_closest_domain_is_longest(domains: Set<Seq<char>>, name: Seq<char>, d: Seq<char>)
    requires
        domains.contains(d),
        lies_in(name, d),
    ensures
        closest(domains, name) matches Some(c) && c.len() >= d.len(),
    decreases name.len(),
{
    lemma_first_dot(name);
    if !domains.contains(name) {
        let at = name.len() - d.len() - 1;
        assert(name[at] == '.');
        let k = first_dot(name);
        assert(k <= at);
        let rest = name.skip(k + 1);
        if k == at {
            assert(rest =~= d);
        } else {
            assert(rest[rest.len() - d.len() - 1] == name[at]);
            assert(rest.skip(rest.len() - d.len()) =~= d);
        }
        law_closest_domain_is_longest(domains, rest, d);
    }
}

/// The text of `s` from the character `from` on.
pub fn tail_of(s: &str, from: usize) -> (r: String)
    requires
        from <= s@.len(),
    ensures
        r@ == s@.skip(from as int),
{
    let chars = chars_of(s);
    let n: usize = chars.len();
    let out = string_of(&chars, from, n);
    assert(out@ =~= s@.skip(from as int));
    out
}

/// Whether `name` is `domain` or ends in a dot and `domain`.
pub fn is_under(name: &str, domain: &str) -> (r: bool)
    ensures
        r == lies_in(name@, domain@),
{
    let n = chars_of(name);
    let d = chars_of(domain);
    if n.len() < d.len() {
        return false;
    }
    let total: usize = n.len();
    let gap: usize = total - d.len();
    let mut i: usize = 0;
    while i < d.len()
        invariant
            i <= d@.len(),
            gap + d@.len() == total,
            total == n@.len(),
            n@ == name@,
            d@ == domain@,
            forall|j: int| 0 <= j < i ==> n@[gap + j] == d@[j],
        decreases d@.len() - i,
    {
        if n[gap + i] != d[i] {
            assert(name@.skip(gap as int)[i as int] == n@[gap + i]);
            assert(gap == 0 ==> name@[i as int] != domain@[i as int]);
            return false;
        }
        i += 1;
    }
    assert(name@.skip(gap as int) =~= domain@);
    assert(gap == 0 ==> name@.skip(gap as int) =~= name@);
    gap == 0 || n[gap - 1] == '.'
}

} // verus!
