//! Addresses, socket addresses and networks.
//!
//! An address is its number: an IPv4 address is a `u32`, an IPv6 address a `u128`, most
//! significant byte first. The arithmetic on networks is that of the `ipnet` crate.

use vstd::arithmetic::power2::pow2;
use vstd::prelude::*;
#[allow(unused_imports)]
use vstd::utf8::encode_utf8;

#[allow(unused_imports)]
use crate::json::{dotted, law_addresses_are_told_apart};
use crate::table::Key;
use crate::text::{chars_of, string_of};

verus! {

/// An IP address of either family.
#[derive(Clone, Copy, Debug, PartialEq, Eq, Structural, Hash)]
pub enum IpAddr {
    V4(u32),
    V6(u128),
}

/// An address and a port.
#[derive(Clone, Copy, Debug, PartialEq, Eq, Structural, Hash)]
pub struct SocketAddr {
    pub ip: IpAddr,
    pub port: u16,
}

/// An IP network: an address, kept as it was written, and the length of its prefix.
#[allow(inconsistent_fields)]
#[derive(Clone, Copy, Debug, PartialEq, Eq, Structural, Hash)]
pub enum IpNet {
    V4 { addr: u32, prefix: u8 },
    V6 { addr: u128, prefix: u8 },
}

impl View for IpNet {
    type V = IpNet;

    open spec fn view(&self) -> IpNet {
        *self
    }
}

impl Key for IpNet {
    fn same(&self, other: &Self) -> (r: bool) {
        *self == *other
    }
}

/// The first address of the block of `2^bits` addresses that `addr` lies in.
pub open spec fn block_start(addr: int, bits: nat) -> int {
    addr - addr % (pow2(bits) as int)
}

/// The last address of the block of `2^bits` addresses that `addr` lies in.
pub open spec fn block_end(addr: int, bits: nat) -> int {
    block_start(addr, bits) + pow2(bits) - 1
}

impl IpNet {
    /// The prefix fits the family.
    pub open spec fn wf(&self) -> bool {
        match *self {
            IpNet::V4 { addr, prefix } => prefix <= 32,
            IpNet::V6 { addr, prefix } => prefix <= 128,
        }
    }

    /// The first address of the network, as a number of its family.
    pub open spec fn first(&self) -> int {
        match *self {
            IpNet::V4 { addr, prefix } => block_start(addr as int, (32 - prefix) as nat),
            IpNet::V6 { addr, prefix } => block_start(addr as int, (128 - prefix) as nat),
        }
    }

    /// The last address of the network, as a number of its family.
    pub open spec fn last(&self) -> int {
        match *self {
            IpNet::V4 { addr, prefix } => block_end(addr as int, (32 - prefix) as nat),
            IpNet::V6 { addr, prefix } => block_end(addr as int, (128 - prefix) as nat),
        }
    }

    /// Whether the network is of the address's family and has the address.
    pub open spec fn covers(&self, ip: IpAddr) -> bool {
        match ip {
            IpAddr::V4(a) => self is V4 && self.first() <= a as int <= self.last(),
            IpAddr::V6(a) => self is V6 && self.first() <= a as int <= self.last(),
        }
    }

    /// Whether the networks are of one family and every address of `other` is one of `self`.
    pub open spec fn covers_net(&self, other: IpNet) -> bool {
        (self is V4 <==> other is V4) && self.first() <= other.first() && other.last()
            <= self.last()
    }

    /// The network of the one address `ip`.
    pub open spec fn host_spec(ip: IpAddr) -> IpNet {
        match ip {
            IpAddr::V4(addr) => IpNet::V4 { addr, prefix: 32 },
            IpAddr::V6(addr) => IpNet::V6 { addr, prefix: 128 },
        }
    }

    /// The network of the one address `ip`.
    pub fn host(ip: IpAddr) -> (r: IpNet)
        ensures
            r == IpNet::host_spec(ip),
            r.wf(),
    {
        match ip {
            IpAddr::V4(addr) => IpNet::V4 { addr, prefix: 32 },
            IpAddr::V6(addr) => IpNet::V6 { addr, prefix: 128 },
        }
    }

    /// Whether the network has the address.
    pub fn contains(&self, ip: &IpAddr) -> (r: bool)
        requires
            self.wf(),
        ensures
            r == self.covers(*ip),
    {
        self.net_contains(ip)
    }

    /// `ipnet::IpNet::contains` of an address: of the network's own family, and from its network
    /// address to its broadcast address.
    #[verifier::external_body]
    fn net_contains(&self, ip: &IpAddr) -> (r: bool)
        requires
            self.wf(),
        ensures
            r == self.covers(*ip),
    {
        let net = match *self {
            IpNet::V4 { addr, prefix } => ipnet::IpNet::V4(ipnet::Ipv4Net::new_assert(addr.into(), prefix)),
            IpNet::V6 { addr, prefix } => ipnet::IpNet::V6(ipnet::Ipv6Net::new_assert(addr.into(), prefix)),
        };
        let host = match *ip {
            IpAddr::V4(a) => ipnet::IpNet::V4(ipnet::Ipv4Net::new_assert(a.into(), 32)),
            IpAddr::V6(a) => ipnet::IpNet::V6(ipnet::Ipv6Net::new_assert(a.into(), 128)),
        };
        net.contains(&host.addr())
    }

    /// `ipnet::Ipv4Net::contains` of a network, on the IPv4 network `addr/prefix`: no address of
    /// `other` lies outside it.
    #[verifier::external_body]
    pub(crate) fn v4_contains_v4(addr: u32, prefix: u8, other_addr: u32, other_prefix: u8) -> (r: bool)
        requires
            prefix <= 32,
            other_prefix <= 32,
        ensures
            r == (IpNet::V4 { addr, prefix }).covers_net(
                (IpNet::V4 { addr: other_addr, prefix: other_prefix }),
            ),
    {
        let net = ipnet::Ipv4Net::new_assert(addr.into(), prefix);
        net.contains(&ipnet::Ipv4Net::new_assert(other_addr.into(), other_prefix))
    }

    /// `ipnet::Ipv4Net::trunc`: the first address of the network `addr/prefix`.
    #[verifier::external_body]
    pub(crate) fn v4_trunc(addr: u32, prefix: u8) -> (r: u32)
        requires
            prefix <= 32,
        ensures
            r == (IpNet::V4 { addr, prefix }).first(),
    {
        u32::from(ipnet::Ipv4Net::new_assert(addr.into(), prefix).trunc().addr())
    }
}

/// The IPv4 address that a text writes: four decimal numbers below 256, none with a leading zero, with a
/// dot between each two.
pub open spec fn ipv4_text(s: Seq<char>) -> Option<u32> {
    if exists|a: u32| #[trigger] dotted(a) == encode_utf8(s) {
        Some(choose|a: u32| #[trigger] dotted(a) == encode_utf8(s))
    } else {
        None
    }
}

/// What the standard IPv6 address parser makes of a text.
pub uninterp spec fn ipv6_text(s: Seq<char>) -> Option<u128>;

/// The standard parser of IPv4 addresses (`str::parse` into the address type of an
/// `ipnet::Ipv4Net`): it takes an address in dotted decimals, without leading zeros, and nothing else.
#[verifier::external_body]
fn parse_v4(s: &str) -> (r: Option<u32>)
    ensures
        match r {
            Some(a) => dotted(a) == encode_utf8(s@),
            None => forall|a: u32| #[trigger] dotted(a) != encode_utf8(s@),
        },
{
    let net = ipnet::Ipv4Net::new_assert(s.parse().ok()?, 32);
    Some(u32::from(net.addr()))
}

/// The standard parser of IPv6 addresses (`str::parse` into the address type of an
/// `ipnet::Ipv6Net`), as a function of the text.
#[verifier::external_body]
fn parse_v6(s: &str) -> (r: Option<u128>)
    ensures
        r == ipv6_text(s@),
{
    let net = ipnet::Ipv6Net::new_assert(s.parse().ok()?, 128);
    Some(u128::from(net.addr()))
}

/// The text of an IPv4 address is read as that address.
pub proof fn law_written_address_is_read(a: u32, s: Seq<char>)
    requires
        dotted(a) == encode_utf8(s),
    ensures
        ipv4_text(s) == Some(a),
{
    law_addresses_are_told_apart(ipv4_text(s)->0, a);
}

/// The address that a text writes: an IPv4 address if it is one, else an IPv6 address.
pub open spec fn ip_text(s: Seq<char>) -> Option<IpAddr> {
    match ipv4_text(s) {
        Some(a) => Some(IpAddr::V4(a)),
        None => match ipv6_text(s) {
            Some(a) => Some(IpAddr::V6(a)),
            None => None,
        },
    }
}

/// Parses an IPv6 address.
pub fn parse_ipv6(s: &str) -> (r: Option<u128>)
    ensures
        r == ipv6_text(s@),
{
    parse_v6(s)
}

/// Parses an address.
pub fn parse_ip(s: &str) -> (r: Option<IpAddr>)
    ensures
        r == ip_text(s@),
{
    match parse_v4(s) {
        Some(a) => {
            proof {
                law_written_address_is_read(a, s@);
            }
            Some(IpAddr::V4(a))
        },
        None => match parse_ipv6(s) {
            Some(a) => Some(IpAddr::V6(a)),
            None => None,
        },
    }
}

/// Whether an IPv6 address carries an IPv4 address (`::ffff:a.b.c.d`).
pub open spec fn is_mapped(a: u128) -> bool {
    a as int / pow2(32) as int == 0xffff
}

/// The network of prefix length `prefix` at `ip`. An IPv6 network at an address that carries an
/// IPv4 address is the IPv4 network of that address, whose prefix is what is left beyond the 96
/// bits of the mapping.
pub open spec fn net_at(ip: IpAddr, prefix: nat) -> Option<IpNet> {
    match ip {
        IpAddr::V4(addr) => if prefix <= 32 {
            Some(IpNet::V4 { addr, prefix: prefix as u8 })
        } else {
            None
        },
        IpAddr::V6(a) => if prefix > 128 {
            None
        } else if is_mapped(a) {
            Some(
                IpNet::V4 {
                    addr: (a as int % pow2(32) as int) as u32,
                    prefix: if prefix <= 96 {
                        0
                    } else {
                        (prefix - 96) as u8
                    },
                },
            )
        } else {
            Some(IpNet::V6 { addr: a, prefix: prefix as u8 })
        },
    }
}

/// Builds the network of [`net_at`].
pub fn make_net(ip: IpAddr, prefix: u16) -> (r: Option<IpNet>)
    ensures
        r == net_at(ip, prefix as nat),
        r matches Some(n) ==> n.wf(),
{
    match ip {
        IpAddr::V4(addr) => {
            if prefix <= 32 {
                Some(IpNet::V4 { addr, prefix: prefix as u8 })
            } else {
                None
            }
        },
        IpAddr::V6(a) => {
            if prefix > 128 {
                return None;
            }
            proof {
                vstd::arithmetic::power2::lemma2_to64();
            }
            if a / 0x1_0000_0000 == 0xffff {
                let low: u128 = a % 0x1_0000_0000;
                let kept: u16 = if prefix <= 96 {
                    0
                } else {
                    prefix - 96
                };
                Some(IpNet::V4 { addr: low as u32, prefix: kept as u8 })
            } else {
                Some(IpNet::V6 { addr: a, prefix: prefix as u8 })
            }
        },
    }
}

/// The number that decimal digits write.
pub open spec fn decimal_value(s: Seq<char>) -> nat
    decreases s.len(),
{
    if s.len() == 0 {
        0
    } else {
        10 * decimal_value(s.drop_last()) + (s.last() as nat - '0' as nat) as nat
    }
}

/// A decimal digit.
pub open spec fn is_digit(c: char) -> bool {
    '0' <= c && c <= '9'
}

/// A prefix length as networks write it: one to three decimal digits, without a sign, and without
/// a leading zero unless it is the digit zero alone.
pub open spec fn prefix_text(s: Seq<char>) -> Option<nat> {
    if 1 <= s.len() <= 3 && (forall|i: int| 0 <= i < s.len() ==> is_digit(#[trigger] s[i])) && (s[0]
        != '0' || s.len() == 1) {
        Some(decimal_value(s))
    } else {
        None
    }
}

/// Reads a prefix length as [`prefix_text`] has it.
fn parse_prefix(s: &Vec<char>) -> (r: Option<u16>)
    ensures
        match r {
            Some(n) => prefix_text(s@) == Some(n as nat) && n <= 999,
            None => prefix_text(s@) is None,
        },
{
    let n: usize = s.len();
    if n == 0 || n > 3 {
        return None;
    }
    if s[0] == '0' && n > 1 {
        return None;
    }
    let mut value: u16 = 0;
    let mut i: usize = 0;
    while i < n
        invariant
            i <= n <= 3,
            n == s@.len(),
            forall|j: int| 0 <= j < i ==> is_digit(#[trigger] s@[j]),
            value == decimal_value(s@.take(i as int)),
            i == 0 ==> value == 0,
            i == 1 ==> value <= 9,
            i == 2 ==> value <= 99,
            i == 3 ==> value <= 999,
        decreases n - i,
    {
        let c: char = s[i];
        if c < '0' || c > '9' {
            assert(!is_digit(s@[i as int]));
            return None;
        }
        proof {
            assert(s@.take(i + 1).drop_last() =~= s@.take(i as int));
            assert(s@.take(i + 1).last() == c);
        }
        value = value * 10 + (c as u32 - 48) as u16;
        i += 1;
    }
    assert(s@.take(n as int) =~= s@);
    Some(value)
}

/// The position of the last `c` in `s`, if there is one.
pub open spec fn last_index(s: Seq<char>, c: char) -> Option<int>
    decreases s.len(),
{
    if s.len() == 0 {
        None
    } else if s.last() == c {
        Some(s.len() - 1)
    } else {
        last_index(s.drop_last(), c)
    }
}

/// Finds the last `c` in `s`.
pub fn find_last(s: &Vec<char>, c: char) -> (r: Option<usize>)
    ensures
        match r {
            Some(i) => last_index(s@, c) == Some(i as int) && i < s@.len() && s@[i as int] == c,
            None => last_index(s@, c) is None,
        },
{
    let mut i: usize = s.len();
    assert(s@.take(i as int) =~= s@);
    while i > 0
        invariant
            i <= s@.len(),
            last_index(s@, c) == last_index(s@.take(i as int), c),
        decreases i,
    {
        assert(s@.take(i as int).drop_last() =~= s@.take(i - 1));
        assert(s@.take(i as int).last() == s@[i - 1]);
        if s[i - 1] == c {
            return Some(i - 1);
        }
        i -= 1;
    }
    None
}

/// The network that an address of a configuration writes: an address, which stands for itself
/// alone, or an address, a slash and a prefix length. A text that is neither names a host.
pub open spec fn net_text(s: Seq<char>) -> Option<IpNet> {
    match last_index(s, '/') {
        None => match ip_text(s) {
            Some(IpAddr::V4(a)) => net_at(IpAddr::V4(a), 32),
            Some(IpAddr::V6(a)) => net_at(IpAddr::V6(a), 128),
            None => None,
        },
        Some(i) => match (ip_text(s.take(i)), prefix_text(s.skip(i + 1))) {
            (Some(ip), Some(prefix)) => net_at(ip, prefix),
            _ => None,
        },
    }
}

/// Parses an address or a network, as [`net_text`] has it.
pub fn parse_ip_or_cidr(s: &str) -> (r: Option<IpNet>)
    ensures
        r == net_text(s@),
        r matches Some(n) ==> n.wf(),
{
    let chars = chars_of(s);
    match find_last(&chars, '/') {
        None => match parse_ip(s) {
            Some(IpAddr::V4(a)) => make_net(IpAddr::V4(a), 32),
            Some(IpAddr::V6(a)) => make_net(IpAddr::V6(a), 128),
            None => None,
        },
        Some(i) => {
            let n: usize = chars.len();
            let head = string_of(&chars, 0, i);
            let tail = string_of(&chars, i + 1, n);
            assert(tail@ =~= s@.skip(i + 1));
            assert(head@ =~= s@.take(i as int));
            match parse_ip(head.as_str()) {
                None => None,
                Some(ip) => match parse_prefix(&chars_of(tail.as_str())) {
                    None => None,
                    Some(prefix) => make_net(ip, prefix),
                },
            }
        },
    }
}

} // verus!
