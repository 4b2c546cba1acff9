//! What holds of addresses and networks, and of the texts that write them.

use vstd::arithmetic::power::pow;
use vstd::arithmetic::power2::pow2;
use vstd::prelude::*;
use vstd::utf8::encode_utf8;

use crate::addr::{
    decimal_value, ip_text, ipv4_text, ipv6_text, last_index, net_at, net_text, prefix_text, IpAddr,
    IpNet,
};
use crate::json::dotted;

verus! {

proof fn lemma_same_block(a: int, x: int, bits: nat)
    requires
        0 <= a,
        0 <= x,
    ensures
        (crate::addr::block_start(a, bits) <= x <= crate::addr::block_end(a, bits)) <==> x / (pow2(
            bits,
        ) as int) == a / (pow2(bits) as int),
{
    vstd::arithmetic::power2::lemma_pow2_pos(bits);
    let m = pow2(bits) as int;
    let q = a / m;
    vstd::arithmetic::div_mod::lemma_fundamental_div_mod(a, m);
    vstd::arithmetic::div_mod::lemma_mod_bound(a, m);
    vstd::arithmetic::div_mod::lemma_fundamental_div_mod(x, m);
    vstd::arithmetic::div_mod::lemma_mod_bound(x, m);
    assert(crate::addr::block_start(a, bits) == m * q);
    if m * q <= x <= m * q + m - 1 {
        vstd::arithmetic::div_mod::lemma_fundamental_div_mod_converse(x, m, q, x - m * q);
    }
}

/// A network has the addresses of its family that begin with the bits of its prefix, and no other.
pub proof fn law_network_has_its_prefix(net: IpNet, ip: IpAddr)
    requires
        net.wf(),
    ensures
        net.covers(ip) <==> match (net, ip) {
            (IpNet::V4 { addr, prefix }, IpAddr::V4(x)) => x as int / (pow2((32 - prefix) as nat) as int)
                == addr as int / (pow2((32 - prefix) as nat) as int),
            (IpNet::V6 { addr, prefix }, IpAddr::V6(x)) => x as int / (pow2(
                (128 - prefix) as nat,
            ) as int) == addr as int / (pow2((128 - prefix) as nat) as int),
            _ => false,
        },
{
    match (net, ip) {
        (IpNet::V4 { addr, prefix }, IpAddr::V4(x)) => {
            lemma_same_block(addr as int, x as int, (32 - prefix) as nat);
        },
        (IpNet::V6 { addr, prefix }, IpAddr::V6(x)) => {
            lemma_same_block(addr as int, x as int, (128 - prefix) as nat);
        },
        _ => {},
    }
}

/// A network has the addresses from its first to its last; there are as many as the bits behind its prefix
/// can write, and the first is the one with those bits zero.
pub proof fn law_first_and_last_of_a_network(net: IpNet, x: u32, y: u128)
    requires
        net.wf(),
    ensures
        net matches IpNet::V4 { addr, prefix } ==> {
            let m = pow2((32 - prefix) as nat) as int;
            &&& net.covers(IpAddr::V4(x)) <==> net.first() <= x <= net.last()
            &&& net.last() - net.first() + 1 == m
            &&& net.first() % m == 0
            &&& net.first() <= addr <= net.last()
        },
        net matches IpNet::V6 { addr, prefix } ==> {
            let m = pow2((128 - prefix) as nat) as int;
            &&& net.covers(IpAddr::V6(y)) <==> net.first() <= y <= net.last()
            &&& net.last() - net.first() + 1 == m
            &&& net.first() % m == 0
            &&& net.first() <= addr <= net.last()
        },
        net matches IpNet::V4 { addr, prefix } ==> prefix <= 32,
        net matches IpNet::V6 { addr, prefix } ==> prefix <= 128,
{
    match net {
        IpNet::V4 { addr, prefix } => {
            lemma_block_bounds(addr as int, (32 - prefix) as nat);
        },
        IpNet::V6 { addr, prefix } => {
            lemma_block_bounds(addr as int, (128 - prefix) as nat);
        },
    }
}

proof fn lemma_block_bounds(a: int, bits: nat)
    requires
        0 <= a,
    ensures
        crate::addr::block_start(a, bits) % (pow2(bits) as int) == 0,
        crate::addr::block_start(a, bits) <= a <= crate::addr::block_end(a, bits),
{
    vstd::arithmetic::power2::lemma_pow2_pos(bits);
    let m = pow2(bits) as int;
    vstd::arithmetic::div_mod::lemma_fundamental_div_mod(a, m);
    vstd::arithmetic::div_mod::lemma_mod_bound(a, m);
    assert(crate::addr::block_start(a, bits) == m * (a / m));
    vstd::arithmetic::div_mod::lemma_fundamental_div_mod_converse(m * (a / m), m, a / m, 0);
}

/// The network of one address has that address and no other.
pub proof fn law_host_network_has_one_address(ip: IpAddr, x: IpAddr)
    ensures
        IpNet::host_spec(ip).covers(x) <==> x == ip,
{
    vstd::arithmetic::power2::lemma2_to64();
    law_network_has_its_prefix(IpNet::host_spec(ip), x);
}

/// An IPv4 network lies in another just if every address of it does.
pub proof fn law_network_lies_in_another(a: IpNet, b: IpNet)
    requires
        a is V4,
        b is V4,
        a.wf(),
        b.wf(),
    ensures
        a.covers_net(b) <==> forall|x: u32| #[trigger]
            b.covers(IpAddr::V4(x)) ==> a.covers(IpAddr::V4(x)),
{
    if let IpNet::V4 { addr, prefix } = b {
        vstd::arithmetic::power2::lemma_pow2_pos((32 - prefix) as nat);
        crate::dns::lemma_block_fits(addr, (32 - prefix) as nat);
        let lo = b.first() as u32;
        let hi = b.last() as u32;
        assert(b.covers(IpAddr::V4(lo)));
        assert(b.covers(IpAddr::V4(hi)));
        if forall|x: u32| #[trigger] b.covers(IpAddr::V4(x)) ==> a.covers(IpAddr::V4(x)) {
            assert(a.covers(IpAddr::V4(lo)));
            assert(a.covers(IpAddr::V4(hi)));
        }
    }
}

/// The network at an address: a prefix that is longer than the address makes none. An IPv6 address from
/// `::ffff:0.0.0.0` to `::ffff:255.255.255.255` is taken as the IPv4 address in its last 32 bits, and its
/// prefix as what is left of it beyond the first 96 bits.
pub proof fn law_network_at_an_address(ip: IpAddr, prefix: nat)
    ensures
        match ip {
            IpAddr::V4(a) => if prefix <= 32 {
                net_at(ip, prefix) == Some(IpNet::V4 { addr: a, prefix: prefix as u8 })
            } else {
                net_at(ip, prefix) is None
            },
            IpAddr::V6(a) => {
                &&& prefix > 128 ==> net_at(ip, prefix) is None
                &&& prefix <= 128 && (a < 0xffff_0000_0000 || a > 0xffff_ffff_ffff) ==> net_at(
                    ip,
                    prefix,
                ) == Some(IpNet::V6 { addr: a, prefix: prefix as u8 })
                &&& prefix <= 128 && 0xffff_0000_0000 <= a <= 0xffff_ffff_ffff ==> (net_at(
                    ip,
                    prefix,
                ) matches Some(IpNet::V4 { addr, prefix: p }) && addr == a - 0xffff_0000_0000 && (if prefix
                    <= 96 {
                    p == 0
                } else {
                    p == prefix - 96
                }))
            },
        },
{
    vstd::arithmetic::power2::lemma2_to64();
}

/// Decimal digits write the number that they have in base ten: the first digit counts as many tens as
/// digits follow it, multiplied.
pub proof fn law_digits_write_their_number(c: char, s: Seq<char>)
    requires
        '0' <= c <= '9',
    ensures
        decimal_value(Seq::<char>::empty()) == 0,
        decimal_value(seq![c] + s) == (c as int - 48) * pow(10, s.len()) + decimal_value(s),
    decreases s.len(),
{
    let t = seq![c] + s;
    if s.len() == 0 {
        vstd::arithmetic::power::lemma_pow0(10);
        assert(t.drop_last() =~= Seq::<char>::empty());
        assert(s =~= Seq::<char>::empty());
    } else {
        law_digits_write_their_number(c, s.drop_last());
        assert(t.drop_last() =~= seq![c] + s.drop_last());
        assert(t.last() == s.last());
        vstd::arithmetic::power::lemma_pow_adds(10, 1, (s.len() - 1) as nat);
        vstd::arithmetic::power::lemma_pow1(10);
        let p = pow(10, (s.len() - 1) as nat);
        let d = c as int - 48;
        assert(10 * (d * p) == d * (10 * p)) by (nonlinear_arith);
        if '0' <= s.last() <= '9' {
        }
    }
}

/// A prefix length is one to three decimal digits, of which the first is zero only if it is alone, and
/// stands for the number that they write.
pub proof fn law_prefix_length_text(s: Seq<char>)
    ensures
        prefix_text(s) is Some <==> (1 <= s.len() <= 3 && (forall|i: int|
            0 <= i < s.len() ==> '0' <= #[trigger] s[i] <= '9') && (s.len() == 1 || s[0] != '0')),
        prefix_text(s) matches Some(n) ==> n == decimal_value(s),
{
}

/// The last place of a character is one where it stands and after which it does not; there is none only
/// where it does not stand at all.
pub proof fn law_last_place(s: Seq<char>, c: char)
    ensures
        match last_index(s, c) {
            Some(i) => 0 <= i < s.len() && s[i] == c && forall|j: int| i < j < s.len() ==> s[j] != c,
            None => forall|j: int| 0 <= j < s.len() ==> s[j] != c,
        },
    decreases s.len(),
{
    if s.len() > 0 && s.last() != c {
        let rest = s.drop_last();
        law_last_place(rest, c);
        assert forall|j: int| 0 <= j < s.len() - 1 implies rest[j] == s[j] by {}
    }
}

/// A text writes an IPv4 address just where it is one in dotted decimals; only where it does not, it may
/// write an IPv6 address.
pub proof fn law_text_of_an_address(s: Seq<char>)
    ensures
        ip_text(s) matches Some(IpAddr::V4(a)) ==> dotted(a) == encode_utf8(s),
        forall|a: u32| #[trigger] dotted(a) == encode_utf8(s) ==> ip_text(s) == Some(IpAddr::V4(a)),
        ipv4_text(s) is None ==> (match ipv6_text(s) {
            Some(a) => ip_text(s) == Some(IpAddr::V6(a)),
            None => ip_text(s) is None,
        }),
{
    assert forall|a: u32| #[trigger] dotted(a) == encode_utf8(s) implies ip_text(s) == Some(
        IpAddr::V4(a),
    ) by {
        crate::addr::law_written_address_is_read(a, s);
    }
}

/// A text without a slash writes the network of its address alone; one with a slash writes the network
/// whose address stands before its last slash and whose prefix length stands behind it. Any other text
/// writes none.
pub proof fn law_text_of_a_network(s: Seq<char>, head: Seq<char>, tail: Seq<char>)
    requires
        forall|j: int| 0 <= j < tail.len() ==> tail[j] != '/',
    ensures
        (forall|j: int| 0 <= j < s.len() ==> s[j] != '/') ==> net_text(s) == (match ip_text(s) {
            Some(IpAddr::V4(a)) => net_at(IpAddr::V4(a), 32),
            Some(IpAddr::V6(a)) => net_at(IpAddr::V6(a), 128),
            None => None,
        }),
        net_text(head + seq!['/'] + tail) == (match (ip_text(head), prefix_text(tail)) {
            (Some(ip), Some(n)) => net_at(ip, n),
            _ => None,
        }),
{
    law_last_place(s, '/');
    let t = head + seq!['/'] + tail;
    law_last_place(t, '/');
    assert(t[head.len() as int] == '/');
    let i = last_index(t, '/')->0;
    if i > head.len() {
        assert(t[i] == tail[i - head.len() - 1]);
    }
    assert(t.take(i) =~= head);
    assert(t.skip(i + 1) =~= tail);
}

} // verus!
