//! The JSON that is written here: the request that asks a hosting endpoint to resolve a name, and the
//! application data of a dial.

use vstd::prelude::*;
#[allow(unused_imports)]
use vstd::utf8::{
    encode_utf8, encode_utf8_valid_utf8, is_ascii_chars, is_ascii_chars_encode_utf8,
    length_of_first_scalar, pop_first_scalar, valid_utf8, valid_utf8_concat,
};

use crate::addr::{IpAddr, SocketAddr};

verus! {

/// The decimal digits of a number, as ASCII.
pub open spec fn decimal(n: nat) -> Seq<u8>
    decreases n,
{
    if n < 10 {
        seq![(48 + n) as u8]
    } else {
        decimal(n / 10).push((48 + n % 10) as u8)
    }
}

/// The lower-case hexadecimal digit of a number below sixteen, as ASCII.
pub open spec fn hex(n: int) -> u8 {
    if n < 10 {
        (48 + n) as u8
    } else {
        (87 + n) as u8
    }
}

/// A byte of a JSON string: newline, backspace, carriage return, tabulator, backslash and quote have
/// their short escapes, other bytes below space are written as `\u00xx`, and any other byte, of a
/// multi-byte character or not, stands for itself.
pub open spec fn escape_byte(b: u8) -> Seq<u8> {
    if b == 0x0a {
        seq![0x5cu8, 0x6eu8]
    } else if b == 0x08 {
        seq![0x5cu8, 0x62u8]
    } else if b == 0x0d {
        seq![0x5cu8, 0x72u8]
    } else if b == 0x09 {
        seq![0x5cu8, 0x74u8]
    } else if b == 0x5c {
        seq![0x5cu8, 0x5cu8]
    } else if b == 0x22 {
        seq![0x5cu8, 0x22u8]
    } else if b < 0x20 {
        seq![0x5cu8, 0x75u8, 0x30u8, 0x30u8, hex(b as int / 16), hex(b as int % 16)]
    } else {
        seq![b]
    }
}

/// The bytes of a JSON string, without its quotes.
pub open spec fn escaped(s: Seq<u8>) -> Seq<u8>
    decreases s.len(),
{
    if s.len() == 0 {
        Seq::empty()
    } else {
        escaped(s.drop_last()) + escape_byte(s.last())
    }
}

/// Appends the bytes of a text.
pub fn push_text(out: &mut Vec<u8>, text: &str)
    ensures
        final(out)@ == old(out)@ + encode_utf8(text@),
{
    push_bytes(out, text.as_bytes());
}

/// Appends bytes.
pub fn push_bytes(out: &mut Vec<u8>, bytes: &[u8])
    ensures
        final(out)@ == old(out)@ + bytes@,
{
    let ghost start = out@;
    let mut i: usize = 0;
    while i < bytes.len()
        invariant
            i <= bytes@.len(),
            out@ == start + bytes@.take(i as int),
        decreases bytes@.len() - i,
    {
        out.push(bytes[i]);
        i += 1;
        assert(out@ =~= start + bytes@.take(i as int));
    }
    assert(bytes@.take(i as int) =~= bytes@);
}

/// Appends the decimal digits of a number.
pub fn push_decimal(out: &mut Vec<u8>, n: u32)
    ensures
        final(out)@ == old(out)@ + decimal(n as nat),
    decreases n,
{
    if n >= 10 {
        push_decimal(out, n / 10);
    }
    out.push(48 + (n % 10) as u8);
    assert(out@ =~= old(out)@ + decimal(n as nat));
}

fn hex_digit(n: u8) -> (r: u8)
    requires
        n < 16,
    ensures
        r == hex(n as int),
{
    if n < 10 {
        48 + n
    } else {
        87 + n
    }
}

/// Appends the bytes of a JSON string, without its quotes.
pub fn escape_json_c(out: &mut Vec<u8>, s: &[u8])
    ensures
        final(out)@ == old(out)@ + escaped(s@),
{
    let ghost start = out@;
    let mut i: usize = 0;
    assert(escaped(s@.take(0)) =~= Seq::<u8>::empty());
    while i < s.len()
        invariant
            i <= s@.len(),
            out@ == start + escaped(s@.take(i as int)),
        decreases s@.len() - i,
    {
        let b: u8 = s[i];
        let ghost before = out@;
        if b == 0x0a {
            out.push(0x5c);
            out.push(0x6e);
        } else if b == 0x08 {
            out.push(0x5c);
            out.push(0x62);
        } else if b == 0x0d {
            out.push(0x5c);
            out.push(0x72);
        } else if b == 0x09 {
            out.push(0x5c);
            out.push(0x74);
        } else if b == 0x5c {
            out.push(0x5c);
            out.push(0x5c);
        } else if b == 0x22 {
            out.push(0x5c);
            out.push(0x22);
        } else if b < 0x20 {
            out.push(0x5c);
            out.push(0x75);
            out.push(0x30);
            out.push(0x30);
            out.push(hex_digit(b / 16));
            out.push(hex_digit(b % 16));
        } else {
            out.push(b);
        }
        proof {
            assert(out@ =~= before + escape_byte(b));
            let now = s@.take(i + 1);
            assert(now.drop_last() =~= s@.take(i as int));
            assert(now.last() == b);
            assert(out@ =~= start + escaped(now));
        }
        i += 1;
    }
    assert(s@.take(i as int) =~= s@);
}

/// The request to resolve a name, compact and with its fields in a fixed order. Only the question
/// varies: its number, whether recursion is desired, its name and its type.
pub open spec fn dns_message(id: u16, recursive: bool, name: Seq<u8>, qtype: u16) -> Seq<u8> {
    encode_utf8("{\"status\":0,\"id\":"@) + decimal(id as nat) + encode_utf8(",\"recursive\":"@)
        + decimal(
        if recursive {
            1
        } else {
            0
        },
    ) + encode_utf8(",\"question\":[{\"name\":\""@) + escaped(name) + encode_utf8("\",\"type\":"@)
        + decimal(qtype as nat) + encode_utf8("}]}"@)
}

/// Writes the request to resolve a name.
pub fn emit_dns_message_json(id: u16, recursive: bool, name: &[u8], qtype: u16) -> (r: Vec<u8>)
    ensures
        r@ == dns_message(id, recursive, name@, qtype),
{
    let mut out: Vec<u8> = Vec::new();
    push_text(&mut out, "{\"status\":0,\"id\":");
    push_decimal(&mut out, id as u32);
    push_text(&mut out, ",\"recursive\":");
    push_decimal(
        &mut out,
        if recursive {
            1
        } else {
            0
        },
    );
    push_text(&mut out, ",\"question\":[{\"name\":\"");
    escape_json_c(&mut out, name);
    push_text(&mut out, "\",\"type\":");
    push_decimal(&mut out, qtype as u32);
    push_text(&mut out, "}]}");
    assert(out@ =~= dns_message(id, recursive, name@, qtype));
    out
}

/// An IPv4 address in dotted decimals.
pub open spec fn dotted(a: u32) -> Seq<u8> {
    decimal((a / 0x100_0000) as nat).push(46u8) + decimal((a / 0x1_0000 % 256) as nat).push(46u8)
        + decimal((a / 256 % 256) as nat).push(46u8) + decimal((a % 256) as nat)
}

proof fn lemma_decimal_digits(n: nat)
    ensures
        decimal(n).len() > 0,
        forall|i: int| 0 <= i < decimal(n).len() ==> 48 <= #[trigger] decimal(n)[i] <= 57,
    decreases n,
{
    if n >= 10 {
        lemma_decimal_digits(n / 10);
    }
}

proof fn lemma_decimal_is_unique(m: nat, n: nat)
    requires
        decimal(m) == decimal(n),
    ensures
        m == n,
    decreases m,
{
    lemma_decimal_digits(m / 10);
    lemma_decimal_digits(n / 10);
    if m >= 10 && n >= 10 {
        assert(decimal(m).drop_last() =~= decimal(m / 10));
        assert(decimal(n).drop_last() =~= decimal(n / 10));
        lemma_decimal_is_unique(m / 10, n / 10);
        assert(decimal(m).last() == (48 + m % 10) as u8);
        assert(decimal(n).last() == (48 + n % 10) as u8);
    } else if m < 10 && n < 10 {
        assert(decimal(m)[0] == (48 + m) as u8);
        assert(decimal(n)[0] == (48 + n) as u8);
    } else if m < 10 {
        assert(decimal(m).len() == 1 && decimal(n).len() > 1);
    } else {
        assert(decimal(n).len() == 1 && decimal(m).len() > 1);
    }
}

/// Numbers before a dot can be told from what follows it.
proof fn lemma_number_before_dot(m: nat, n: nat, x: Seq<u8>, y: Seq<u8>)
    requires
        decimal(m).push(46u8) + x == decimal(n).push(46u8) + y,
    ensures
        m == n,
        x == y,
{
    lemma_decimal_digits(m);
    lemma_decimal_digits(n);
    let p = decimal(m);
    let q = decimal(n);
    let all = p.push(46u8) + x;
    assert(all == q.push(46u8) + y);
    assert(all[p.len() as int] == 46);
    assert(all[q.len() as int] == 46);
    if p.len() < q.len() {
        assert(all[p.len() as int] == q[p.len() as int]);
    } else if q.len() < p.len() {
        assert(all[q.len() as int] == p[q.len() as int]);
    }
    assert(p =~= all.take(p.len() as int));
    assert(q =~= all.take(q.len() as int));
    lemma_decimal_is_unique(m, n);
    assert(x =~= all.skip(p.len() as int + 1));
    assert(y =~= all.skip(q.len() as int + 1));
}

/// No two IPv4 addresses are written alike.
pub proof fn law_addresses_are_told_apart(a: u32, b: u32)
    requires
        dotted(a) == dotted(b),
    ensures
        a == b,
{
    let (a1, a2, a3, a4) = (
        (a / 0x100_0000) as nat,
        (a / 0x1_0000 % 256) as nat,
        (a / 256 % 256) as nat,
        (a % 256) as nat,
    );
    let (b1, b2, b3, b4) = (
        (b / 0x100_0000) as nat,
        (b / 0x1_0000 % 256) as nat,
        (b / 256 % 256) as nat,
        (b % 256) as nat,
    );
    let (x3, y3) = (decimal(a3).push(46u8) + decimal(a4), decimal(b3).push(46u8) + decimal(b4));
    let (x2, y2) = (decimal(a2).push(46u8) + x3, decimal(b2).push(46u8) + y3);
    assert(dotted(a) =~= decimal(a1).push(46u8) + x2);
    assert(dotted(b) =~= decimal(b1).push(46u8) + y2);
    lemma_number_before_dot(a1, b1, x2, y2);
    lemma_number_before_dot(a2, b2, x3, y3);
    lemma_number_before_dot(a3, b3, decimal(a4), decimal(b4));
    lemma_decimal_is_unique(a4, b4);
}

/// How the standard library writes an IPv6 address.
pub uninterp spec fn ipv6_display(a: u128) -> Seq<char>;

/// The standard text of an IPv6 address (`to_string` of the address of an `ipnet::Ipv6Net`), as a
/// function of the address.
#[verifier::external_body]
fn ipv6_to_text(a: u128) -> (r: String)
    ensures
        r@ == ipv6_display(a),
{
    ipnet::Ipv6Net::new_assert(a.into(), 128).addr().to_string()
}

/// The text of an address.
pub open spec fn ip_display(ip: IpAddr) -> Seq<u8> {
    match ip {
        IpAddr::V4(a) => dotted(a),
        IpAddr::V6(a) => encode_utf8(ipv6_display(a)),
    }
}

/// Appends the text of an address.
pub fn push_ip(out: &mut Vec<u8>, ip: IpAddr)
    ensures
        final(out)@ == old(out)@ + ip_display(ip),
{
    let ghost start = out@;
    match ip {
        IpAddr::V4(a) => {
            push_decimal(out, a / 0x100_0000);
            out.push(46);
            push_decimal(out, a / 0x1_0000 % 256);
            out.push(46);
            push_decimal(out, a / 256 % 256);
            out.push(46);
            push_decimal(out, a % 256);
            assert(out@ =~= start + dotted(a));
        },
        IpAddr::V6(a) => {
            push_text(out, ipv6_to_text(a).as_str());
        },
    }
}

/// The application data of a dial: the protocol, the address and the port of the intercepted
/// destination, and its host name where it has one that is not empty.
pub open spec fn app_data(proto: Seq<char>, dst: SocketAddr, hostname: Option<Seq<char>>) -> Seq<u8> {
    let head = match hostname {
        Some(h) => if h.len() > 0 {
            encode_utf8("{\"dst_hostname\":\""@) + escaped(encode_utf8(h)) + encode_utf8("\","@)
        } else {
            encode_utf8("{"@)
        },
        None => encode_utf8("{"@),
    };
    head + encode_utf8("\"dst_ip\":\""@) + ip_display(dst.ip) + encode_utf8("\",\"dst_port\":\""@)
        + decimal(dst.port as nat) + encode_utf8("\",\"dst_protocol\":\""@) + encode_utf8(proto)
        + encode_utf8("\"}"@)
}

/// A host name, if there is one.
pub open spec fn opt_str(s: Option<&str>) -> Option<Seq<char>> {
    match s {
        Some(t) => Some(t@),
        None => None,
    }
}

fn write_app_data(proto: &str, dst: SocketAddr, hostname: Option<&str>) -> (r: Vec<u8>)
    ensures
        r@ == app_data(proto@, dst, opt_str(hostname)),
{
    let mut out: Vec<u8> = Vec::new();
    match hostname {
        Some(h) => {
            if h.is_empty() {
                push_text(&mut out, "{");
            } else {
                push_text(&mut out, "{\"dst_hostname\":\"");
                escape_json_c(&mut out, h.as_bytes());
                push_text(&mut out, "\",");
            }
        },
        None => {
            push_text(&mut out, "{");
        },
    }
    push_text(&mut out, "\"dst_ip\":\"");
    push_ip(&mut out, dst.ip);
    push_text(&mut out, "\",\"dst_port\":\"");
    push_decimal(&mut out, dst.port as u32);
    push_text(&mut out, "\",\"dst_protocol\":\"");
    push_text(&mut out, proto);
    push_text(&mut out, "\"}");
    assert(out@ =~= app_data(proto@, dst, opt_str(hostname)));
    out
}

/// The application data of an intercepted TCP flow.
pub fn intercept_tcp_appdata(dst: SocketAddr, dst_hostname: Option<&str>) -> (r: Vec<u8>)
    ensures
        r@ == app_data("tcp"@, dst, opt_str(dst_hostname)),
{
    write_app_data("tcp", dst, dst_hostname)
}

/// The application data of an intercepted UDP flow.
pub fn intercept_udp_appdata(dst: SocketAddr, dst_hostname: Option<&str>) -> (r: Vec<u8>)
    ensures
        r@ == app_data("udp"@, dst, opt_str(dst_hostname)),
{
    write_app_data("udp", dst, dst_hostname)
}

/// An escaped string has no byte below space, and no quote that a backslash does not precede: it can
/// neither break the line nor end the string it is written in.
pub proof fn law_escape_is_clean(s: Seq<u8>)
    ensures
        forall|i: int| 0 <= i < escaped(s).len() ==> #[trigger] escaped(s)[i] >= 0x20,
        forall|i: int|
            0 <= i < escaped(s).len() && #[trigger] escaped(s)[i] == 0x22 ==> i > 0 && escaped(s)[i - 1]
                == 0x5c,
    decreases s.len(),
{
    if s.len() > 0 {
        law_escape_is_clean(s.drop_last());
        let rest = escaped(s.drop_last());
        let tail = escape_byte(s.last());
        let all = escaped(s);
        assert forall|i: int| 0 <= i < all.len() implies #[trigger] all[i] >= 0x20 && (all[i] == 0x22
            ==> i > 0 && all[i - 1] == 0x5c) by {
            if i < rest.len() {
                assert(all[i] == rest[i]);
                if i > 0 {
                    assert(all[i - 1] == rest[i - 1]);
                }
            } else {
                assert(all[i] == tail[i - rest.len()]);
                if i > rest.len() {
                    assert(all[i - 1] == tail[i - 1 - rest.len()]);
                }
            }
        }
    }
}

/// The escape of the first byte comes first.
proof fn lemma_escape_front(s: Seq<u8>)
    requires
        s.len() > 0,
    ensures
        escaped(s) == escape_byte(s[0]) + escaped(s.skip(1)),
    decreases s.len(),
{
    if s.len() == 1 {
        assert(s.drop_last() =~= Seq::<u8>::empty());
        assert(s.skip(1) =~= Seq::<u8>::empty());
        assert(escaped(s) =~= escape_byte(s[0]) + escaped(s.skip(1)));
    } else {
        lemma_escape_front(s.drop_last());
        assert(s.drop_last().skip(1) =~= s.skip(1).drop_last());
        assert(escaped(s) =~= escape_byte(s[0]) + escaped(s.skip(1)));
    }
}

/// The value of a hexadecimal digit of either case.
pub open spec fn hex_value(b: u8) -> Option<int> {
    if 48 <= b <= 57 {
        Some(b - 48)
    } else if 97 <= b <= 102 {
        Some(b - 87)
    } else if 65 <= b <= 70 {
        Some(b - 55)
    } else {
        None
    }
}

/// What the byte after a backslash stands for, if it is a short escape of JSON.
pub open spec fn short_escape(b: u8) -> Option<u8> {
    if b == 0x22 || b == 0x5c || b == 0x2f {
        Some(b)
    } else if b == 0x62 {
        Some(0x08)
    } else if b == 0x66 {
        Some(0x0c)
    } else if b == 0x6e {
        Some(0x0a)
    } else if b == 0x72 {
        Some(0x0d)
    } else if b == 0x74 {
        Some(0x09)
    } else {
        None
    }
}

/// The ASCII character that `\uxxxx` at the start of `t` stands for. An escape of a character beyond
/// ASCII, which is never written here, is not read.
pub open spec fn long_escape(t: Seq<u8>) -> Option<u8> {
    if t.len() >= 6 && t[1] == 0x75 && t[2] == 0x30 && t[3] == 0x30 {
        match (hex_value(t[4]), hex_value(t[5])) {
            (Some(hi), Some(lo)) => if hi < 8 {
                Some((16 * hi + lo) as u8)
            } else {
                None
            },
            _ => None,
        }
    } else {
        None
    }
}

/// The string that the bytes between the quotes of a JSON string stand for. None, if they are not such:
/// a control character or a quote stands in them as it is, or an escape is cut short or unknown.
pub open spec fn unescaped(t: Seq<u8>) -> Option<Seq<u8>>
    decreases t.len(),
{
    if t.len() == 0 {
        Some(Seq::empty())
    } else if t[0] < 0x20 || t[0] == 0x22 {
        None
    } else if t[0] != 0x5c {
        after_one(t[0], unescaped(t.skip(1)))
    } else if t.len() < 2 {
        None
    } else {
        match short_escape(t[1]) {
            Some(b) => after_one(b, unescaped(t.skip(2))),
            None => match long_escape(t) {
                Some(b) => after_one(b, unescaped(t.skip(6))),
                None => None,
            },
        }
    }
}

/// A byte, and what was read after it, if anything was.
pub open spec fn after_one(b: u8, rest: Option<Seq<u8>>) -> Option<Seq<u8>> {
    match rest {
        Some(r) => Some(seq![b] + r),
        None => None,
    }
}

/// The string that a JSON string literal stands for, its quotes included in `t`.
pub open spec fn literal_value(t: Seq<u8>) -> Option<Seq<u8>> {
    if t.len() >= 2 && t[0] == 0x22 && t.last() == 0x22 {
        unescaped(t.subrange(1, t.len() - 1))
    } else {
        None
    }
}

proof fn lemma_escaped_byte_reads_back(b: u8, x: Seq<u8>)
    ensures
        unescaped(escape_byte(b) + x) == after_one(b, unescaped(x)),
{
    let e = escape_byte(b);
    let t = e + x;
    assert(t.skip(e.len() as int) =~= x);
    assert(t[0] == e[0]);
    if e.len() >= 2 {
        assert(t[1] == e[1]);
    }
    if e.len() == 6 {
        assert(t[2] == e[2] && t[3] == e[3] && t[4] == e[4] && t[5] == e[5]);
        assert(16 * (b as int / 16) + b as int % 16 == b as int);
    }
}

/// An escaped string reads back as the string.
pub proof fn law_escape_reads_back(s: Seq<u8>)
    ensures
        unescaped(escaped(s)) == Some(s),
    decreases s.len(),
{
    if s.len() == 0 {
        assert(s =~= Seq::<u8>::empty());
    } else {
        lemma_escape_front(s);
        lemma_escaped_byte_reads_back(s[0], escaped(s.skip(1)));
        law_escape_reads_back(s.skip(1));
        assert(seq![s[0]] + s.skip(1) =~= s);
    }
}

/// No two strings have the same escape.
pub proof fn law_escape_keeps_the_string(a: Seq<u8>, b: Seq<u8>)
    requires
        escaped(a) == escaped(b),
    ensures
        a == b,
{
    law_escape_reads_back(a);
    law_escape_reads_back(b);
}

proof fn lemma_ascii_is_utf8(s: Seq<u8>)
    requires
        forall|i: int| 0 <= i < s.len() ==> #[trigger] s[i] < 0x80,
    ensures
        valid_utf8(s),
{
    let chars = s.map_values(|b: u8| b as char);
    assert(is_ascii_chars(chars));
    is_ascii_chars_encode_utf8(chars);
    encode_utf8_valid_utf8(chars);
    assert(encode_utf8(chars) =~= s);
}

proof fn lemma_escape_apart(a: Seq<u8>, b: Seq<u8>)
    ensures
        escaped(a + b) == escaped(a) + escaped(b),
    decreases b.len(),
{
    if b.len() == 0 {
        assert(a + b =~= a);
        assert(escaped(a) + escaped(b) =~= escaped(a));
    } else {
        assert((a + b).drop_last() =~= a + b.drop_last());
        lemma_escape_apart(a, b.drop_last());
        assert(escaped(a + b) =~= escaped(a) + escaped(b));
    }
}

proof fn lemma_wide_bytes_stand(s: Seq<u8>)
    requires
        forall|i: int| 0 <= i < s.len() ==> #[trigger] s[i] >= 0x80,
    ensures
        escaped(s) == s,
    decreases s.len(),
{
    if s.len() > 0 {
        lemma_wide_bytes_stand(s.drop_last());
        assert(escaped(s) =~= s);
    } else {
        assert(escaped(s) =~= s);
    }
}

proof fn lemma_escape_keeps_utf8(s: Seq<u8>)
    requires
        valid_utf8(s),
    ensures
        valid_utf8(escaped(s)),
    decreases s.len(),
{
    if s.len() > 0 {
        let n = length_of_first_scalar(s);
        let first = s.take(n);
        let rest = pop_first_scalar(s);
        assert(1 <= n <= s.len());
        assert(rest.len() < s.len());
        lemma_escape_keeps_utf8(rest);
        assert(s =~= first + rest);
        lemma_escape_apart(first, rest);
        if n == 1 {
            assert(first =~= seq![s[0]]);
            assert(first.drop_last() =~= Seq::<u8>::empty());
            assert(escaped(first.drop_last()).len() == 0);
            assert(escaped(first) =~= escape_byte(s[0]));
            lemma_ascii_is_utf8(escape_byte(s[0]));
        } else {
            lemma_wide_bytes_stand(first);
            assert(valid_utf8(first)) by {
                reveal_with_fuel(valid_utf8, 2);
                assert(pop_first_scalar(first) =~= Seq::<u8>::empty());
            }
        }
        valid_utf8_concat(escaped(first), escaped(rest));
    }
}

/// A string between quotes, escaped, is one JSON string literal that stands for the string; if the string
/// is UTF-8 text, so is the literal.
pub proof fn law_literal_stands_for_the_string(s: Seq<u8>)
    ensures
        literal_value(seq![0x22u8] + escaped(s) + seq![0x22u8]) == Some(s),
        valid_utf8(s) ==> valid_utf8(seq![0x22u8] + escaped(s) + seq![0x22u8]),
{
    let quote = seq![0x22u8];
    let t = quote + escaped(s) + quote;
    assert(t.subrange(1, t.len() - 1) =~= escaped(s));
    law_escape_reads_back(s);
    if valid_utf8(s) {
        lemma_escape_keeps_utf8(s);
        lemma_ascii_is_utf8(quote);
        valid_utf8_concat(quote, escaped(s));
        valid_utf8_concat(quote + escaped(s), quote);
    }
}

} // verus!
