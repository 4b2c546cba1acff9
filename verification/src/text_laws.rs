//! What holds of the texts that are written to other programs and read from the command line, and of the
//! dials that carry them.

use vstd::prelude::*;
use vstd::utf8::encode_utf8;

use crate::addr::{decimal_value, IpAddr, SocketAddr};
use crate::dispatch::{to_dns_server, Dial};
use crate::json::{
    app_data, decimal, dns_message, dotted, escape_byte, escaped, hex, hex_value, ip_display,
    literal_value, long_escape, opt_str, short_escape, unescaped,
};
use crate::proxy::{port_text, service_port, spec_message, SpecError};
use crate::resolve::{Flow, Protocol, ResolverState};

verus! {

/// A number below ten is written as its digit; any other as what is left of it in front and its last digit
/// behind.
pub proof fn law_decimals(n: nat, d: nat)
    requires
        d < 10,
    ensures
        decimal(d) == seq![(48 + d) as u8],
        n > 0 ==> decimal(10 * n + d) == decimal(n) + seq![(48 + d) as u8],
{
    if n > 0 {
        assert((10 * n + d) / 10 == n);
        assert((10 * n + d) % 10 == d);
        assert(decimal(n).push((48 + d) as u8) =~= decimal(n) + seq![(48 + d) as u8]);
    }
}

/// An IPv4 address is written as its four bytes, the high one first, in decimals between dots.
pub proof fn law_dotted_form(a: u32, w: u8, x: u8, y: u8, z: u8)
    requires
        a == 0x100_0000 * w + 0x1_0000 * x + 0x100 * y + z,
    ensures
        dotted(a) == decimal(w as nat) + seq![46u8] + decimal(x as nat) + seq![46u8] + decimal(y as nat)
            + seq![46u8] + decimal(z as nat),
        ip_display(IpAddr::V4(a)) == dotted(a),
{
    assert(a / 0x100_0000 == w);
    assert(a / 0x1_0000 % 256 == x);
    assert(a / 256 % 256 == y);
    assert(a % 256 == z);
    assert(dotted(a) =~= decimal(w as nat) + seq![46u8] + decimal(x as nat) + seq![46u8] + decimal(
        y as nat,
    ) + seq![46u8] + decimal(z as nat));
}

/// A string is escaped byte by byte. A newline, a backspace, a carriage return, a tabulator, a backslash
/// and a quote get their short escapes; any other byte below space is written with two hexadecimal digits;
/// every other byte stands for itself.
pub proof fn law_escapes(a: Seq<u8>, x: u8, b: Seq<u8>)
    ensures
        escaped(a + b) == escaped(a) + escaped(b),
        escaped(seq![x]) == escape_byte(x),
        escaped(Seq::<u8>::empty()).len() == 0,
        escape_byte(0x0a) == seq![0x5cu8, 0x6eu8],
        escape_byte(0x08) == seq![0x5cu8, 0x62u8],
        escape_byte(0x0d) == seq![0x5cu8, 0x72u8],
        escape_byte(0x09) == seq![0x5cu8, 0x74u8],
        escape_byte(0x5c) == seq![0x5cu8, 0x5cu8],
        escape_byte(0x22) == seq![0x5cu8, 0x22u8],
        x >= 0x20 && x != 0x5c && x != 0x22 ==> escape_byte(x) == seq![x],
        x < 0x20 && x != 0x0a && x != 0x08 && x != 0x0d && x != 0x09 ==> {
            let e = escape_byte(x);
            &&& e.len() == 6
            &&& e[0] == 0x5c && e[1] == 0x75 && e[2] == 0x30 && e[3] == 0x30
            &&& hex_value(e[4]) == Some(x as int / 16)
            &&& hex_value(e[5]) == Some(x as int % 16)
        },
    decreases b.len(),
{
    assert(seq![x].drop_last() =~= Seq::<u8>::empty());
    assert(escaped(seq![x].drop_last()) =~= Seq::<u8>::empty());
    assert(escaped(seq![x]) =~= escape_byte(x));
    if b.len() == 0 {
        assert(a + b =~= a);
        assert(escaped(b) =~= Seq::<u8>::empty());
        assert(escaped(a) + escaped(b) =~= escaped(a));
    } else {
        let rest = b.drop_last();
        law_escapes(a, x, rest);
        assert((a + b).drop_last() =~= a + rest);
        assert((a + b).last() == b.last());
        assert(escaped(a + rest) + escape_byte(b.last()) =~= escaped(a) + (escaped(rest) + escape_byte(
            b.last(),
        )));
    }
}

/// The hexadecimal digits: `0` to `9`, and `a` to `f`, which may also be written in upper case.
pub proof fn law_hexadecimal_digits(n: int, b: u8)
    ensures
        0 <= n < 10 ==> hex(n) == 48 + n,
        10 <= n < 16 ==> hex(n) == 97 + n - 10,
        0 <= n < 16 ==> hex_value(hex(n)) == Some(n),
        hex_value(b) matches Some(v) ==> 0 <= v < 16 && (b == 48 + v || b == 97 + v - 10 || b == 65 + v
            - 10) && (b == 48 + v ==> v < 10) && (b == 97 + v - 10 || b == 65 + v - 10 ==> v >= 10),
{
}

/// How the bytes between the quotes of a JSON string are read: a short escape stands for its character, a
/// long one for the character of its number, any other byte for itself; a control character or a quote
/// makes them unreadable.
pub proof fn law_how_escapes_are_read(b: u8, rest: Seq<u8>, read: Seq<u8>)
    requires
        unescaped(rest) == Some(read),
    ensures
        unescaped(Seq::<u8>::empty()) == Some(Seq::<u8>::empty()),
        unescaped(seq![0x5cu8, 0x6eu8] + rest) == Some(seq![0x0au8] + read),
        unescaped(seq![0x5cu8, 0x62u8] + rest) == Some(seq![0x08u8] + read),
        unescaped(seq![0x5cu8, 0x66u8] + rest) == Some(seq![0x0cu8] + read),
        unescaped(seq![0x5cu8, 0x72u8] + rest) == Some(seq![0x0du8] + read),
        unescaped(seq![0x5cu8, 0x74u8] + rest) == Some(seq![0x09u8] + read),
        unescaped(seq![0x5cu8, 0x5cu8] + rest) == Some(seq![0x5cu8] + read),
        unescaped(seq![0x5cu8, 0x22u8] + rest) == Some(seq![0x22u8] + read),
        unescaped(seq![0x5cu8, 0x2fu8] + rest) == Some(seq![0x2fu8] + read),
        b < 0x80 ==> unescaped(
            seq![0x5cu8, 0x75u8, 0x30u8, 0x30u8, hex(b as int / 16), hex(b as int % 16)] + rest,
        ) == Some(seq![b] + read),
        b >= 0x20 && b != 0x22 && b != 0x5c ==> unescaped(seq![b] + rest) == Some(seq![b] + read),
        b < 0x20 || b == 0x22 ==> unescaped(seq![b] + rest) is None,
        literal_value(seq![0x22u8] + rest + seq![0x22u8]) == Some(read),
{
    lemma_short_escape(0x6e, 0x0a, rest, read);
    lemma_short_escape(0x62, 0x08, rest, read);
    lemma_short_escape(0x66, 0x0c, rest, read);
    lemma_short_escape(0x72, 0x0d, rest, read);
    lemma_short_escape(0x74, 0x09, rest, read);
    lemma_short_escape(0x5c, 0x5c, rest, read);
    lemma_short_escape(0x22, 0x22, rest, read);
    lemma_short_escape(0x2f, 0x2f, rest, read);
    assert((seq![b] + rest).skip(1) =~= rest);
    let long = seq![0x5cu8, 0x75u8, 0x30u8, 0x30u8, hex(b as int / 16), hex(b as int % 16)] + rest;
    assert(long.skip(6) =~= rest);
    assert(16 * (b as int / 16) + b as int % 16 == b as int);
    if b < 0x80 {
        law_hexadecimal_digits(b as int / 16, 0);
        law_hexadecimal_digits(b as int % 16, 0);
        assert(short_escape(long[1]) is None);
        assert(long_escape(long) == Some(b));
    }
    let quoted = seq![0x22u8] + rest + seq![0x22u8];
    assert(quoted.subrange(1, quoted.len() - 1) =~= rest);
}

proof fn lemma_short_escape(mark: u8, meant: u8, rest: Seq<u8>, read: Seq<u8>)
    requires
        unescaped(rest) == Some(read),
        short_escape(mark) == Some(meant),
    ensures
        unescaped(seq![0x5cu8, mark] + rest) == Some(seq![meant] + read),
{
    let t = seq![0x5cu8, mark] + rest;
    assert(t.skip(2) =~= rest);
}

/// The question for a hosting endpoint: an object with the status 0, the number of the query, whether it
/// desires recursion as 1 or 0, and one question with the name as a JSON string and the type.
pub proof fn law_question_for_an_endpoint(id: u16, name: Seq<u8>, qtype: u16)
    ensures
        dns_message(id, true, name, qtype) == encode_utf8("{\"status\":0,\"id\":"@) + decimal(id as nat)
            + encode_utf8(",\"recursive\":"@) + seq![49u8] + encode_utf8(
            ",\"question\":[{\"name\":\""@,
        ) + escaped(name) + encode_utf8("\",\"type\":"@) + decimal(qtype as nat) + encode_utf8("}]}"@),
        dns_message(id, false, name, qtype) == encode_utf8("{\"status\":0,\"id\":"@) + decimal(id as nat)
            + encode_utf8(",\"recursive\":"@) + seq![48u8] + encode_utf8(
            ",\"question\":[{\"name\":\""@,
        ) + escaped(name) + encode_utf8("\",\"type\":"@) + decimal(qtype as nat) + encode_utf8("}]}"@),
{
}

/// The application data of a dial: an object with the host name as a JSON string, where there is one that
/// is not empty, and the address, the port and the protocol of the destination.
pub proof fn law_data_of_a_dial(proto: Seq<char>, dst: SocketAddr, host: Seq<char>)
    ensures
        app_data(proto, dst, None) == encode_utf8("{"@) + encode_utf8("\"dst_ip\":\""@) + ip_display(dst.ip)
            + encode_utf8("\",\"dst_port\":\""@) + decimal(dst.port as nat) + encode_utf8(
            "\",\"dst_protocol\":\""@,
        ) + encode_utf8(proto) + encode_utf8("\"}"@),
        host.len() == 0 ==> app_data(proto, dst, Some(host)) == app_data(proto, dst, None),
        host.len() > 0 ==> app_data(proto, dst, Some(host)) == encode_utf8("{\"dst_hostname\":\""@) + escaped(
            encode_utf8(host),
        ) + encode_utf8("\","@) + encode_utf8("\"dst_ip\":\""@) + ip_display(dst.ip)
            + encode_utf8("\",\"dst_port\":\""@) + decimal(dst.port as nat) + encode_utf8(
            "\",\"dst_protocol\":\""@,
        ) + encode_utf8(proto) + encode_utf8("\"}"@),
        forall|s: Option<&str>| #[trigger]
            opt_str(s) == (match s {
                Some(t) => Some(t@),
                None => None,
            }),
{
}

/// A port is read from one or more decimal digits, with or without a plus before them, that write a number
/// from 1 to 65535; any other text writes none.
pub proof fn law_text_of_a_port(d: Seq<char>, s: Seq<char>)
    requires
        d.len() > 0,
        forall|i: int| 0 <= i < d.len() ==> '0' <= #[trigger] d[i] <= '9',
    ensures
        1 <= decimal_value(d) <= 65535 ==> (port_text(d) matches Some(p) && p == decimal_value(d)) && (
        port_text(seq!['+'] + d) matches Some(p) && p == decimal_value(d)),
        decimal_value(d) == 0 || decimal_value(d) > 65535 ==> port_text(d) is None && port_text(
            seq!['+'] + d,
        ) is None,
        s.len() == 0 || s == seq!['+'] ==> port_text(s) is None,
        (exists|i: int| 1 <= i < s.len() && !('0' <= #[trigger] s[i] <= '9')) ==> port_text(s) is None,
        s.len() > 0 && s[0] != '+' && !('0' <= s[0] <= '9') ==> port_text(s) is None,
{
    assert((seq!['+'] + d).skip(1) =~= d);
    if exists|i: int| 1 <= i < s.len() && !('0' <= #[trigger] s[i] <= '9') {
        let i = choose|i: int| 1 <= i < s.len() && !('0' <= #[trigger] s[i] <= '9');
        if s[0] == '+' {
            assert(s.skip(1)[i - 1] == s[i]);
            assert(!crate::addr::is_digit(s.skip(1)[i - 1]));
        } else {
            assert(!crate::addr::is_digit(s[i]));
        }
    }
    if s.len() > 0 && s[0] != '+' && !('0' <= s[0] <= '9') {
        assert(!crate::addr::is_digit(s[0]));
    }
    if s == seq!['+'] {
        assert(s.skip(1).len() == 0);
    }
}

/// An argument names a service before its last colon and a port behind it. Without a colon there is no
/// port; with nothing before it there is no service; a text behind it that writes no port is reported.
pub proof fn law_service_and_port(name: Seq<char>, port: Seq<char>, s: Seq<char>)
    requires
        forall|j: int| 0 <= j < port.len() ==> port[j] != ':',
    ensures
        (forall|j: int| 0 <= j < s.len() ==> s[j] != ':') ==> service_port(s) == Err::<
            (Seq<char>, u16),
            SpecError,
        >(SpecError::NoPort),
        name.len() == 0 ==> service_port(name + seq![':'] + port) == Err::<(Seq<char>, u16), SpecError>(
            SpecError::NoService,
        ),
        name.len() > 0 ==> service_port(name + seq![':'] + port) == (match port_text(port) {
            Some(p) => Ok::<(Seq<char>, u16), SpecError>((name, p)),
            None => Err::<(Seq<char>, u16), SpecError>(SpecError::BadPort(port)),
        }),
{
    crate::addr_laws::law_last_place(s, ':');
    let t = name + seq![':'] + port;
    crate::addr_laws::law_last_place(t, ':');
    assert(t[name.len() as int] == ':');
    let i = crate::addr::last_index(t, ':')->0;
    if i > name.len() {
        assert(t[i] == port[i - name.len() - 1]);
    }
    assert(t.take(i) =~= name);
    assert(t.skip(i + 1) =~= port);
}

/// What is said of an argument that cannot be used: the argument in quotes, and what is wrong with it.
pub proof fn law_words_for_an_argument(s: Seq<char>, port: Seq<char>)
    ensures
        spec_message(s, SpecError::NoPort) == "'"@ + s + "': se esperaba <servicio>:<puerto>"@,
        spec_message(s, SpecError::NoService) == "'"@ + s + "': nombre de servicio vacío"@,
        spec_message(s, SpecError::BadPort(port)) == "'"@ + s + "': puerto inválido '"@ + port + "'"@,
{
}

/// A flow is dialled just if a service intercepts it: to that service, within its time, and with the
/// flow's protocol, its destination and the name that its destination stands for. The name server is at
/// port 53 of its address.
pub proof fn law_dial_is_the_services(
    s: ResolverState,
    proto: Protocol,
    dst: SocketAddr,
    src: SocketAddr,
    server: u32,
)
    ensures
        s.dial(proto, dst, src) is Some <==> s.lookup(
            Flow { dst_ip: dst.ip, dst_port: dst.port, proto, src_ip: src.ip },
        ) is Some,
        s.dial(proto, dst, src) matches Some(d) ==> {
            let rule = s.lookup(Flow { dst_ip: dst.ip, dst_port: dst.port, proto, src_ip: src.ip })->0;
            &&& d.service == rule.service
            &&& d.timeout == rule.dial_timeout
            &&& proto is Tcp ==> d.appdata == app_data("tcp"@, dst, s.hostname(dst.ip))
            &&& proto is Udp ==> d.appdata == app_data("udp"@, dst, s.hostname(dst.ip))
        },
        dst.ip matches IpAddr::V4(ip) ==> s.hostname(dst.ip) == s.dns.reverse(ip),
        dst.ip is V6 ==> s.hostname(dst.ip) is None,
        !to_dns_server(dst, None),
        to_dns_server(dst, Some(server)) <==> dst.ip == IpAddr::V4(server) && dst.port == 53,
{
}

/// A dial is told by its fields as they stand.
pub proof fn law_dials_are_read_as_they_stand(d: &Dial)
    ensures
        d@.service == d.service@,
        d@.timeout == d.timeout,
        d@.appdata == d.appdata@,
{
}

} // verus!
