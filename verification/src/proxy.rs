//! Proxied TCP connections: the `<service>:<port>` arguments, and how the two directions of a spliced
//! connection end.

use vstd::prelude::*;
use vstd::string::StringExecFns;

use crate::addr::find_last;
use crate::text::{chars_of, string_of};

verus! {

/// The bytes that one read of a socket may take, and so the most that one frame carries.
pub const PROXY_BUF: usize = 0x3fef;

/// The digits of a port: all of them decimal, at least one, after a plus sign or none.
pub open spec fn port_digits(s: Seq<char>) -> Seq<char> {
    if s.len() > 0 && s[0] == '+' {
        s.skip(1)
    } else {
        s
    }
}

/// The port that a text writes: a decimal number that is not zero and fits sixteen bits.
pub open spec fn port_text(s: Seq<char>) -> Option<u16> {
    let d = port_digits(s);
    if d.len() > 0 && (forall|i: int| 0 <= i < d.len() ==> crate::addr::is_digit(#[trigger] d[i])) && 0
        < crate::addr::decimal_value(d) <= 0xffff {
        Some(crate::addr::decimal_value(d) as u16)
    } else {
        None
    }
}

/// What is wrong with a `<service>:<port>` argument.
pub enum SpecError {
    NoPort,
    NoService,
    BadPort(Seq<char>),
}

/// The service and the port of an argument, which its last colon separates.
pub open spec fn service_port(s: Seq<char>) -> Result<(Seq<char>, u16), SpecError> {
    match crate::addr::last_index(s, ':') {
        None => Err(SpecError::NoPort),
        Some(i) => if i == 0 {
            Err(SpecError::NoService)
        } else {
            match port_text(s.skip(i + 1)) {
                Some(p) => Ok((s.take(i), p)),
                None => Err(SpecError::BadPort(s.skip(i + 1))),
            }
        },
    }
}

/// The message of an error.
pub open spec fn spec_message(s: Seq<char>, e: SpecError) -> Seq<char> {
    match e {
        SpecError::NoPort => "'"@ + s + "': se esperaba <servicio>:<puerto>"@,
        SpecError::NoService => "'"@ + s + "': nombre de servicio vacío"@,
        SpecError::BadPort(port) => "'"@ + s + "': puerto inválido '"@ + port + "'"@,
    }
}

proof fn lemma_decimal_grows(s: Seq<char>, n: int)
    requires
        0 <= n <= s.len(),
    ensures
        crate::addr::decimal_value(s.take(n)) <= crate::addr::decimal_value(s),
    decreases s.len(),
{
    if n < s.len() {
        assert(s.drop_last().take(n) =~= s.take(n));
        lemma_decimal_grows(s.drop_last(), n);
    } else {
        assert(s.take(n) =~= s);
    }
}

/// Reads a port.
fn parse_port(s: &str) -> (r: Option<u16>)
    ensures
        r == port_text(s@),
{
    let chars = chars_of(s);
    let from: usize = if chars.len() > 0 && chars[0] == '+' {
        1
    } else {
        0
    };
    let ghost d = port_digits(s@);
    assert(d =~= s@.skip(from as int));
    if chars.len() == from {
        return None;
    }
    let mut value: u32 = 0;
    let mut i: usize = from;
    while i < chars.len()
        invariant
            from <= i <= chars@.len(),
            chars@ == s@,
            d == port_digits(s@),
            d == s@.skip(from as int),
            forall|j: int| 0 <= j < i - from ==> crate::addr::is_digit(#[trigger] d[j]),
            value <= 0xffff,
            value == crate::addr::decimal_value(d.take(i - from)),
        decreases chars@.len() - i,
    {
        let c: char = chars[i];
        if c < '0' || c > '9' {
            assert(!crate::addr::is_digit(d[i - from]));
            return None;
        }
        proof {
            let now = d.take(i - from + 1);
            assert(now.drop_last() =~= d.take(i - from));
            assert(now.last() == c);
            lemma_decimal_grows(d, i - from + 1);
        }
        value = value * 10 + (c as u32 - 48);
        if value > 0xffff {
            return None;
        }
        i += 1;
    }
    assert(d.take(i - from) =~= d);
    if value == 0 {
        return None;
    }
    Some(value as u16)
}

/// Parses a `<service>:<port>` argument. The last colon separates the two, so that a service may have
/// colons in its name; the port is not zero.
pub fn parse_service_port(spec: &str) -> (r: Result<(String, u16), String>)
    ensures
        match (r, service_port(spec@)) {
            (Ok((service, port)), Ok((s, p))) => service@ == s && port == p,
            (Err(message), Err(e)) => message@ == spec_message(spec@, e),
            _ => false,
        },
{
    let chars = chars_of(spec);
    let n: usize = chars.len();
    let mut message: String = "'".to_owned();
    message.append(spec);
    match find_last(&chars, ':') {
        None => {
            message.append("': se esperaba <servicio>:<puerto>");
            Err(message)
        },
        Some(i) => {
            if i == 0 {
                message.append("': nombre de servicio vacío");
                return Err(message);
            }
            let service = string_of(&chars, 0, i);
            let port = string_of(&chars, i + 1, n);
            assert(service@ =~= spec@.take(i as int));
            assert(port@ =~= spec@.skip(i + 1));
            match parse_port(port.as_str()) {
                Some(p) => Ok((service, p)),
                None => {
                    message.append("': puerto inválido '");
                    message.append(port.as_str());
                    message.append("'");
                    Err(message)
                },
            }
        },
    }
}

} // verus!
