//! The embedded name server: what it does with a query, and how its answers are written.
//!
//! A query for an address is answered from the registry of names. One for another kind of record,
//! under a registered domain, is passed to the endpoint that hosts the domain's service. Whatever the
//! registry does not know is passed to an upstream server, or refused.

use vstd::prelude::*;
use vstd::slice::slice_subrange;
#[allow(unused_imports)]
use vstd::utf8::{decode_utf8, encode_utf8, valid_utf8};

use crate::dns::DnsMatcher;
#[allow(unused_imports)]
use crate::dns::DnsState;
#[allow(unused_imports)]
use crate::json::dns_message;
use crate::json::{emit_dns_message_json, push_bytes};

verus! {

/// The length of a message's header.
pub const DNS_HEADER_LEN: usize = 12;

pub const DNS_NO_ERROR: u8 = 0;

pub const DNS_SERVFAIL: u8 = 2;

pub const DNS_NOT_IMPL: u8 = 4;

pub const DNS_REFUSED: u8 = 5;

pub const TYPE_A: u16 = 1;

pub const TYPE_MX: u16 = 15;

pub const TYPE_TXT: u16 = 16;

pub const TYPE_AAAA: u16 = 28;

pub const TYPE_SRV: u16 = 33;

/// Seconds that a client may keep an address of the registry.
pub const LOCAL_TTL: i64 = 60;

/// The record that closes every answer: the option record of EDNS, with a payload size of 512 bytes.
pub open spec fn opt_record() -> Seq<u8> {
    seq![0u8, 0u8, 0x29u8, 2u8, 0u8, 0u8, 0u8, 0u8, 0u8, 0u8, 0u8]
}

/// A query: its number, whether recursion is desired, its name in dotted form, and its type.
pub struct QuerySpec {
    pub id: u16,
    pub recursive: bool,
    pub name: Seq<u8>,
    pub qtype: u16,
}

/// A number of two bytes, most significant first.
pub open spec fn be16(hi: u8, lo: u8) -> u16 {
    (hi * 256 + lo) as u16
}

/// Reads labels from `at` on, after those of `name`: the dotted name and the position after its end.
pub open spec fn labels(b: Seq<u8>, at: int, name: Seq<u8>) -> Option<(Seq<u8>, int)>
    decreases b.len() - at,
{
    if at < 0 || at >= b.len() {
        None
    } else if b[at] == 0 {
        Some((name, at + 1))
    } else if b[at] >= 64 || at + 1 + b[at] > b.len() {
        None
    } else {
        let label = b.subrange(at + 1, at + 1 + b[at]);
        labels(
            b,
            at + 1 + b[at],
            if name.len() == 0 {
                label
            } else {
                name.push(46u8) + label
            },
        )
    }
}

/// The query that a message holds: none if it is an answer, has no question, or is cut short.
pub open spec fn query_of(b: Seq<u8>) -> Option<QuerySpec> {
    if b.len() < DNS_HEADER_LEN || b[2] >= 128 || be16(b[4], b[5]) == 0 {
        None
    } else {
        match labels(b, DNS_HEADER_LEN as int, Seq::empty()) {
            None => None,
            Some((name, end)) => if end + 4 > b.len() {
                None
            } else {
                Some(
                    QuerySpec {
                        id: be16(b[0], b[1]),
                        recursive: b[2] % 2 == 1,
                        name,
                        qtype: be16(b[end], b[end + 1]),
                    },
                )
            },
        }
    }
}

/// The number of bytes before the first zero.
pub open spec fn text_len(s: Seq<u8>) -> int
    decreases s.len(),
{
    if s.len() == 0 || s[0] == 0 {
        0
    } else {
        1 + text_len(s.skip(1))
    }
}

/// The length of a question whose dotted name has `name_strlen` bytes.
pub open spec fn question_len(name_strlen: int) -> int {
    if name_strlen == 0 {
        5
    } else {
        name_strlen + 6
    }
}

/// Whether a message has a header and a question of that name length.
pub open spec fn holds_question(b: Seq<u8>, name_strlen: int) -> bool {
    0 <= name_strlen && DNS_HEADER_LEN + question_len(name_strlen) <= b.len()
}

/// An answer to give, as a hosting endpoint describes it.
#[derive(Debug, PartialEq, Eq)]
pub struct RespAnswer {
    pub atype: i64,
    pub ttl: i64,
    pub priority: i64,
    pub weight: i64,
    pub port: i64,
    pub data: String,
}

/// An answer to give.
pub struct AnswerSpec {
    pub atype: i64,
    pub ttl: i64,
    pub priority: i64,
    pub weight: i64,
    pub port: i64,
    pub data: Seq<char>,
}

impl View for RespAnswer {
    type V = AnswerSpec;

    open spec fn view(&self) -> AnswerSpec {
        AnswerSpec {
            atype: self.atype,
            ttl: self.ttl,
            priority: self.priority,
            weight: self.weight,
            port: self.port,
            data: self.data@,
        }
    }
}

/// Two bytes of a number, most significant first.
pub open spec fn two(n: u16) -> Seq<u8> {
    seq![(n / 256) as u8, (n % 256) as u8]
}

/// Four bytes of a number, most significant first.
pub open spec fn four(n: u32) -> Seq<u8> {
    two((n / 0x1_0000) as u16) + two((n % 0x1_0000) as u16)
}

/// A dotted name as labels, each after its length, and a zero at the end.
pub open spec fn wire_name(s: Seq<u8>, label: Seq<u8>) -> Seq<u8>
    decreases s.len(),
{
    if s.len() == 0 {
        seq![label.len() as u8] + label + seq![0u8]
    } else if s[0] == 46 {
        seq![label.len() as u8] + label + wire_name(s.skip(1), Seq::empty())
    } else {
        wire_name(s.skip(1), label.push(s[0]))
    }
}

/// What follows the fixed part of a record, and its length before it. An address record carries
/// `addr`, whatever the endpoint said; a kind of record that is not known carries nothing.
pub open spec fn rdata(a: AnswerSpec, addr: u32) -> Seq<u8> {
    let text = encode_utf8(a.data);
    if a.atype == TYPE_A {
        four(addr)
    } else if a.atype == TYPE_TXT {
        seq![text.len() as u8] + text
    } else if a.atype == TYPE_MX {
        two(a.priority as u16) + wire_name(text, Seq::empty())
    } else if a.atype == TYPE_SRV {
        two(a.priority as u16) + two(a.weight as u16) + two(a.port as u16) + wire_name(
            text,
            Seq::empty(),
        )
    } else {
        Seq::empty()
    }
}

/// A record: a reference to the name of the question, the type, the class, the time to live, and its
/// data.
pub open spec fn record(a: AnswerSpec, addr: u32) -> Seq<u8> {
    seq![0xc0u8, 0x0cu8] + two(a.atype as u16) + two(1) + four(a.ttl as u32) + two(
        rdata(a, addr).len() as u16,
    ) + rdata(a, addr)
}

/// The records of a list.
pub open spec fn records(s: Seq<AnswerSpec>, addr: u32) -> Seq<u8>
    decreases s.len(),
{
    if s.len() == 0 {
        Seq::empty()
    } else {
        records(s.drop_last(), addr) + record(s.last(), addr)
    }
}

/// The header of an answer: that of the query, marked as an answer, with the status and with whether
/// recursion is available. It counts the records if there is a list of them, and one option record.
pub open spec fn answer_header(
    b: Seq<u8>,
    status: u8,
    answers: Option<Seq<AnswerSpec>>,
    recursion_available: bool,
) -> Seq<u8> {
    let code = (b[3] / 16 % 8 * 16 + status % 16 + if recursion_available {
        128int
    } else {
        0int
    }) as u8;
    let count = match answers {
        Some(s) => two(s.len() as u16),
        None => seq![b[6], b[7]],
    };
    seq![b[0], b[1], (b[2] % 128 + 128) as u8, code, b[4], b[5], count[0], count[1], b[8], b[9], 0u8, 1u8]
}

/// The answer to a query: its header, its question, the records and the option record.
pub open spec fn answer(
    b: Seq<u8>,
    name_strlen: int,
    status: u8,
    answers: Option<Seq<AnswerSpec>>,
    addr: u32,
    recursion_available: bool,
) -> Seq<u8> {
    answer_header(b, status, answers, recursion_available) + b.subrange(
        DNS_HEADER_LEN as int,
        DNS_HEADER_LEN + question_len(name_strlen),
    ) + (match answers {
        Some(s) => records(s, addr),
        None => Seq::empty(),
    }) + opt_record()
}

/// The answers of a list.
pub open spec fn answer_specs(s: Seq<RespAnswer>) -> Seq<AnswerSpec> {
    s.map_values(|a: RespAnswer| a@)
}

/// The answers of a list, if there is one.
pub open spec fn opt_answers(s: Option<Vec<RespAnswer>>) -> Option<Seq<AnswerSpec>> {
    match s {
        Some(v) => Some(answer_specs(v@)),
        None => None,
    }
}

fn push_two(out: &mut Vec<u8>, n: u16)
    ensures
        final(out)@ == old(out)@ + two(n),
{
    out.push((n / 256) as u8);
    out.push((n % 256) as u8);
    assert(out@ =~= old(out)@ + two(n));
}

fn push_four(out: &mut Vec<u8>, n: u32)
    ensures
        final(out)@ == old(out)@ + four(n),
{
    push_two(out, (n / 0x1_0000) as u16);
    push_two(out, (n % 0x1_0000) as u16);
    assert(out@ =~= old(out)@ + four(n));
}

/// Appends a dotted name as labels.
fn push_name(out: &mut Vec<u8>, name: &[u8])
    ensures
        final(out)@ == old(out)@ + wire_name(name@, Seq::empty()),
{
    let ghost start = out@;
    let ghost want = start + wire_name(name@, Seq::empty());
    let mut label: Vec<u8> = Vec::new();
    let mut i: usize = 0;
    assert(name@.skip(0) =~= name@);
    assert(label@ =~= Seq::<u8>::empty());
    while i < name.len()
        invariant
            i <= name@.len(),
            want == out@ + wire_name(name@.skip(i as int), label@),
        decreases name@.len() - i,
    {
        let ghost rest = name@.skip(i as int);
        assert(rest.skip(1) =~= name@.skip(i + 1));
        if name[i] == 46 {
            let ghost before = out@;
            let ghost done = label@;
            out.push(label.len() as u8);
            push_bytes(out, label.as_slice());
            label = Vec::new();
            proof {
                assert(label@ =~= Seq::<u8>::empty());
                assert(out@ =~= before + (seq![done.len() as u8] + done));
                assert(out@ + wire_name(rest.skip(1), label@) =~= before + wire_name(rest, done));
            }
        } else {
            label.push(name[i]);
        }
        i += 1;
    }
    let ghost before = out@;
    out.push(label.len() as u8);
    push_bytes(out, label.as_slice());
    out.push(0);
    proof {
        assert(name@.skip(i as int).len() == 0);
        assert(out@ =~= before + wire_name(name@.skip(i as int), label@));
    }
}

/// What follows the fixed part of a record.
fn write_rdata(a: &RespAnswer, addr: u32) -> (r: Vec<u8>)
    ensures
        r@ == rdata(a@, addr),
{
    let mut out: Vec<u8> = Vec::new();
    let text: &[u8] = a.data.as_str().as_bytes();
    if a.atype == TYPE_A as i64 {
        push_four(&mut out, addr);
        assert(out@ =~= rdata(a@, addr));
    } else if a.atype == TYPE_TXT as i64 {
        out.push(text.len() as u8);
        push_bytes(&mut out, text);
        assert(out@ =~= rdata(a@, addr));
    } else if a.atype == TYPE_MX as i64 {
        push_two(&mut out, a.priority as u16);
        push_name(&mut out, text);
        assert(out@ =~= rdata(a@, addr));
    } else if a.atype == TYPE_SRV as i64 {
        push_two(&mut out, a.priority as u16);
        push_two(&mut out, a.weight as u16);
        push_two(&mut out, a.port as u16);
        push_name(&mut out, text);
        assert(out@ =~= rdata(a@, addr));
    } else {
        assert(out@ =~= rdata(a@, addr));
    }
    out
}

/// Appends a record.
fn push_record(out: &mut Vec<u8>, a: &RespAnswer, addr: u32)
    ensures
        final(out)@ == old(out)@ + record(a@, addr),
{
    let data = write_rdata(a, addr);
    out.push(0xc0);
    out.push(0x0c);
    push_two(out, a.atype as u16);
    push_two(out, 1);
    push_four(out, a.ttl as u32);
    push_two(out, data.len() as u16);
    push_bytes(out, data.as_slice());
    assert(out@ =~= old(out)@ + record(a@, addr));
}

/// The header of an answer.
fn write_header(
    packet: &[u8],
    status: u8,
    answers: &Option<Vec<RespAnswer>>,
    recursion_available: bool,
) -> (r: Vec<u8>)
    requires
        packet@.len() >= DNS_HEADER_LEN,
    ensures
        r@ == answer_header(packet@, status, opt_answers(*answers), recursion_available),
{
    let mut out: Vec<u8> = Vec::new();
    out.push(packet[0]);
    out.push(packet[1]);
    out.push(packet[2] % 128 + 128);
    let available: u8 = if recursion_available {
        128
    } else {
        0
    };
    out.push(packet[3] / 16 % 8 * 16 + status % 16 + available);
    out.push(packet[4]);
    out.push(packet[5]);
    match answers {
        Some(list) => {
            push_two(&mut out, list.len() as u16);
        },
        None => {
            out.push(packet[6]);
            out.push(packet[7]);
        },
    }
    out.push(packet[8]);
    out.push(packet[9]);
    out.push(0);
    out.push(1);
    assert(out@ =~= answer_header(packet@, status, opt_answers(*answers), recursion_available));
    out
}

/// Appends the question of a query.
fn push_question(out: &mut Vec<u8>, packet: &[u8], name_strlen: usize)
    requires
        holds_question(packet@, name_strlen as int),
    ensures
        final(out)@ == old(out)@ + packet@.subrange(
            DNS_HEADER_LEN as int,
            DNS_HEADER_LEN + question_len(name_strlen as int),
        ),
{
    let size: usize = packet.len();
    let question: usize = if name_strlen == 0 {
        5
    } else {
        name_strlen + 6
    };
    let mut i: usize = 0;
    let ghost head = out@;
    while i < question
        invariant
            i <= question,
            size == packet@.len(),
            DNS_HEADER_LEN + question <= size,
            out@ == head + packet@.subrange(DNS_HEADER_LEN as int, DNS_HEADER_LEN + i),
        decreases question - i,
    {
        out.push(packet[DNS_HEADER_LEN + i]);
        i += 1;
        assert(out@ =~= head + packet@.subrange(DNS_HEADER_LEN as int, DNS_HEADER_LEN + i));
    }
}

/// Appends the records of a list.
fn push_records(out: &mut Vec<u8>, list: &Vec<RespAnswer>, addr: u32)
    ensures
        final(out)@ == old(out)@ + records(answer_specs(list@), addr),
{
    let ghost head = out@;
    let ghost specs = answer_specs(list@);
    let mut k: usize = 0;
    assert(records(specs.take(0), addr) =~= Seq::<u8>::empty());
    while k < list.len()
        invariant
            k <= list@.len(),
            specs == answer_specs(list@),
            out@ == head + records(specs.take(k as int), addr),
        decreases list@.len() - k,
    {
        let ghost before = out@;
        push_record(out, &list[k], addr);
        proof {
            let now = specs.take(k + 1);
            assert(now.drop_last() =~= specs.take(k as int));
            assert(now.last() == list@[k as int]@);
            assert(out@ =~= head + records(now, addr));
        }
        k += 1;
    }
    assert(specs.take(k as int) =~= specs);
}

/// Appends the option record.
fn push_opt_record(out: &mut Vec<u8>)
    ensures
        final(out)@ == old(out)@ + opt_record(),
{
    out.push(0);
    out.push(0);
    out.push(0x29);
    out.push(2);
    push_four(out, 0);
    push_two(out, 0);
    out.push(0);
    assert(out@ =~= old(out)@ + opt_record());
}

/// Writes the answer to a query: the records that are given, or none where there is no list of them.
pub fn format_resp_answers(
    packet: &[u8],
    name_strlen: usize,
    status: u8,
    answers: &Option<Vec<RespAnswer>>,
    addr: u32,
    recursion_available: bool,
) -> (r: Vec<u8>)
    requires
        holds_question(packet@, name_strlen as int),
    ensures
        r@ == answer(
            packet@,
            name_strlen as int,
            status,
            opt_answers(*answers),
            addr,
            recursion_available,
        ),
{
    let mut out = write_header(packet, status, answers, recursion_available);
    push_question(&mut out, packet, name_strlen);
    let ghost body = out@;
    match answers {
        None => {
            assert(body + Seq::<u8>::empty() =~= body);
        },
        Some(list) => {
            push_records(&mut out, list, addr);
        },
    }
    push_opt_record(&mut out);
    out
}

/// What is asked of the endpoint that hosts a domain's service.
#[derive(Debug, PartialEq, Eq)]
pub struct ProxyQuery {
    /// The registered domain that the name lies in.
    pub domain: String,
    pub id: u16,
    pub name_strlen: usize,
    /// The question, as the endpoint takes it.
    pub json: Vec<u8>,
}

/// What is asked of the endpoint that hosts a domain's service.
pub struct ProxyQuerySpec {
    pub domain: Seq<char>,
    pub id: u16,
    pub name_strlen: int,
    pub json: Seq<u8>,
}

impl View for ProxyQuery {
    type V = ProxyQuerySpec;

    open spec fn view(&self) -> ProxyQuerySpec {
        ProxyQuerySpec {
            domain: self.domain@,
            id: self.id,
            name_strlen: self.name_strlen as int,
            json: self.json@,
        }
    }
}

/// What to do with a query.
#[derive(Debug, PartialEq, Eq)]
pub enum DnsAction {
    /// Answer it now.
    Respond(Vec<u8>),
    /// Leave it unanswered.
    Drop,
    /// Pass it to the upstream servers, and answer it so if none of them can be reached.
    ForwardUpstream { on_send_failure: Vec<u8> },
    /// Ask the endpoint that hosts the domain's service.
    ForwardProxy(ProxyQuery),
    /// Answer it now, and have the connection to that endpoint made.
    RespondAndConnectProxy { response: Vec<u8>, domain: String },
}

/// What to do with a query.
pub enum ActionSpec {
    Respond(Seq<u8>),
    Drop,
    ForwardUpstream { on_send_failure: Seq<u8> },
    ForwardProxy(ProxyQuerySpec),
    RespondAndConnectProxy { response: Seq<u8>, domain: Seq<char> },
}

impl View for DnsAction {
    type V = ActionSpec;

    open spec fn view(&self) -> ActionSpec {
        match self {
            DnsAction::Respond(r) => ActionSpec::Respond(r@),
            DnsAction::Drop => ActionSpec::Drop,
            DnsAction::ForwardUpstream { on_send_failure } => ActionSpec::ForwardUpstream {
                on_send_failure: on_send_failure@,
            },
            DnsAction::ForwardProxy(q) => ActionSpec::ForwardProxy(q@),
            DnsAction::RespondAndConnectProxy { response, domain } => {
                ActionSpec::RespondAndConnectProxy { response: response@, domain: domain@ }
            },
        }
    }
}

/// Whether a hosting endpoint answers questions of this type.
pub open spec fn proxied(qtype: u16) -> bool {
    qtype == TYPE_MX || qtype == TYPE_TXT || qtype == TYPE_SRV
}

/// The bytes of a query's name that count: those before the first zero.
pub open spec fn raw_name(q: QuerySpec) -> Seq<u8> {
    q.name.take(text_len(q.name))
}

/// The answer to a query that carries a status alone.
pub open spec fn bare_answer(b: Seq<u8>, q: QuerySpec, status: u8, upstream: bool) -> Seq<u8> {
    answer(b, text_len(q.name), status, None, 0, upstream)
}

/// What is done with a query that the registry does not know: it goes upstream if it desires recursion
/// and there is an upstream server, else it is refused.
pub open spec fn missed(b: Seq<u8>, q: QuerySpec, upstream: bool) -> ActionSpec {
    let refusal = bare_answer(b, q, DNS_REFUSED, upstream);
    if q.recursive && upstream {
        ActionSpec::ForwardUpstream { on_send_failure: refusal }
    } else {
        ActionSpec::Respond(refusal)
    }
}

/// The record that answers a question for an address of the registry.
pub open spec fn local_answer() -> AnswerSpec {
    AnswerSpec {
        atype: TYPE_A as i64,
        ttl: LOCAL_TTL,
        priority: 0,
        weight: 0,
        port: 0,
        data: Seq::empty(),
    }
}

/// What is done with a query for an address, once it was looked up. A name that is known has an IPv4
/// address only: a question for another kind of address is answered without records.
pub open spec fn addressed(b: Seq<u8>, q: QuerySpec, found: Option<u32>, upstream: bool) -> ActionSpec {
    match found {
        None => missed(b, q, upstream),
        Some(ip) => ActionSpec::Respond(
            answer(
                b,
                text_len(q.name),
                DNS_NO_ERROR,
                if q.qtype == TYPE_A {
                    Some(seq![local_answer()])
                } else {
                    None
                },
                ip,
                upstream,
            ),
        ),
    }
}

/// What is done with a query for another kind of record, given the registered domain that its name lies
/// in: the hosting endpoint is asked, if it can answer such a question and there is a way to ask it.
pub open spec fn delegated(
    b: Seq<u8>,
    q: QuerySpec,
    domain: Option<Seq<char>>,
    upstream: bool,
    proxy: bool,
) -> ActionSpec {
    match domain {
        None => missed(b, q, upstream),
        Some(domain) => if proxied(q.qtype) {
            if proxy {
                ActionSpec::ForwardProxy(
                    ProxyQuerySpec {
                        domain,
                        id: q.id,
                        name_strlen: text_len(q.name),
                        json: dns_message(q.id, q.recursive, raw_name(q), q.qtype),
                    },
                )
            } else {
                ActionSpec::Respond(bare_answer(b, q, DNS_SERVFAIL, upstream))
            }
        } else {
            let response = bare_answer(b, q, DNS_NOT_IMPL, upstream);
            if proxy {
                ActionSpec::RespondAndConnectProxy { response, domain }
            } else {
                ActionSpec::Respond(response)
            }
        },
    }
}

/// The registry after a message reached the server, and what is done with the message. A name that is
/// no UTF-8 text is not known to the registry.
pub open spec fn served(dns: DnsState, b: Seq<u8>, upstream: bool, proxy: bool) -> (
    DnsState,
    ActionSpec,
) {
    match query_of(b) {
        None => (dns, ActionSpec::Drop),
        Some(q) => if !valid_utf8(raw_name(q)) {
            (dns, missed(b, q, upstream))
        } else {
            let name = decode_utf8(raw_name(q));
            if q.qtype == TYPE_A || q.qtype == TYPE_AAAA {
                let (after, found) = dns.lookup(name);
                (
                    after,
                    addressed(
                        b,
                        q,
                        match found {
                            Some(m) => Some(m.ip),
                            None => None,
                        },
                        upstream,
                    ),
                )
            } else {
                (dns, delegated(b, q, dns.matched_domain(name), upstream, proxy))
            }
        },
    }
}

/// A name takes as many bytes in a message as its dotted form, and two more; an empty one takes one.
proof fn lemma_labels(b: Seq<u8>, at: int, name: Seq<u8>)
    requires
        0 <= at,
    ensures
        labels(b, at, name) matches Some((full, end)) ==> at < end <= b.len() && name.len()
            <= full.len() && end - at == full.len() - name.len() + (if name.len() == 0 && full.len() > 0 {
            2int
        } else {
            1int
        }),
    decreases b.len() - at,
{
    if at < b.len() && b[at] != 0 && b[at] < 64 && at + 1 + b[at] <= b.len() {
        let label = b.subrange(at + 1, at + 1 + b[at]);
        let next = if name.len() == 0 {
            label
        } else {
            name.push(46u8) + label
        };
        lemma_labels(b, at + 1 + b[at], next);
    }
}

proof fn lemma_text_len(s: Seq<u8>)
    ensures
        0 <= text_len(s) <= s.len(),
    decreases s.len(),
{
    if s.len() > 0 && s[0] != 0 {
        lemma_text_len(s.skip(1));
    }
}

/// A message with a query holds its question.
pub proof fn lemma_query_holds_question(b: Seq<u8>)
    requires
        query_of(b) is Some,
    ensures
        holds_question(b, text_len(query_of(b)->0.name)),
{
    lemma_labels(b, DNS_HEADER_LEN as int, Seq::empty());
    lemma_text_len(query_of(b)->0.name);
}

/// Converts bytes into text: `std::str::from_utf8`, which fails on bytes that are no UTF-8 text, and on
/// others gives the text that they encode.
#[verifier::external_body]
fn utf8_text(b: &[u8]) -> (r: Option<String>)
    ensures
        match r {
            Some(t) => valid_utf8(b@) && t@ == decode_utf8(b@),
            None => !valid_utf8(b@),
        },
{
    match std::str::from_utf8(b) {
        Ok(t) => Some(t.to_owned()),
        Err(_) => None,
    }
}

/// A query that was read: its number, whether recursion is desired, its name in dotted form, its type,
/// and the number of bytes of the name before the first zero.
pub struct ParsedQuery {
    pub id: u16,
    pub recursive: bool,
    pub name: Vec<u8>,
    pub qtype: u16,
    pub name_strlen: usize,
}

/// Reads the labels of a name.
fn read_labels(packet: &[u8]) -> (r: Option<(Vec<u8>, usize)>)
    requires
        packet@.len() >= DNS_HEADER_LEN,
    ensures
        match labels(packet@, DNS_HEADER_LEN as int, Seq::empty()) {
            None => r is None,
            Some((name, end)) => r matches Some((n, e)) && n@ == name && e == end,
        },
{
    let mut name: Vec<u8> = Vec::new();
    let mut at: usize = DNS_HEADER_LEN;
    let size: usize = packet.len();
    assert(name@ =~= Seq::<u8>::empty());
    while at < size && packet[at] != 0
        invariant
            at <= size,
            size == packet@.len(),
            labels(packet@, DNS_HEADER_LEN as int, Seq::empty()) == labels(
                packet@,
                at as int,
                name@,
            ),
        decreases size - at,
    {
        let len: usize = packet[at] as usize;
        if len >= 64 || len > size - at - 1 {
            return None;
        }
        let ghost before = name@;
        let ghost label = packet@.subrange(at + 1, at + 1 + len);
        if name.len() > 0 {
            name.push(46);
        }
        let ghost start = name@;
        let mut i: usize = 0;
        while i < len
            invariant
                i <= len,
                at + 1 + len <= size,
                size == packet@.len(),
                label == packet@.subrange(at + 1, at + 1 + len),
                name@ == start + label.take(i as int),
            decreases len - i,
        {
            name.push(packet[at + 1 + i]);
            i += 1;
            assert(label.take(i as int) =~= label.take(i - 1).push(label[i - 1]));
            assert(name@ =~= start + label.take(i as int));
        }
        proof {
            assert(label.take(len as int) =~= label);
            assert(start + label =~= if before.len() == 0 {
                label
            } else {
                before.push(46u8) + label
            });
        }
        at = at + 1 + len;
    }
    if at < size {
        Some((name, at + 1))
    } else {
        None
    }
}

/// The number of bytes before the first zero.
fn strlen(s: &[u8]) -> (r: usize)
    ensures
        r == text_len(s@),
        r <= s@.len(),
{
    let mut i: usize = 0;
    assert(s@.skip(0) =~= s@);
    while i < s.len() && s[i] != 0
        invariant
            i <= s@.len(),
            text_len(s@) == i + text_len(s@.skip(i as int)),
        decreases s@.len() - i,
    {
        assert(s@.skip(i as int).skip(1) =~= s@.skip(i + 1));
        i += 1;
    }
    i
}

/// Reads the query of a message.
pub fn parsed_query_parts(packet: &[u8]) -> (r: Option<ParsedQuery>)
    ensures
        match query_of(packet@) {
            None => r is None,
            Some(q) => r matches Some(p) && p.id == q.id && p.recursive == q.recursive && p.name@
                == q.name && p.qtype == q.qtype && p.name_strlen == text_len(q.name),
        },
{
    let size: usize = packet.len();
    if size < DNS_HEADER_LEN || packet[2] >= 128 || (packet[4] == 0 && packet[5] == 0) {
        return None;
    }
    match read_labels(packet) {
        None => None,
        Some((name, end)) => {
            proof {
                lemma_labels(packet@, DNS_HEADER_LEN as int, Seq::empty());
            }
            if size - end < 4 {
                return None;
            }
            let name_strlen: usize = strlen(name.as_slice());
            Some(
                ParsedQuery {
                    id: packet[0] as u16 * 256 + packet[1] as u16,
                    recursive: packet[2] % 2 == 1,
                    name,
                    qtype: packet[end] as u16 * 256 + packet[end + 1] as u16,
                    name_strlen,
                },
            )
        },
    }
}

/// The answer that carries a status alone.
fn bare_response(packet: &[u8], name_strlen: usize, status: u8, upstream: bool) -> (r: Vec<u8>)
    requires
        holds_question(packet@, name_strlen as int),
    ensures
        r@ == answer(packet@, name_strlen as int, status, None, 0, upstream),
{
    format_resp_answers(packet, name_strlen, status, &None, 0, upstream)
}

/// What is done with a query that the registry does not know.
fn on_miss(packet: &[u8], q: &ParsedQuery, upstream: bool) -> (r: DnsAction)
    requires
        query_of(packet@) is Some,
        q.name_strlen == text_len(query_of(packet@)->0.name),
        q.recursive == query_of(packet@)->0.recursive,
    ensures
        r@ == missed(packet@, query_of(packet@)->0, upstream),
{
    proof {
        lemma_query_holds_question(packet@);
    }
    let refusal = bare_response(packet, q.name_strlen, DNS_REFUSED, upstream);
    if q.recursive && upstream {
        DnsAction::ForwardUpstream { on_send_failure: refusal }
    } else {
        DnsAction::Respond(refusal)
    }
}

/// What is done with a query for an address.
fn on_address(packet: &[u8], q: &ParsedQuery, found: Option<u32>, upstream: bool) -> (r: DnsAction)
    requires
        query_of(packet@) is Some,
        q.name_strlen == text_len(query_of(packet@)->0.name),
        q.recursive == query_of(packet@)->0.recursive,
        q.qtype == query_of(packet@)->0.qtype,
    ensures
        r@ == addressed(packet@, query_of(packet@)->0, found, upstream),
{
    proof {
        lemma_query_holds_question(packet@);
    }
    match found {
        None => on_miss(packet, q, upstream),
        Some(ip) => {
            let answers: Option<Vec<RespAnswer>> = if q.qtype == TYPE_A {
                let mut list: Vec<RespAnswer> = Vec::new();
                list.push(
                    RespAnswer {
                        atype: TYPE_A as i64,
                        ttl: LOCAL_TTL,
                        priority: 0,
                        weight: 0,
                        port: 0,
                        data: String::new(),
                    },
                );
                assert(list@[0]@.data =~= Seq::<char>::empty());
                assert(answer_specs(list@) =~= seq![local_answer()]);
                Some(list)
            } else {
                None
            };
            DnsAction::Respond(
                format_resp_answers(packet, q.name_strlen, DNS_NO_ERROR, &answers, ip, upstream),
            )
        },
    }
}

/// What is done with a query for another kind of record.
fn on_record(
    packet: &[u8],
    q: &ParsedQuery,
    domain: Option<String>,
    upstream: bool,
    proxy: bool,
) -> (r: DnsAction)
    requires
        query_of(packet@) is Some,
        q.id == query_of(packet@)->0.id,
        q.recursive == query_of(packet@)->0.recursive,
        q.name@ == query_of(packet@)->0.name,
        q.qtype == query_of(packet@)->0.qtype,
        q.name_strlen == text_len(q.name@),
    ensures
        r@ == delegated(
            packet@,
            query_of(packet@)->0,
            match domain {
                Some(d) => Some(d@),
                None => None,
            },
            upstream,
            proxy,
        ),
{
    proof {
        lemma_query_holds_question(packet@);
        lemma_text_len(q.name@);
    }
    match domain {
        None => on_miss(packet, q, upstream),
        Some(domain) => if q.qtype == TYPE_MX || q.qtype == TYPE_TXT || q.qtype == TYPE_SRV {
            if proxy {
                let raw: &[u8] = slice_subrange(q.name.as_slice(), 0, q.name_strlen);
                assert(raw@ =~= raw_name(query_of(packet@)->0));
                let json = emit_dns_message_json(q.id, q.recursive, raw, q.qtype);
                DnsAction::ForwardProxy(
                    ProxyQuery { domain, id: q.id, name_strlen: q.name_strlen, json },
                )
            } else {
                DnsAction::Respond(bare_response(packet, q.name_strlen, DNS_SERVFAIL, upstream))
            }
        } else {
            let response = bare_response(packet, q.name_strlen, DNS_NOT_IMPL, upstream);
            if proxy {
                DnsAction::RespondAndConnectProxy { response, domain }
            } else {
                DnsAction::Respond(response)
            }
        },
    }
}

/// Serves a message that reached the server. `upstream` says whether there is an upstream server,
/// `proxy` whether a hosting endpoint can be asked.
pub fn handle_query(dns: &mut DnsMatcher, packet: &[u8], upstream: bool, proxy: bool) -> (r: DnsAction)
    requires
        old(dns).wf(),
    ensures
        final(dns).wf(),
        final(dns)@ == served(old(dns)@, packet@, upstream, proxy).0,
        r@ == served(old(dns)@, packet@, upstream, proxy).1,
{
    let q: ParsedQuery = match parsed_query_parts(packet) {
        None => {
            return DnsAction::Drop;
        },
        Some(q) => q,
    };
    proof {
        lemma_text_len(q.name@);
    }
    let raw: &[u8] = slice_subrange(q.name.as_slice(), 0, q.name_strlen);
    assert(raw@ =~= raw_name(query_of(packet@)->0));
    let name: String = match utf8_text(raw) {
        None => {
            return on_miss(packet, &q, upstream);
        },
        Some(name) => name,
    };
    if q.qtype == TYPE_A || q.qtype == TYPE_AAAA {
        let found: Option<u32> = match dns.lookup(name.as_str()) {
            Some(m) => Some(m.ip),
            None => None,
        };
        on_address(packet, &q, found, upstream)
    } else {
        let domain = dns.matched_domain(name.as_str());
        on_record(packet, &q, domain, upstream, proxy)
    }
}

/// The answer to a message where there is neither an upstream server nor a hosting endpoint to ask;
/// `None` if the message stays unanswered.
pub fn dns_response(dns: &mut DnsMatcher, payload: &[u8]) -> (r: Option<Vec<u8>>)
    requires
        old(dns).wf(),
    ensures
        final(dns).wf(),
        final(dns)@ == served(old(dns)@, payload@, false, false).0,
        match served(old(dns)@, payload@, false, false).1 {
            ActionSpec::Respond(bytes) => r matches Some(v) && v@ == bytes,
            _ => r is None,
        },
{
    match handle_query(dns, payload, false, false) {
        DnsAction::Respond(bytes) => Some(bytes),
        _ => None,
    }
}

/// Every answer repeats the number and the question of its query, is marked as an answer, and carries
/// the status that was asked for; recursion is declared available just where it is.
pub proof fn law_answer_echoes_query(
    b: Seq<u8>,
    name_strlen: int,
    status: u8,
    answers: Option<Seq<AnswerSpec>>,
    addr: u32,
    upstream: bool,
)
    requires
        holds_question(b, name_strlen),
        status < 16,
    ensures
        ({
            let r = answer(b, name_strlen, status, answers, addr, upstream);
            let end = DNS_HEADER_LEN + question_len(name_strlen);
            &&& end <= r.len()
            &&& r[0] == b[0] && r[1] == b[1]
            &&& r[2] == b[2] % 128 + 128
            &&& r[3] % 16 == status
            &&& r[3] >= 128 <==> upstream
            &&& r.subrange(DNS_HEADER_LEN as int, end) == b.subrange(DNS_HEADER_LEN as int, end)
        }),
{
    let r = answer(b, name_strlen, status, answers, addr, upstream);
    let end = DNS_HEADER_LEN + question_len(name_strlen);
    assert(r.subrange(DNS_HEADER_LEN as int, end) =~= b.subrange(DNS_HEADER_LEN as int, end));
}

/// A message is left unanswered just where it holds no query.
pub proof fn law_every_query_is_served(dns: DnsState, b: Seq<u8>, upstream: bool, proxy: bool)
    ensures
        served(dns, b, upstream, proxy).1 is Drop <==> query_of(b) is None,
{
}

/// Without an upstream server and without a way to ask an endpoint, every query is answered at once.
pub proof fn law_local_server_answers_at_once(dns: DnsState, b: Seq<u8>)
    requires
        query_of(b) is Some,
    ensures
        served(dns, b, false, false).1 is Respond,
{
}

/// A message goes upstream only if it desires recursion and there is an upstream server.
pub proof fn law_upstream_needs_recursion(dns: DnsState, b: Seq<u8>, upstream: bool, proxy: bool)
    requires
        served(dns, b, upstream, proxy).1 is ForwardUpstream,
    ensures
        upstream,
        query_of(b) matches Some(q) && q.recursive,
{
}

/// The address that a question for one is answered with stands for the name that was asked for, from
/// then on.
pub proof fn law_answered_address_stands_for_its_name(
    dns: DnsState,
    b: Seq<u8>,
    upstream: bool,
    proxy: bool,
)
    requires
        dns.wf(),
        query_of(b) matches Some(q) && q.qtype == TYPE_A && valid_utf8(raw_name(q)) && dns.lookup(
            decode_utf8(raw_name(q)),
        ).1 is Some,
    ensures
        ({
            let q = query_of(b)->0;
            let name = decode_utf8(raw_name(q));
            let ip = dns.lookup(name).1->0.ip;
            &&& served(dns, b, upstream, proxy).1 == ActionSpec::Respond(
                answer(b, text_len(q.name), DNS_NO_ERROR, Some(seq![local_answer()]), ip, upstream),
            )
            &&& served(dns, b, upstream, proxy).0.reverse(ip) == Some(crate::names::lower(name))
        }),
{
    crate::dns::law_reverse_of_lookup(dns, decode_utf8(raw_name(query_of(b)->0)));
}

} // verus!
