//! What holds of the messages that the embedded name server reads and writes, byte by byte.

use vstd::prelude::*;
use vstd::utf8::{decode_utf8, encode_utf8, valid_utf8};

use crate::dns::DnsState;
use crate::dns_server::{
    answer, answer_specs, be16, four, labels, opt_answers, opt_record, proxied, query_of, question_len,
    raw_name, rdata, record, records, served, text_len, two, wire_name, ActionSpec, AnswerSpec,
    DnsAction, ProxyQuery, QuerySpec, RespAnswer,
};

verus! {

/// A number of two bytes is read as it is written, the high byte first; one of four bytes is written the
/// same way.
pub proof fn law_numbers_are_written_high_byte_first(n: u16, m: u32, hi: u8, lo: u8)
    ensures
        two(n).len() == 2,
        256 * two(n)[0] + two(n)[1] == n,
        be16(two(n)[0], two(n)[1]) == n,
        be16(hi, lo) == 256 * hi + lo,
        four(m).len() == 4,
        0x100_0000 * four(m)[0] + 0x1_0000 * four(m)[1] + 0x100 * four(m)[2] + four(m)[3] == m,
{
}

/// Whether every label of a dotted name has 1 to 63 bytes, where `so_far` bytes of the first one stand
/// before it.
pub open spec fn well_dotted(s: Seq<u8>, so_far: nat) -> bool
    decreases s.len(),
{
    if s.len() == 0 {
        1 <= so_far <= 63
    } else if s[0] == 46 {
        1 <= so_far <= 63 && well_dotted(s.skip(1), 0)
    } else {
        so_far < 63 && well_dotted(s.skip(1), so_far + 1)
    }
}

proof fn lemma_step(b: Seq<u8>, at: int, name: Seq<u8>, label: Seq<u8>)
    requires
        0 <= at,
        at + 1 + label.len() <= b.len(),
        1 <= label.len() <= 63,
        b[at] == label.len(),
        b.subrange(at + 1, at + 1 + label.len()) == label,
    ensures
        labels(b, at, name) == labels(
            b,
            at + 1 + label.len(),
            if name.len() == 0 {
                label
            } else {
                name + seq![46u8] + label
            },
        ),
{
    assert(name.push(46u8) + label =~= name + seq![46u8] + label);
}

/// The name once a label was read after those of `name`.
spec fn with_label(name: Seq<u8>, label: Seq<u8>) -> Seq<u8> {
    if name.len() == 0 {
        label
    } else {
        name + seq![46u8] + label
    }
}

proof fn lemma_label_first(pre: Seq<u8>, label: Seq<u8>, name: Seq<u8>, tail: Seq<u8>)
    requires
        1 <= label.len() <= 63,
    ensures
        labels(pre + (seq![label.len() as u8] + label) + tail, pre.len() as int, name) == labels(
            pre + (seq![label.len() as u8] + label) + tail,
            pre.len() as int + 1 + label.len(),
            with_label(name, label),
        ),
{
    let b = pre + (seq![label.len() as u8] + label) + tail;
    let at = pre.len() as int;
    assert(b[at] == label.len());
    assert(b.subrange(at + 1, at + 1 + label.len()) =~= label);
    lemma_step(b, at, name, label);
}

proof fn lemma_last_label(pre: Seq<u8>, label: Seq<u8>, name: Seq<u8>, post: Seq<u8>)
    requires
        1 <= label.len() <= 63,
    ensures
        labels(
            pre + (seq![label.len() as u8] + label + seq![0u8]) + post,
            pre.len() as int,
            name,
        ) == Some((with_label(name, label), pre.len() as int + label.len() + 2)),
{
    let tail = seq![0u8] + post;
    let b = pre + (seq![label.len() as u8] + label) + tail;
    assert(pre + (seq![label.len() as u8] + label + seq![0u8]) + post =~= b);
    lemma_label_first(pre, label, name, tail);
    let at = pre.len() as int + 1 + label.len();
    assert(b[at as int] == 0);
    assert(labels(b, at as int, with_label(name, label)) == Some((with_label(name, label), at + 1)));
}

proof fn lemma_name_reads_back(pre: Seq<u8>, s: Seq<u8>, label: Seq<u8>, name: Seq<u8>, post: Seq<u8>)
    requires
        well_dotted(s, label.len()),
    ensures
        labels(pre + wire_name(s, label) + post, pre.len() as int, name) == Some(
            (with_label(name, label) + s, pre.len() + wire_name(s, label).len() as int),
        ),
    decreases s.len(),
{
    if s.len() == 0 {
        lemma_last_label(pre, label, name, post);
        assert(wire_name(s, label) == seq![label.len() as u8] + label + seq![0u8]);
        assert(with_label(name, label) + s =~= with_label(name, label));
    } else if s[0] == 46 {
        let rest = s.skip(1);
        let head = seq![label.len() as u8] + label;
        let none = Seq::<u8>::empty();
        let after = wire_name(rest, none);
        let next = with_label(name, label);
        assert(wire_name(s, label) == head + after);
        lemma_label_first(pre, label, name, after + post);
        lemma_name_reads_back(pre + head, rest, none, next, post);
        assert(pre + (head + after) + post =~= pre + head + (after + post));
        assert(pre + head + after + post =~= pre + head + (after + post));
        assert(with_label(next, none) + rest =~= next + s);
    } else {
        lemma_name_reads_back(pre, s.skip(1), label.push(s[0]), name, post);
        assert(with_label(name, label.push(s[0])) + s.skip(1) =~= with_label(name, label) + s);
    }
}

/// A name that is written is read back: of a dotted name whose labels have 1 to 63 bytes the reader of
/// labels gives the name and the position after it, wherever in a message it stands.
pub proof fn law_written_name_is_read_back(pre: Seq<u8>, s: Seq<u8>, post: Seq<u8>)
    requires
        well_dotted(s, 0),
    ensures
        labels(wire_name(s, Seq::empty()), 0, Seq::empty()) == Some(
            (s, wire_name(s, Seq::empty()).len() as int),
        ),
        labels(pre + wire_name(s, Seq::empty()) + post, pre.len() as int, Seq::empty()) == Some(
            (s, pre.len() + wire_name(s, Seq::empty()).len() as int),
        ),
{
    let none = Seq::<u8>::empty();
    lemma_name_reads_back(none, s, none, none, none);
    lemma_name_reads_back(pre, s, none, none, post);
    assert(none + s =~= s);
    assert(none + wire_name(s, none) + none =~= wire_name(s, none));
}

proof fn lemma_name_length(s: Seq<u8>, label: Seq<u8>)
    ensures
        wire_name(s, label).len() == label.len() + s.len() + 2,
    decreases s.len(),
{
    if s.len() > 0 {
        if s[0] == 46 {
            lemma_name_length(s.skip(1), Seq::empty());
        } else {
            lemma_name_length(s.skip(1), label.push(s[0]));
        }
    }
}

proof fn lemma_label_grows(l: Seq<u8>, t: Seq<u8>, acc: Seq<u8>)
    requires
        forall|i: int| 0 <= i < l.len() ==> l[i] != 46,
    ensures
        wire_name(l + t, acc) == wire_name(t, acc + l),
    decreases l.len(),
{
    if l.len() == 0 {
        assert(l + t =~= t);
        assert(acc + l =~= acc);
    } else {
        assert((l + t).skip(1) =~= l.skip(1) + t);
        lemma_label_grows(l.skip(1), t, acc.push(l[0]));
        assert(acc.push(l[0]) + l.skip(1) =~= acc + l);
    }
}

/// A name is written label by label: the length of a label, then its bytes, and behind the last one a
/// zero. It takes two bytes more than its dotted form.
pub proof fn law_names_are_written_by_labels(l: Seq<u8>, rest: Seq<u8>)
    requires
        forall|i: int| 0 <= i < l.len() ==> l[i] != 46,
    ensures
        wire_name(l, Seq::empty()).len() == l.len() + 2,
        l.len() <= 255 ==> wire_name(l, Seq::empty())[0] == l.len(),
        wire_name(l, Seq::empty()) == seq![l.len() as u8] + l + seq![0u8],
        wire_name(l + seq![46u8] + rest, Seq::empty()) == seq![l.len() as u8] + l + wire_name(
            rest,
            Seq::empty(),
        ),
        wire_name(rest, Seq::empty()).len() == rest.len() + 2,
{
    let none = Seq::<u8>::empty();
    lemma_name_length(rest, none);
    lemma_label_grows(l, none, none);
    assert(l + none =~= l);
    assert(none + l =~= l);
    let t = seq![46u8] + rest;
    lemma_label_grows(l, t, none);
    assert(l + seq![46u8] + rest =~= l + t);
    assert(t.skip(1) =~= rest);
}

/// How labels are read: a zero ends the name; a length of 64 or more, or a label that the message cuts
/// short, makes it unreadable; any other label is added to the name behind a dot.
pub proof fn law_labels_are_read_in_turn(b: Seq<u8>, at: int, name: Seq<u8>)
    requires
        0 <= at,
    ensures
        at >= b.len() ==> labels(b, at, name) is None,
        at < b.len() && b[at] == 0 ==> labels(b, at, name) == Some((name, at + 1)),
        at < b.len() && b[at] >= 64 ==> labels(b, at, name) is None,
        at < b.len() && at + b[at] >= b.len() && b[at] > 0 ==> labels(b, at, name) is None,
        at < b.len() && 0 < b[at] < 64 && at + b[at] < b.len() ==> labels(b, at, name) == labels(
            b,
            at + 1 + b[at],
            if name.len() == 0 {
                b.subrange(at + 1, at + 1 + b[at])
            } else {
                name + seq![46u8] + b.subrange(at + 1, at + 1 + b[at])
            },
        ),
{
    if at < b.len() && 0 < b[at] < 64 && at + b[at] < b.len() {
        lemma_step(b, at, name, b.subrange(at + 1, at + 1 + b[at]));
    }
}

/// A query is read as it was written: its number, whether it desires recursion, its name and its type.
/// Any message of fewer than twelve bytes, that is marked as an answer or that counts no question holds
/// no query.
pub proof fn law_query_is_read_as_written(header: Seq<u8>, s: Seq<u8>, qtype: u16, class: u16, post: Seq<u8>)
    requires
        header.len() == 12,
        well_dotted(s, 0),
    ensures
        ({
            let b = header + wire_name(s, Seq::empty()) + two(qtype) + two(class) + post;
            if header[2] < 128 && 256 * header[4] + header[5] > 0 {
                query_of(b) matches Some(q) && {
                    &&& q.id == 256 * header[0] + header[1]
                    &&& q.recursive <==> header[2] % 2 == 1
                    &&& q.name == s
                    &&& q.qtype == qtype
                }
            } else {
                query_of(b) is None
            }
        }),
{
    let none = Seq::<u8>::empty();
    let tail = two(qtype) + two(class) + post;
    let b = header + wire_name(s, none) + two(qtype) + two(class) + post;
    assert(b =~= header + wire_name(s, none) + tail);
    law_written_name_is_read_back(header, s, tail);
    let end = header.len() + wire_name(s, none).len() as int;
    assert(b[end] == two(qtype)[0] && b[end + 1] == two(qtype)[1]);
    assert(b[0] == header[0] && b[1] == header[1] && b[2] == header[2]);
    assert(b[4] == header[4] && b[5] == header[5]);
}

/// What holds no query: a message of fewer than twelve bytes, one that is marked as an answer, one that
/// counts no question, one whose name cannot be read, and one that ends before the type and the class.
pub proof fn law_what_holds_no_query(b: Seq<u8>)
    ensures
        b.len() < 12 ==> query_of(b) is None,
        b.len() >= 12 && (b[2] >= 128 || (b[4] == 0 && b[5] == 0)) ==> query_of(b) is None,
        b.len() >= 12 && labels(b, 12, Seq::empty()) is None ==> query_of(b) is None,
        b.len() >= 12 && b[2] < 128 && !(b[4] == 0 && b[5] == 0) ==> (labels(b, 12, Seq::empty()) matches Some(
            (name, end),
        ) ==> (query_of(b) is Some <==> end + 4 <= b.len())),
{
}

/// The text of a name is what stands before its first zero.
pub proof fn law_text_of_a_name(p: Seq<u8>, rest: Seq<u8>, id: u16, recursive: bool, qtype: u16)
    requires
        forall|i: int| 0 <= i < p.len() ==> p[i] != 0,
    ensures
        text_len(p) == p.len(),
        text_len(p + seq![0u8] + rest) == p.len(),
        raw_name(QuerySpec { id, recursive, name: p, qtype }) == p,
        raw_name(QuerySpec { id, recursive, name: p + seq![0u8] + rest, qtype }) == p,
{
    lemma_text_len(p, rest);
    assert(p.take(p.len() as int) =~= p);
    assert((p + seq![0u8] + rest).take(p.len() as int) =~= p);
}

proof fn lemma_text_len(p: Seq<u8>, rest: Seq<u8>)
    requires
        forall|i: int| 0 <= i < p.len() ==> p[i] != 0,
    ensures
        text_len(p) == p.len(),
        text_len(p + seq![0u8] + rest) == p.len(),
    decreases p.len(),
{
    if p.len() > 0 {
        lemma_text_len(p.skip(1), rest);
        assert((p + seq![0u8] + rest).skip(1) =~= p.skip(1) + seq![0u8] + rest);
    }
}

/// A question takes the bytes of its name as it is written and four more; without a name it takes five.
pub proof fn law_length_of_a_question(s: Seq<u8>)
    ensures
        s.len() > 0 ==> question_len(s.len() as int) == wire_name(s, Seq::empty()).len() + 4,
        question_len(0) == 5,
        forall|b: Seq<u8>, n: int| #[trigger]
            crate::dns_server::holds_question(b, n) <==> 0 <= n && 12 + question_len(n) <= b.len(),
{
    lemma_name_length(s, Seq::empty());
}

/// A record refers to the question's name, gives its type, the class of the internet, its time to live
/// and the length of its data, and then the data.
pub proof fn law_record_byte_by_byte(a: AnswerSpec, addr: u32)
    ensures
        ({
            let r = record(a, addr);
            &&& r.len() == 12 + rdata(a, addr).len()
            &&& r[0] == 0xc0 && r[1] == 0x0c
            &&& 256 * r[2] + r[3] == a.atype as u16
            &&& 0 <= a.atype < 0x1_0000 ==> 256 * r[2] + r[3] == a.atype
            &&& r[4] == 0 && r[5] == 1
            &&& 0x100_0000 * r[6] + 0x1_0000 * r[7] + 0x100 * r[8] + r[9] == a.ttl as u32
            &&& 0 <= a.ttl < 0x1_0000_0000 ==> 0x100_0000 * r[6] + 0x1_0000 * r[7] + 0x100 * r[8] + r[9]
                == a.ttl
            &&& 256 * r[10] + r[11] == (r.len() - 12) as u16
            &&& rdata(a, addr).len() < 0x1_0000 ==> 256 * r[10] + r[11] == r.len() - 12
            &&& r.skip(12) == rdata(a, addr)
        }),
{
    let r = record(a, addr);
    assert(r.skip(12) =~= rdata(a, addr));
}

/// The data of a record. That of an address record is the address in four bytes; that of a text record
/// the length of the text and the text; that of a mail exchanger its preference and its name; that of a
/// service location its priority, its weight, its port and its name. A record of any other type has none.
pub proof fn law_data_of_a_record(a: AnswerSpec, addr: u32)
    ensures
        ({
            let d = rdata(a, addr);
            let text = encode_utf8(a.data);
            &&& a.atype == 1 ==> d.len() == 4 && 0x100_0000 * d[0] + 0x1_0000 * d[1] + 0x100 * d[2] + d[3]
                == addr
            &&& a.atype == 16 ==> d.len() == text.len() + 1 && d[0] == text.len() as u8 && (text.len()
                < 256 ==> d[0] == text.len()) && d.skip(1) == text
            &&& a.atype == 15 ==> {
                &&& 256 * d[0] + d[1] == a.priority as u16
                &&& 0 <= a.priority < 0x1_0000 ==> 256 * d[0] + d[1] == a.priority
                &&& d.skip(2) == wire_name(text, Seq::empty())
            }
            &&& a.atype == 33 ==> {
                &&& 256 * d[0] + d[1] == a.priority as u16
                &&& 256 * d[2] + d[3] == a.weight as u16
                &&& 256 * d[4] + d[5] == a.port as u16
                &&& 0 <= a.priority < 0x1_0000 ==> 256 * d[0] + d[1] == a.priority
                &&& 0 <= a.weight < 0x1_0000 ==> 256 * d[2] + d[3] == a.weight
                &&& 0 <= a.port < 0x1_0000 ==> 256 * d[4] + d[5] == a.port
                &&& d.skip(6) == wire_name(text, Seq::empty())
            }
            &&& a.atype != 1 && a.atype != 15 && a.atype != 16 && a.atype != 33 ==> d.len() == 0
        }),
{
    let d = rdata(a, addr);
    let text = encode_utf8(a.data);
    if a.atype == 16 {
        assert(d.skip(1) =~= text);
    }
    if a.atype == 15 {
        assert(d.skip(2) =~= wire_name(text, Seq::empty()));
    }
    if a.atype == 33 {
        assert(d.skip(6) =~= wire_name(text, Seq::empty()));
    }
}

/// The name that a mail exchanger or a service location gives can be read from its record.
pub proof fn law_exchanger_is_read_from_its_record(a: AnswerSpec, addr: u32)
    requires
        a.atype == 15 || a.atype == 33,
        well_dotted(encode_utf8(a.data), 0),
    ensures
        labels(record(a, addr), if a.atype == 15 {
            14int
        } else {
            18int
        }, Seq::empty()) == Some((encode_utf8(a.data), record(a, addr).len() as int)),
{
    let text = encode_utf8(a.data);
    let r = record(a, addr);
    let none = Seq::<u8>::empty();
    let at = if a.atype == 15 {
        14int
    } else {
        18int
    };
    law_data_of_a_record(a, addr);
    law_record_byte_by_byte(a, addr);
    let pre = r.take(at);
    assert(r.skip(12).skip(at - 12) =~= r.skip(at));
    assert(r =~= pre + wire_name(text, none) + none);
    law_written_name_is_read_back(pre, text, none);
}

/// Records are written one after the other.
pub proof fn law_records_in_order(a: Seq<AnswerSpec>, x: AnswerSpec, b: Seq<AnswerSpec>, addr: u32)
    ensures
        records(a + b, addr) == records(a, addr) + records(b, addr),
        records(seq![x], addr) == record(x, addr),
        records(Seq::<AnswerSpec>::empty(), addr).len() == 0,
    decreases b.len(),
{
    assert(seq![x].drop_last() =~= Seq::<AnswerSpec>::empty());
    assert(records(seq![x].drop_last(), addr) =~= Seq::<u8>::empty());
    assert(records(seq![x], addr) =~= record(x, addr));
    if b.len() == 0 {
        assert(a + b =~= a);
        assert(records(b, addr) =~= Seq::<u8>::empty());
        assert(records(a, addr) + records(b, addr) =~= records(a, addr));
    } else {
        let rest = b.drop_last();
        law_records_in_order(a, x, rest, addr);
        assert((a + b).drop_last() =~= a + rest);
        assert((a + b).last() == b.last());
        assert(records(a + rest, addr) + record(b.last(), addr) =~= records(a, addr) + (records(
            rest,
            addr,
        ) + record(b.last(), addr)));
    }
}

/// An answer byte by byte: the number, the flags and the counts of the query, with the mark of an answer,
/// the status and whether recursion is available; the count of the records where there is a list of them
/// and one further record; the question as it came; the records; and at the end the option record, which
/// offers 512 bytes.
pub proof fn law_answer_byte_by_byte(
    b: Seq<u8>,
    name_strlen: int,
    status: u8,
    answers: Option<Seq<AnswerSpec>>,
    addr: u32,
    upstream: bool,
)
    requires
        crate::dns_server::holds_question(b, name_strlen),
        status < 16,
    ensures
        ({
            let r = answer(b, name_strlen, status, answers, addr, upstream);
            let question = if name_strlen == 0 {
                5int
            } else {
                name_strlen + 6
            };
            let body = match answers {
                Some(s) => records(s, addr),
                None => Seq::<u8>::empty(),
            };
            &&& r.len() == 12 + question + body.len() + 11
            &&& r[0] == b[0] && r[1] == b[1]
            &&& r[2] >= 128 && r[2] % 128 == b[2] % 128
            &&& r[3] % 16 == status && r[3] / 16 % 8 == b[3] / 16 % 8 && (r[3] >= 128 <==> upstream)
            &&& r[4] == b[4] && r[5] == b[5]
            &&& answers is None ==> r[6] == b[6] && r[7] == b[7]
            &&& answers matches Some(s) ==> 256 * r[6] + r[7] == s.len() as u16 && (s.len() < 0x1_0000
                ==> 256 * r[6] + r[7] == s.len())
            &&& r[8] == b[8] && r[9] == b[9]
            &&& r[10] == 0 && r[11] == 1
            &&& r.subrange(12, 12 + question) == b.subrange(12, 12 + question)
            &&& r.subrange(12 + question, 12 + question + body.len()) == body
            &&& r.skip(12 + question + body.len()) == seq![
                0u8,
                0u8,
                41u8,
                2u8,
                0u8,
                0u8,
                0u8,
                0u8,
                0u8,
                0u8,
                0u8,
            ]
        }),
{
    let r = answer(b, name_strlen, status, answers, addr, upstream);
    let question = question_len(name_strlen);
    let body = match answers {
        Some(s) => records(s, addr),
        None => Seq::<u8>::empty(),
    };
    assert(r.subrange(12, 12 + question) =~= b.subrange(12, 12 + question));
    assert(r.subrange(12 + question, 12 + question + body.len()) =~= body);
    assert(r.skip(12 + question + body.len()) =~= opt_record());
}

/// What is done with a query that the registry does not know: where it desires recursion and there is an
/// upstream server it goes there, else it is refused at once. A refusal has the status 5 and no records.
pub open spec fn unknown_to_us(b: Seq<u8>, q: QuerySpec, upstream: bool, done: ActionSpec) -> bool {
    let refusal = answer(b, text_len(q.name), 5, None, 0, upstream);
    if q.recursive && upstream {
        done == (ActionSpec::ForwardUpstream { on_send_failure: refusal })
    } else {
        done == ActionSpec::Respond(refusal)
    }
}

/// A question for an address of a name that the registry knows is answered with status 0: one for an IPv4
/// address with one record, which a client may keep for a minute, one for an IPv6 address with none. The
/// registry is left as the lookup leaves it. Where it does not know the name, or the name is no text, the
/// query goes upstream or is refused.
pub proof fn law_address_queries(dns: DnsState, b: Seq<u8>, upstream: bool, proxy: bool)
    requires
        query_of(b) matches Some(q) && (q.qtype == 1 || q.qtype == 28),
    ensures
        ({
            let q = query_of(b)->0;
            let name = decode_utf8(raw_name(q));
            let (after, done) = served(dns, b, upstream, proxy);
            if !valid_utf8(raw_name(q)) {
                after == dns && unknown_to_us(b, q, upstream, done)
            } else {
                &&& after == dns.lookup(name).0
                &&& dns.lookup(name).1 is None ==> unknown_to_us(b, q, upstream, done)
                &&& dns.lookup(name).1 matches Some(m) ==> (q.qtype == 28 ==> done
                    == ActionSpec::Respond(answer(b, text_len(q.name), 0, None, m.ip, upstream))) && (
                q.qtype == 1 ==> exists|a: AnswerSpec|
                    {
                        &&& a.atype == 1
                        &&& a.ttl == 60
                        &&& done == ActionSpec::Respond(
                            #[trigger] answer(b, text_len(q.name), 0, Some(seq![a]), m.ip, upstream),
                        )
                    })
            }
        }),
{
    let q = query_of(b)->0;
    let name = decode_utf8(raw_name(q));
    if valid_utf8(raw_name(q)) {
        if let Some(m) = dns.lookup(name).1 {
            let a = crate::dns_server::local_answer();
            if q.qtype == 1 {
                assert(served(dns, b, upstream, proxy).1 == ActionSpec::Respond(
                    answer(b, text_len(q.name), 0, Some(seq![a]), m.ip, upstream),
                ));
            }
        }
    }
}

/// A question for another kind of record under a registered domain. One for a mail exchanger, a text or a
/// service location is handed to the endpoint of the domain, with its number and the question; without a
/// way to ask, it is answered with status 2. Any other is answered with status 4, while the connection of
/// the domain is made. A name under no registered domain, or that is no text, goes upstream or is refused.
/// The registry stays as it is.
pub proof fn law_record_queries(dns: DnsState, b: Seq<u8>, upstream: bool, proxy: bool)
    requires
        query_of(b) matches Some(q) && q.qtype != 1 && q.qtype != 28,
    ensures
        ({
            let q = query_of(b)->0;
            let name = decode_utf8(raw_name(q));
            let (after, done) = served(dns, b, upstream, proxy);
            let served_by_endpoint = q.qtype == 15 || q.qtype == 16 || q.qtype == 33;
            &&& after == dns
            &&& !valid_utf8(raw_name(q)) || dns.matched_domain(name) is None ==> unknown_to_us(
                b,
                q,
                upstream,
                done,
            )
            &&& valid_utf8(raw_name(q)) ==> (dns.matched_domain(name) matches Some(domain) ==> {
                &&& served_by_endpoint && proxy ==> (done matches ActionSpec::ForwardProxy(asked)
                    && asked.domain == domain && asked.id == q.id && asked.name_strlen == text_len(q.name)
                    && asked.json == crate::json::dns_message(q.id, q.recursive, raw_name(q), q.qtype))
                &&& served_by_endpoint && !proxy ==> done == ActionSpec::Respond(
                    answer(b, text_len(q.name), 2, None, 0, upstream),
                )
                &&& !served_by_endpoint && proxy ==> (done matches ActionSpec::RespondAndConnectProxy {
                    response,
                    domain: d,
                } && d == domain && response == answer(b, text_len(q.name), 4, None, 0, upstream))
                &&& !served_by_endpoint && !proxy ==> done == ActionSpec::Respond(
                    answer(b, text_len(q.name), 4, None, 0, upstream),
                )
            })
        }),
        forall|t: u16| #[trigger] proxied(t) <==> t == 15 || t == 16 || t == 33,
{
}

/// A message that holds no query is dropped and leaves the registry as it is.
pub proof fn law_no_query_no_change(dns: DnsState, b: Seq<u8>, upstream: bool, proxy: bool)
    requires
        query_of(b) is None,
    ensures
        served(dns, b, upstream, proxy).0 == dns,
        served(dns, b, upstream, proxy).1 is Drop,
{
}

/// What is answered, asked and done is told by its fields as they stand.
pub proof fn law_answers_are_read_as_they_stand(
    a: &RespAnswer,
    list: Seq<RespAnswer>,
    q: &ProxyQuery,
    done: &DnsAction,
    i: int,
)
    ensures
        a@.atype == a.atype,
        a@.ttl == a.ttl,
        a@.priority == a.priority,
        a@.weight == a.weight,
        a@.port == a.port,
        a@.data == a.data@,
        answer_specs(list).len() == list.len(),
        0 <= i < list.len() ==> answer_specs(list)[i] == list[i]@,
        forall|s: Option<Vec<RespAnswer>>| #[trigger]
            opt_answers(s) == (match s {
                Some(v) => Some(answer_specs(v@)),
                None => None,
            }),
        q@.domain == q.domain@,
        q@.id == q.id,
        q@.name_strlen == q.name_strlen,
        q@.json == q.json@,
        match *done {
            DnsAction::Respond(r) => done@ == ActionSpec::Respond(r@),
            DnsAction::Drop => done@ == ActionSpec::Drop,
            DnsAction::ForwardUpstream { on_send_failure } => done@ == (ActionSpec::ForwardUpstream {
                on_send_failure: on_send_failure@,
            }),
            DnsAction::ForwardProxy(p) => done@ == ActionSpec::ForwardProxy(p@),
            DnsAction::RespondAndConnectProxy { response, domain } => done@ == (
            ActionSpec::RespondAndConnectProxy { response: response@, domain: domain@ }),
        },
{
}

} // verus!
