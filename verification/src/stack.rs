//! The edges of the user-space network stack: in which order its addresses are read, what is done with
//! the outcome of a read or a write, and how a TCP stream is half-closed.

use vstd::prelude::*;

use crate::addr::SocketAddr;
use crate::text::chars_of;
use crate::udp::ReplyOutcome;

verus! {

/// How many UDP answers may wait to go out.
pub const UDP_REPLY_QUEUE_DEPTH: usize = 1024;

/// The size of the buffer that packets are read in: no IP packet is larger.
pub const DEVICE_READ_BUF: usize = 65535;

/// The addresses of a flow or of a datagram: where it was bound, and where it came from.
#[derive(Clone, Copy, Debug, PartialEq, Eq, Structural)]
pub struct Endpoints {
    pub dst: SocketAddr,
    pub src: SocketAddr,
}

/// The addresses of a packet: the one that it comes from, and the one that it goes to.
#[derive(Clone, Copy, Debug, PartialEq, Eq, Structural)]
pub struct PacketAddrs {
    pub from: SocketAddr,
    pub to: SocketAddr,
}

/// Where what a packet carries was bound, and where it came from.
pub open spec fn seen(p: PacketAddrs) -> Endpoints {
    Endpoints { dst: p.to, src: p.from }
}

/// The addresses of the packet that answers.
pub open spec fn answering(e: Endpoints) -> PacketAddrs {
    PacketAddrs { from: e.dst, to: e.src }
}

/// The addresses of a flow or of a datagram that the stack gives. The stack names the client first, as
/// the local address, and then the destination, as the remote one.
pub fn endpoints(local_src: SocketAddr, remote_dst: SocketAddr) -> (r: Endpoints)
    ensures
        r == seen(PacketAddrs { from: local_src, to: remote_dst }),
{
    Endpoints { dst: remote_dst, src: local_src }
}

/// The addresses of the packet that answers a datagram: it comes from the destination that the client
/// addressed, and goes to the client.
pub fn reply_addrs(e: Endpoints) -> (r: PacketAddrs)
    ensures
        r == answering(e),
{
    PacketAddrs { from: e.dst, to: e.src }
}

/// What a read of the device gave.
#[derive(Clone, Copy, Debug, PartialEq, Eq, Structural)]
pub enum DeviceRead {
    Bytes(usize),
    Failed,
}

/// Whether what was read from the device is handed to the stack. Reading stops at the end of the device,
/// which gives no bytes, and when the device fails.
pub fn ingress_goes_on(read: DeviceRead) -> (r: bool)
    ensures
        r == (read matches DeviceRead::Bytes(n) && n > 0),
{
    match read {
        DeviceRead::Bytes(n) => n > 0,
        DeviceRead::Failed => false,
    }
}

/// Whether a text holds another.
pub open spec fn holds_text(s: Seq<char>, part: Seq<char>) -> bool {
    exists|i: int|
        0 <= i <= s.len() - part.len() && #[trigger] s.subrange(i, i + part.len()) == part
}

/// Whether the part of a text that begins at an index is another text.
fn holds_at(s: &Vec<char>, part: &Vec<char>, at: usize) -> (r: bool)
    requires
        at + part@.len() <= s@.len(),
    ensures
        r == (s@.subrange(at as int, at + part@.len()) == part@),
{
    let mut k: usize = 0;
    let size: usize = s.len();
    let n: usize = part.len();
    while k < n
        invariant
            k <= n,
            n == part@.len(),
            size == s@.len(),
            at + n <= size,
            forall|j: int| 0 <= j < k ==> s@[at + j] == part@[j],
        decreases n - k,
    {
        if s[at + k] != part[k] {
            assert(s@.subrange(at as int, at + part@.len())[k as int] != part@[k as int]);
            return false;
        }
        k += 1;
    }
    assert(s@.subrange(at as int, at + part@.len()) =~= part@);
    true
}

/// Whether a text holds another.
pub fn contains_text(s: &str, part: &str) -> (r: bool)
    ensures
        r == holds_text(s@, part@),
{
    let text = chars_of(s);
    let wanted = chars_of(part);
    let size: usize = text.len();
    let n: usize = wanted.len();
    if size < n {
        return false;
    }
    let last: usize = size - n;
    let mut i: usize = 0;
    while i <= last
        invariant
            i <= last + 1,
            last + n == size,
            size == text@.len(),
            n == wanted@.len(),
            text@ == s@,
            wanted@ == part@,
            forall|j: int| 0 <= j < i ==> #[trigger] s@.subrange(j, j + part@.len()) != part@,
        decreases last + 1 - i,
    {
        if holds_at(&text, &wanted, i) {
            assert(s@.subrange(i as int, i + part@.len()) == part@);
            return true;
        }
        if i == last {
            return false;
        }
        i += 1;
    }
    false
}

/// Whether a failed write of an answer concerns that answer alone, and the others can still go out: its
/// addresses are of different families, or it could not be put in a packet. The stack says the first by
/// the kind of its error, `invalid_data`, and the second only by its message.
pub fn is_per_datagram_encode_error(invalid_data: bool, message: &str) -> (r: bool)
    ensures
        r == (invalid_data || holds_text(message@, "PacketBuilder::write"@)),
{
    invalid_data || contains_text(message, "PacketBuilder::write")
}

/// What came of writing an answer to the stack.
#[derive(Debug, PartialEq, Eq)]
pub enum ReplyWrite {
    Written,
    Failed { invalid_data: bool, message: String },
}

/// Whether answers go on being written. They stop only when the stack takes none any more.
pub fn egress_goes_on(write: &ReplyWrite) -> (r: bool)
    ensures
        r == (match *write {
            ReplyWrite::Written => true,
            ReplyWrite::Failed { invalid_data, message } => invalid_data || holds_text(
                message@,
                "PacketBuilder::write"@,
            ),
        }),
{
    match write {
        ReplyWrite::Written => true,
        ReplyWrite::Failed { invalid_data, message } => is_per_datagram_encode_error(
            *invalid_data,
            message.as_str(),
        ),
    }
}

/// What the sender of an answer is told: whether it waits to go out, or was dropped because too many
/// wait; an error if the stack is gone.
pub fn reply_result(outcome: ReplyOutcome) -> (r: Result<bool, &'static str>)
    ensures
        match outcome {
            ReplyOutcome::Queued => r == Ok::<bool, &'static str>(true),
            ReplyOutcome::Full => r == Ok::<bool, &'static str>(false),
            ReplyOutcome::Closed => r is Err && r->Err_0@
                == "intercept udp: cola de respuestas cerrada (pila desmontada)"@,
        },
{
    match outcome {
        ReplyOutcome::Queued => Ok(true),
        ReplyOutcome::Full => Ok(false),
        ReplyOutcome::Closed => Err(
            "intercept udp: cola de respuestas cerrada (pila desmontada)",
        ),
    }
}

/// How far a half-close of the stack's stream has come: its end is on its way, or the stream is closed,
/// without an error or with one.
#[derive(Clone, Copy, Debug, PartialEq, Eq, Structural)]
pub enum InnerShutdown {
    Pending,
    Done { ok: bool },
}

/// What a half-close comes to. It never waits for the stream to be closed: once its end is on its way, it
/// is done.
pub fn bounded_shutdown(inner: InnerShutdown) -> (ok: bool)
    ensures
        ok == !(inner matches InnerShutdown::Done { ok: false }),
{
    match inner {
        InnerShutdown::Pending => true,
        InnerShutdown::Done { ok } => ok,
    }
}

/// The answer to a datagram comes from where the datagram was bound and goes to where it came from.
pub proof fn law_reply_goes_back(datagram: PacketAddrs)
    ensures
        answering(seen(datagram)).from == datagram.to,
        answering(seen(datagram)).to == datagram.from,
{
}

} // verus!
