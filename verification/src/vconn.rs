//! A virtual connection: the datagrams of one UDP flow on their way to the overlay and back.
//!
//! Two pumps run on it. The writer takes the datagrams that wait, in order, and writes each to the
//! overlay as one whole frame. The reader takes what the overlay sends and hands it back in pieces.
//! When either ends, the connection is marked closed before anything else: from then on it gets no
//! more datagrams, so that those that wait are all that the writer still has to write. A kill cuts
//! everything short: what waits is discarded.

use vstd::prelude::*;
use vstd::slice::slice_subrange;

use crate::proxy::PROXY_BUF;

verus! {

/// How many datagrams may wait; more are dropped.
pub const VCONN_QUEUE_DEPTH: usize = 16;

/// A virtual connection: the datagrams that wait, when something last passed on it, whether it is
/// closed, whether it was killed, whether its flow has been given up, and which pumps have ended.
#[derive(Debug, PartialEq, Eq)]
pub struct Vconn {
    queue: Vec<Vec<u8>>,
    last_use: u64,
    closed: bool,
    killed: bool,
    evicted: bool,
    writer_ended: bool,
    reader_ended: bool,
}

/// A virtual connection.
pub struct VconnState {
    pub queue: Seq<Seq<u8>>,
    pub last_use: u64,
    pub closed: bool,
    pub killed: bool,
    pub evicted: bool,
    pub writer_ended: bool,
    pub reader_ended: bool,
}

/// The datagrams of a list.
pub open spec fn datagrams(v: Seq<Vec<u8>>) -> Seq<Seq<u8>> {
    v.map_values(|d: Vec<u8>| d@)
}

impl View for Vconn {
    type V = VconnState;

    closed spec fn view(&self) -> VconnState {
        VconnState {
            queue: datagrams(self.queue@),
            last_use: self.last_use,
            closed: self.closed,
            killed: self.killed,
            evicted: self.evicted,
            writer_ended: self.writer_ended,
            reader_ended: self.reader_ended,
        }
    }
}

/// What the writer does next.
#[derive(Debug, PartialEq, Eq)]
pub enum WriterStep {
    /// Write this datagram.
    Write(Vec<u8>),
    /// Wait for a datagram, for the close or for the kill.
    Wait,
    /// End.
    Stop,
}

/// What the writer does next.
pub enum WriterStepSpec {
    Write(Seq<u8>),
    Wait,
    Stop,
}

impl View for WriterStep {
    type V = WriterStepSpec;

    open spec fn view(&self) -> WriterStepSpec {
        match self {
            WriterStep::Write(d) => WriterStepSpec::Write(d@),
            WriterStep::Wait => WriterStepSpec::Wait,
            WriterStep::Stop => WriterStepSpec::Stop,
        }
    }
}

/// What a read of the overlay gave.
#[derive(Debug, PartialEq, Eq)]
pub enum OverlayRead {
    Chunk(Vec<u8>),
    Eof,
    Failed,
}

/// What the reader does next.
#[derive(Debug, PartialEq, Eq)]
pub enum ReaderStep {
    /// Hand these pieces back, one datagram each, in order.
    Send(Vec<Vec<u8>>),
    /// End.
    Stop,
}

/// The two pumps.
#[derive(Clone, Copy, Debug, PartialEq, Eq, Structural)]
pub enum Pump {
    Writer,
    Reader,
}

/// A chunk in pieces of `max` bytes, the last of what is left.
pub open spec fn pieces(chunk: Seq<u8>, max: int) -> Seq<Seq<u8>>
    decreases chunk.len(),
{
    if chunk.len() == 0 || max <= 0 {
        Seq::empty()
    } else if chunk.len() <= max {
        seq![chunk]
    } else {
        seq![chunk.take(max)] + pieces(chunk.skip(max), max)
    }
}

impl VconnState {
    /// No more wait than may.
    pub open spec fn wf(self) -> bool {
        self.queue.len() <= VCONN_QUEUE_DEPTH
    }

    /// The connection once a datagram was handed to it: dropped, where the connection is closed or as
    /// many wait as may.
    pub open spec fn delivered(self, d: Seq<u8>) -> VconnState {
        if self.closed || self.queue.len() >= VCONN_QUEUE_DEPTH {
            self
        } else {
            VconnState { queue: self.queue.push(d), ..self }
        }
    }

    /// The connection after the writer's next step, and the step: after a kill, or once a write has failed,
    /// it ends at once; else it writes the first datagram that waits; where none does, it ends if none can come any more.
    pub open spec fn writer_next(self, now: u64) -> (VconnState, WriterStepSpec) {
        if self.killed || self.writer_ended {
            (self, WriterStepSpec::Stop)
        } else if self.queue.len() > 0 {
            (
                VconnState { queue: self.queue.skip(1), last_use: now, ..self },
                WriterStepSpec::Write(self.queue[0]),
            )
        } else if self.closed || self.evicted {
            (self, WriterStepSpec::Stop)
        } else {
            (self, WriterStepSpec::Wait)
        }
    }

    /// Whether the reader may go on.
    pub open spec fn reading(self) -> bool {
        !self.killed && !self.closed
    }

    /// The connection once a pump has ended.
    pub open spec fn pump_ended(self, pump: Pump) -> VconnState {
        match pump {
            Pump::Writer => VconnState { closed: true, writer_ended: true, ..self },
            Pump::Reader => VconnState { closed: true, reader_ended: true, ..self },
        }
    }

    /// The connection once its dial has failed: no pump runs.
    pub open spec fn dial_failed(self) -> VconnState {
        VconnState { closed: true, writer_ended: true, reader_ended: true, ..self }
    }

    /// Whether both pumps have ended.
    pub open spec fn over(self) -> bool {
        self.writer_ended && self.reader_ended
    }

    /// Whether the connection is to be given up at `now`: it is closed, or nothing passed for longer than
    /// `idle`.
    pub open spec fn expired(self, idle: u64, now: u64) -> bool {
        self.closed || now - self.last_use > idle
    }

    /// What the writer still writes if nothing fails and no datagram comes.
    pub open spec fn to_write(self, now: u64) -> Seq<Seq<u8>>
        decreases self.queue.len(),
    {
        match self.writer_next(now) {
            (after, WriterStepSpec::Write(d)) => if after.queue.len() < self.queue.len() {
                seq![d] + after.to_write(now)
            } else {
                seq![d]
            },
            _ => Seq::empty(),
        }
    }
}

impl Vconn {
    /// What holds of every virtual connection.
    pub closed spec fn wf(&self) -> bool {
        self@.wf()
    }

    pub proof fn lemma_wf(&self)
        requires
            self.wf(),
        ensures
            self@.wf(),
    {
    }

    /// A virtual connection on which one datagram waits.
    pub fn new(first: Vec<u8>, now: u64) -> (r: Self)
        ensures
            r.wf(),
            r@ == (VconnState {
                queue: seq![first@],
                last_use: now,
                closed: false,
                killed: false,
                evicted: false,
                writer_ended: false,
                reader_ended: false,
            }),
    {
        let mut queue: Vec<Vec<u8>> = Vec::new();
        queue.push(first);
        let r = Vconn {
            queue,
            last_use: now,
            closed: false,
            killed: false,
            evicted: false,
            writer_ended: false,
            reader_ended: false,
        };
        assert(r@.queue =~= seq![first@]);
        r
    }

    pub fn is_closed(&self) -> (r: bool)
        ensures
            r == self@.closed,
    {
        self.closed
    }

    /// The number of datagrams that wait.
    pub fn waiting(&self) -> (r: usize)
        ensures
            r == self@.queue.len(),
    {
        self.queue.len()
    }

    /// Has a datagram wait. It is dropped if as many wait as may, or if the connection is closed.
    pub fn deliver(&mut self, datagram: Vec<u8>)
        requires
            old(self).wf(),
        ensures
            final(self).wf(),
            final(self)@ == old(self)@.delivered(datagram@),
    {
        if !self.closed && self.queue.len() < VCONN_QUEUE_DEPTH {
            self.queue.push(datagram);
        }
        assert(self@.queue =~= old(self)@.delivered(datagram@).queue);
    }

    /// Records that something passed.
    pub fn bump(&mut self, now: u64)
        requires
            old(self).wf(),
        ensures
            final(self).wf(),
            final(self)@ == (VconnState { last_use: now, ..old(self)@ }),
    {
        self.last_use = now;
    }

    /// Marks the connection closed: the pumps are to end, and no datagram is taken any more.
    pub fn mark_closed(&mut self)
        requires
            old(self).wf(),
        ensures
            final(self).wf(),
            final(self)@ == (VconnState { closed: true, ..old(self)@ }),
    {
        self.closed = true;
    }

    /// Records that the dial has failed.
    pub fn fail_dial(&mut self)
        requires
            old(self).wf(),
        ensures
            final(self).wf(),
            final(self)@ == old(self)@.dial_failed(),
    {
        self.mark_closed();
        self.writer_ended = true;
        self.reader_ended = true;
    }

    /// Kills the connection.
    pub fn kill(&mut self)
        requires
            old(self).wf(),
        ensures
            final(self).wf(),
            final(self)@ == (VconnState { killed: true, ..old(self)@ }),
    {
        self.killed = true;
    }

    /// Gives the connection's flow up: no datagram comes any more.
    pub fn evict(&mut self)
        requires
            old(self).wf(),
        ensures
            final(self).wf(),
            final(self)@ == (VconnState { evicted: true, ..old(self)@ }),
    {
        self.evicted = true;
    }

    /// Whether the connection was given up and both its pumps have ended.
    pub fn is_spent(&self) -> (r: bool)
        ensures
            r == (self@.evicted && self@.over()),
    {
        self.evicted && self.writer_ended && self.reader_ended
    }

    /// Whether the connection is to be given up.
    pub fn is_expired(&self, idle: u64, now: u64) -> (r: bool)
        ensures
            r == self@.expired(idle, now),
    {
        self.closed || (now > self.last_use && now - self.last_use > idle)
    }

    /// The writer's next step.
    pub fn writer_step(&mut self, now: u64) -> (r: WriterStep)
        requires
            old(self).wf(),
        ensures
            final(self).wf(),
            final(self)@ == old(self)@.writer_next(now).0,
            r@ == old(self)@.writer_next(now).1,
    {
        if self.killed || self.writer_ended {
            return WriterStep::Stop;
        }
        if self.queue.len() > 0 {
            let d: Vec<u8> = self.queue.remove(0);
            self.bump(now);
            assert(self@.queue =~= old(self)@.queue.skip(1));
            return WriterStep::Write(d);
        }
        if self.closed || self.evicted {
            WriterStep::Stop
        } else {
            WriterStep::Wait
        }
    }

    /// Records what came of a write to the overlay. A write that failed ends the writer; says whether it
    /// goes on.
    pub fn wrote(&mut self, written: bool) -> (go_on: bool)
        requires
            old(self).wf(),
        ensures
            final(self).wf(),
            go_on == written,
            written ==> final(self)@ == old(self)@,
            !written ==> final(self)@ == old(self)@.pump_ended(Pump::Writer),
    {
        if !written {
            self.mark_closed();
            self.writer_ended = true;
        }
        written
    }

    /// Whether both pumps have ended, and so the overlay connection is to be closed.
    pub fn is_over(&self) -> (r: bool)
        ensures
            r == self@.over(),
    {
        self.writer_ended && self.reader_ended
    }

    /// Whether the reader may wait for the overlay, or hand its next piece back.
    pub fn reader_goes_on(&self) -> (r: bool)
        ensures
            r == self@.reading(),
    {
        !self.killed && !self.closed
    }

    /// The reader's step after a read. The close and the kill are heeded before the read is.
    pub fn reader_step(&mut self, read: OverlayRead, now: u64) -> (r: ReaderStep)
        requires
            old(self).wf(),
        ensures
            final(self).wf(),
            match read {
                OverlayRead::Chunk(chunk) if old(self)@.reading() => {
                    &&& final(self)@ == (VconnState { last_use: now, ..old(self)@ })
                    &&& r matches ReaderStep::Send(out) && datagrams(out@) == pieces(
                        chunk@,
                        PROXY_BUF as int,
                    )
                },
                _ => r is Stop && final(self)@ == old(self)@,
            },
    {
        if self.killed || self.closed {
            return ReaderStep::Stop;
        }
        match read {
            OverlayRead::Chunk(chunk) => {
                self.bump(now);
                ReaderStep::Send(udp_pieces(chunk.as_slice(), PROXY_BUF))
            },
            _ => ReaderStep::Stop,
        }
    }

    /// Records that a pump has ended, which closes the connection. Says whether the overlay connection is
    /// to be closed now: once, when both have ended.
    pub fn end_pump(&mut self, pump: Pump) -> (r: bool)
        requires
            old(self).wf(),
        ensures
            final(self).wf(),
            final(self)@ == old(self)@.pump_ended(pump),
            r == (!old(self)@.over() && final(self)@.over()),
    {
        let before: bool = self.writer_ended && self.reader_ended;
        self.mark_closed();
        match pump {
            Pump::Writer => {
                self.writer_ended = true;
            },
            Pump::Reader => {
                self.reader_ended = true;
            },
        }
        !before && self.writer_ended && self.reader_ended
    }
}

/// Cuts a chunk into pieces of at most `max` bytes.
pub fn udp_pieces(chunk: &[u8], max: usize) -> (r: Vec<Vec<u8>>)
    requires
        max > 0,
    ensures
        datagrams(r@) == pieces(chunk@, max as int),
{
    let mut out: Vec<Vec<u8>> = Vec::new();
    let size: usize = chunk.len();
    let mut at: usize = 0;
    let ghost all = pieces(chunk@, max as int);
    assert(chunk@.skip(0) =~= chunk@);
    assert(datagrams(out@) + all =~= all);
    while at < size
        invariant
            at <= size,
            size == chunk@.len(),
            max > 0,
            all == pieces(chunk@, max as int),
            all == datagrams(out@) + pieces(chunk@.skip(at as int), max as int),
        decreases size - at,
    {
        let end: usize = if size - at <= max {
            size
        } else {
            at + max
        };
        let piece: Vec<u8> = copy_bytes(slice_subrange(chunk, at, end));
        let ghost rest = chunk@.skip(at as int);
        let ghost before = out@;
        out.push(piece);
        proof {
            assert(datagrams(out@) =~= datagrams(before).push(piece@));
            if rest.len() <= max {
                assert(piece@ =~= rest);
                assert(chunk@.skip(end as int).len() == 0);
                assert(pieces(chunk@.skip(end as int), max as int) =~= Seq::<Seq<u8>>::empty());
            } else {
                assert(piece@ =~= rest.take(max as int));
                assert(rest.skip(max as int) =~= chunk@.skip(end as int));
            }
            assert(all =~= datagrams(out@) + pieces(chunk@.skip(end as int), max as int));
        }
        at = end;
    }
    assert(pieces(chunk@.skip(at as int), max as int) =~= Seq::<Seq<u8>>::empty());
    assert(all =~= datagrams(out@));
    out
}

/// A copy of a list of bytes.
pub fn copy_bytes(bytes: &[u8]) -> (r: Vec<u8>)
    ensures
        r@ == bytes@,
{
    let mut out: Vec<u8> = Vec::new();
    let mut i: usize = 0;
    while i < bytes.len()
        invariant
            i <= bytes@.len(),
            out@ == bytes@.take(i as int),
        decreases bytes@.len() - i,
    {
        out.push(bytes[i]);
        i += 1;
        assert(out@ =~= bytes@.take(i as int));
    }
    assert(bytes@.take(i as int) =~= bytes@);
    out
}

/// The pieces of a chunk, put together, are the chunk; none is empty or larger than allowed.
pub proof fn law_pieces_make_up_the_chunk(chunk: Seq<u8>, max: int)
    requires
        max > 0,
    ensures
        pieces(chunk, max).flatten() == chunk,
        forall|i: int|
            0 <= i < pieces(chunk, max).len() ==> 0 < (#[trigger] pieces(chunk, max)[i]).len() <= max,
    decreases chunk.len(),
{
    let all = pieces(chunk, max);
    if chunk.len() == 0 {
        assert(all.flatten() =~= chunk);
    } else if chunk.len() <= max {
        assert(all.drop_first().flatten() =~= Seq::<u8>::empty());
        assert(all.flatten() =~= chunk);
    } else {
        let rest = pieces(chunk.skip(max), max);
        law_pieces_make_up_the_chunk(chunk.skip(max), max);
        assert(all.drop_first() =~= rest);
        assert(all.flatten() =~= chunk.take(max) + chunk.skip(max));
        assert(all.flatten() =~= chunk);
        assert forall|i: int| 0 <= i < all.len() implies 0 < (#[trigger] all[i]).len() <= max by {
            if i > 0 {
                assert(all[i] == rest[i - 1]);
            }
        }
    }
}

/// A connection that was not killed, and whose writer runs, has everything that waits written, each
/// datagram once and in the order in which it came, also once it is closed.
pub proof fn law_everything_that_waits_is_written(c: VconnState, now: u64)
    requires
        !c.killed,
        !c.writer_ended,
    ensures
        c.to_write(now) == c.queue,
    decreases c.queue.len(),
{
    if c.queue.len() > 0 {
        let after = c.writer_next(now).0;
        law_everything_that_waits_is_written(after, now);
        assert(seq![c.queue[0]] + c.queue.skip(1) =~= c.queue);
    } else {
        assert(c.to_write(now) =~= c.queue);
    }
}

/// A connection that was killed has nothing more written or handed back, whatever waits.
pub proof fn law_kill_cuts_short(c: VconnState, now: u64)
    requires
        c.killed,
    ensures
        c.writer_next(now).1 is Stop,
        c.to_write(now) == Seq::<Seq<u8>>::empty(),
        !c.reading(),
{
}

/// A write that fails is the last one: nothing that waits is written any more, nothing more is taken, and
/// the reader is to end.
pub proof fn law_failed_write_ends_the_writer(c: VconnState, d: Seq<u8>, now: u64)
    ensures
        c.pump_ended(Pump::Writer).to_write(now) == Seq::<Seq<u8>>::empty(),
        c.pump_ended(Pump::Writer).delivered(d) == c.pump_ended(Pump::Writer),
        !c.pump_ended(Pump::Writer).reading(),
{
}

/// From the moment one pump has ended, no datagram is taken any more: what waits then is all that the
/// other still has to write.
pub proof fn law_closed_connection_takes_nothing(c: VconnState, pump: Pump, d: Seq<u8>)
    ensures
        c.pump_ended(pump).delivered(d) == c.pump_ended(pump),
        c.pump_ended(pump).queue == c.queue,
{
}

} // verus!
