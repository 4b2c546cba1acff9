//! How a spliced TCP connection ends.
//!
//! Bytes are pumped in both directions at once. A direction that ends by itself, at the end of its
//! source or on an error, half-closes its destination. A direction that is killed does not: the
//! connection goes straight to its full close. Either way the full close comes once, when both
//! directions have ended.
//!
//! A kill is heeded while a direction waits for its source, and while it writes to the socket. It is
//! never heeded during a write to the overlay: that channel is shared, and a frame that was begun is
//! written whole.

use vstd::prelude::*;

verus! {

/// How a direction ended: by itself, or by a kill.
#[derive(Clone, Copy, Debug, PartialEq, Eq, Structural)]
pub enum PumpEnd {
    Natural,
    Killed,
}

/// What a read of a direction's source gave.
#[derive(Clone, Copy, Debug, PartialEq, Eq, Structural)]
pub enum ReadOutcome {
    Data,
    Eof,
    Failed,
}

/// What a direction does next: write what it has, wait for its source, or stop. `ok` says whether it
/// stops without an error.
#[derive(Clone, Copy, Debug, PartialEq, Eq, Structural)]
pub enum PumpStep {
    Write,
    Read,
    Stop { end: PumpEnd, ok: bool },
}

/// What a read of `n` bytes of a socket says: none is the end.
pub fn socket_read(n: usize) -> (r: ReadOutcome)
    ensures
        r == (if n == 0 {
            ReadOutcome::Eof
        } else {
            ReadOutcome::Data
        }),
{
    if n == 0 {
        ReadOutcome::Eof
    } else {
        ReadOutcome::Data
    }
}

/// The step after a direction waited for its source. `killed` says that the kill came first; it is
/// asked before the source is.
pub fn after_read(killed: bool, read: ReadOutcome) -> (r: PumpStep)
    ensures
        killed ==> r == (PumpStep::Stop { end: PumpEnd::Killed, ok: true }),
        !killed ==> r == (match read {
            ReadOutcome::Data => PumpStep::Write,
            ReadOutcome::Eof => PumpStep::Stop { end: PumpEnd::Natural, ok: true },
            ReadOutcome::Failed => PumpStep::Stop { end: PumpEnd::Natural, ok: false },
        }),
{
    if killed {
        return PumpStep::Stop { end: PumpEnd::Killed, ok: true };
    }
    match read {
        ReadOutcome::Data => PumpStep::Write,
        ReadOutcome::Eof => PumpStep::Stop { end: PumpEnd::Natural, ok: true },
        ReadOutcome::Failed => PumpStep::Stop { end: PumpEnd::Natural, ok: false },
    }
}

/// The step after a write to the overlay, which no kill interrupts.
pub fn after_overlay_write(written: bool) -> (r: PumpStep)
    ensures
        r == (if written {
            PumpStep::Read
        } else {
            PumpStep::Stop { end: PumpEnd::Natural, ok: false }
        }),
{
    if written {
        PumpStep::Read
    } else {
        PumpStep::Stop { end: PumpEnd::Natural, ok: false }
    }
}

/// The step after a write to the socket. `killed` says that the kill came before the write was done.
pub fn after_socket_write(killed: bool, written: bool) -> (r: PumpStep)
    ensures
        r == (if killed {
            PumpStep::Stop { end: PumpEnd::Killed, ok: true }
        } else if written {
            PumpStep::Read
        } else {
            PumpStep::Stop { end: PumpEnd::Natural, ok: false }
        }),
{
    if killed {
        PumpStep::Stop { end: PumpEnd::Killed, ok: true }
    } else if written {
        PumpStep::Read
    } else {
        PumpStep::Stop { end: PumpEnd::Natural, ok: false }
    }
}

/// The two directions of a spliced connection.
#[derive(Clone, Copy, Debug, PartialEq, Eq, Structural)]
pub enum Direction {
    SocketToOverlay,
    OverlayToSocket,
}

/// How a direction ended, and whether without an error.
#[derive(Clone, Copy, Debug, PartialEq, Eq, Structural)]
pub struct Ended {
    pub end: PumpEnd,
    pub ok: bool,
}

/// What is to be done when a direction has ended: half-close its destination, and close the
/// connection.
#[derive(Clone, Copy, Debug, PartialEq, Eq, Structural)]
pub struct Closing {
    pub half_close: bool,
    pub full_close: bool,
}

/// What a spliced connection came to: the direction whose error it reports, if any.
#[derive(Clone, Copy, Debug, PartialEq, Eq, Structural)]
pub enum Verdict {
    Fine,
    Failed(Direction),
}

/// A spliced connection, by how its directions ended.
#[derive(Clone, Copy, Debug, PartialEq, Eq, Structural)]
pub struct Splice {
    pub to_overlay: Option<Ended>,
    pub to_socket: Option<Ended>,
}

impl Splice {
    /// Both directions run.
    pub fn new() -> (r: Self)
        ensures
            r.to_overlay is None,
            r.to_socket is None,
    {
        Splice { to_overlay: None, to_socket: None }
    }

    /// How a direction ended.
    pub open spec fn ended(self, d: Direction) -> Option<Ended> {
        match d {
            Direction::SocketToOverlay => self.to_overlay,
            Direction::OverlayToSocket => self.to_socket,
        }
    }

    /// The other direction.
    pub open spec fn other(d: Direction) -> Direction {
        match d {
            Direction::SocketToOverlay => Direction::OverlayToSocket,
            Direction::OverlayToSocket => Direction::SocketToOverlay,
        }
    }

    /// Whether both directions have ended, and so the connection is closed.
    pub open spec fn done(self) -> bool {
        self.to_overlay is Some && self.to_socket is Some
    }

    /// The connection after a direction ended.
    pub open spec fn finished(self, direction: Direction, ended: Ended) -> Splice {
        match direction {
            Direction::SocketToOverlay => Splice { to_overlay: Some(ended), ..self },
            Direction::OverlayToSocket => Splice { to_socket: Some(ended), ..self },
        }
    }

    /// What is to be done when a direction has ended.
    pub open spec fn closing(self, direction: Direction, ended: Ended) -> Closing {
        Closing {
            half_close: ended.end == PumpEnd::Natural,
            full_close: self.finished(direction, ended).done(),
        }
    }

    /// Records that a direction ended. It half-closes its destination exactly if it ended by itself,
    /// and the connection is closed exactly when the other direction has ended before.
    pub fn finish(&mut self, direction: Direction, ended: Ended) -> (r: Closing)
        requires
            old(self).ended(direction) is None,
        ensures
            *final(self) == old(self).finished(direction, ended),
            r == old(self).closing(direction, ended),
    {
        match direction {
            Direction::SocketToOverlay => {
                self.to_overlay = Some(ended);
            },
            Direction::OverlayToSocket => {
                self.to_socket = Some(ended);
            },
        }
        Closing {
            half_close: ended.end == PumpEnd::Natural,
            full_close: self.to_overlay.is_some() && self.to_socket.is_some(),
        }
    }

    /// What the connection came to: the error of the direction to the overlay, if it had one; else
    /// that of the direction to the socket.
    pub fn verdict(&self) -> (r: Verdict)
        requires
            self.done(),
        ensures
            r == (if !self.to_overlay->0.ok {
                Verdict::Failed(Direction::SocketToOverlay)
            } else if !self.to_socket->0.ok {
                Verdict::Failed(Direction::OverlayToSocket)
            } else {
                Verdict::Fine
            }),
    {
        match (self.to_overlay, self.to_socket) {
            (Some(Ended { ok: false, .. }), _) => Verdict::Failed(Direction::SocketToOverlay),
            (_, Some(Ended { ok: false, .. })) => Verdict::Failed(Direction::OverlayToSocket),
            _ => Verdict::Fine,
        }
    }
}

/// Whichever direction ends first, the connection is closed once, by the second.
pub proof fn law_connection_is_closed_once(s: Splice, first: Direction, a: Ended, b: Ended)
    requires
        s.to_overlay is None,
        s.to_socket is None,
    ensures
        !s.closing(first, a).full_close,
        s.finished(first, a).closing(Splice::other(first), b).full_close,
        s.finished(first, a).finished(Splice::other(first), b).done(),
{
}

/// A direction that ends by itself half-closes its destination, and leaves the other direction running. A
/// direction that is killed half-closes nothing.
pub proof fn law_half_close_leaves_the_other_direction(s: Splice, d: Direction, e: Ended)
    ensures
        s.closing(d, e).half_close <==> e.end == PumpEnd::Natural,
        s.finished(d, e).ended(Splice::other(d)) == s.ended(Splice::other(d)),
{
}

} // verus!
