//! The task that holds a domain's connection to the endpoint that hosts its service.
//!
//! Questions wait until the connection is dialled, and are then written one at a time, in the order in
//! which they came. When the connection ends, in whatever way, every question that was not written
//! fails.

use vstd::prelude::*;

#[allow(unused_imports)]
use crate::proxy_resolve::WireMsg;
use crate::proxy_resolve::{ProxyEvent, ProxyJob};

verus! {

/// Where a connection stands.
#[derive(Clone, Copy, Debug, PartialEq, Eq, Structural)]
pub enum ConnPhase {
    /// Not dialled yet.
    Dialing,
    /// Dialled, and nothing is being written.
    Open,
    /// The question of this number is being written.
    Writing(u16),
    /// Ended.
    Closed,
}

/// A connection: where it stands, and the questions still to be written.
pub struct ProxyConn {
    phase: ConnPhase,
    jobs: Vec<ProxyJob>,
}

/// A question to write: its number and its bytes.
pub struct JobState {
    pub id: u16,
    pub json: Seq<u8>,
}

impl View for ProxyJob {
    type V = JobState;

    open spec fn view(&self) -> JobState {
        JobState { id: self.id, json: self.json@ }
    }
}

/// A connection.
pub struct ProxyConnState {
    pub phase: ConnPhase,
    pub jobs: Seq<JobState>,
}

impl ProxyConnState {
    /// The numbers of the questions that are neither written nor failed, in the order in which they
    /// came.
    pub open spec fn owed(self) -> Seq<u16> {
        let queued = self.jobs.map_values(|j: JobState| j.id);
        match self.phase {
            ConnPhase::Writing(id) => seq![id] + queued,
            _ => queued,
        }
    }

    /// Nothing waits on a connection that has ended.
    pub open spec fn wf(self) -> bool {
        self.phase is Closed ==> self.jobs.len() == 0
    }
}

impl View for ProxyConn {
    type V = ProxyConnState;

    closed spec fn view(&self) -> ProxyConnState {
        ProxyConnState { phase: self.phase, jobs: self.jobs@.map_values(|j: ProxyJob| j@) }
    }
}

/// The failures of the questions of these numbers.
pub open spec fn failures(ids: Seq<u16>) -> Seq<ProxyEvent> {
    ids.map_values(|id: u16| ProxyEvent::WriteFailed(id))
}

/// The failures of the questions of a list, after those in `events`.
fn fail_queued(jobs: Vec<ProxyJob>, events: &mut Vec<ProxyEvent>)
    ensures
        final(events)@ == old(events)@ + failures(
            jobs@.map_values(|j: ProxyJob| j@).map_values(|j: JobState| j.id),
        ),
{
    let ghost ids = jobs@.map_values(|j: ProxyJob| j@).map_values(|j: JobState| j.id);
    let ghost start = events@;
    let mut i: usize = 0;
    assert(failures(ids).take(0) =~= Seq::<ProxyEvent>::empty());
    while i < jobs.len()
        invariant
            i <= jobs@.len(),
            ids == jobs@.map_values(|j: ProxyJob| j@).map_values(|j: JobState| j.id),
            events@ == start + failures(ids).take(i as int),
        decreases jobs@.len() - i,
    {
        events.push(ProxyEvent::WriteFailed(jobs[i].id));
        i += 1;
        assert(events@ =~= start + failures(ids).take(i as int));
    }
    assert(failures(ids).take(i as int) =~= failures(ids));
}

impl ProxyConn {
    /// What holds of every connection.
    pub closed spec fn wf(&self) -> bool {
        self@.wf()
    }

    /// A connection that is yet to be dialled.
    pub fn new() -> (r: Self)
        ensures
            r.wf(),
            r@ == (ProxyConnState { phase: ConnPhase::Dialing, jobs: Seq::empty() }),
    {
        let r = ProxyConn { phase: ConnPhase::Dialing, jobs: Vec::new() };
        assert(r@.jobs =~= Seq::<JobState>::empty());
        r
    }

    /// Where the connection stands.
    pub fn phase(&self) -> (r: ConnPhase)
        ensures
            r == self@.phase,
    {
        self.phase
    }

    /// Has a question wait to be written. It comes back if the connection has ended.
    pub fn queue(&mut self, job: ProxyJob) -> (r: Option<ProxyJob>)
        requires
            old(self).wf(),
        ensures
            final(self).wf(),
            if old(self)@.phase is Closed {
                r == Some(job) && final(self)@ == old(self)@
            } else {
                r is None && final(self)@ == (ProxyConnState {
                    jobs: old(self)@.jobs.push(job@),
                    ..old(self)@
                }) && final(self)@.owed() == old(self)@.owed().push(job.id)
            },
    {
        if let ConnPhase::Closed = self.phase {
            return Some(job);
        }
        self.jobs.push(job);
        assert(self@.jobs =~= old(self)@.jobs.push(job@));
        assert(self@.owed() =~= old(self)@.owed().push(job.id));
        None
    }

    /// The connection was dialled.
    pub fn dialled(&mut self)
        requires
            old(self).wf(),
            old(self)@.phase is Dialing,
        ensures
            final(self).wf(),
            final(self)@ == (ProxyConnState { phase: ConnPhase::Open, ..old(self)@ }),
            final(self)@.owed() == old(self)@.owed(),
    {
        self.phase = ConnPhase::Open;
    }

    /// Takes the first question that waits, to be written; `None` if none waits.
    pub fn next_job(&mut self) -> (r: Option<ProxyJob>)
        requires
            old(self).wf(),
            old(self)@.phase is Open,
        ensures
            final(self).wf(),
            final(self)@.owed() == old(self)@.owed(),
            if old(self)@.jobs.len() == 0 {
                r is None && final(self)@ == old(self)@
            } else {
                r matches Some(job) && job@ == old(self)@.jobs[0] && final(self)@ == (ProxyConnState {
                    phase: ConnPhase::Writing(job.id),
                    jobs: old(self)@.jobs.skip(1),
                })
            },
    {
        if self.jobs.len() == 0 {
            return None;
        }
        let job: ProxyJob = self.jobs.remove(0);
        self.phase = ConnPhase::Writing(job.id);
        assert(self@.jobs =~= old(self)@.jobs.skip(1));
        assert(self@.owed() =~= old(self)@.owed());
        Some(job)
    }

    /// The question was written.
    pub fn written(&mut self)
        requires
            old(self).wf(),
            old(self)@.phase is Writing,
        ensures
            final(self).wf(),
            final(self)@ == (ProxyConnState { phase: ConnPhase::Open, ..old(self)@ }),
            final(self)@.owed() == old(self)@.owed().skip(1),
    {
        self.phase = ConnPhase::Open;
        assert(self@.owed() =~= old(self)@.owed().skip(1));
    }

    /// The connection ended: the dial or a write failed, the endpoint closed it or it could not be read,
    /// or nobody is left who asks questions on it. Gives the failures to report, one for every question
    /// that was not written, in the order in which they came.
    pub fn ended(&mut self) -> (r: Vec<ProxyEvent>)
        requires
            old(self).wf(),
        ensures
            final(self).wf(),
            final(self)@ == (ProxyConnState { phase: ConnPhase::Closed, jobs: Seq::empty() }),
            r@ == failures(old(self)@.owed()),
    {
        let mut events: Vec<ProxyEvent> = Vec::new();
        if let ConnPhase::Writing(id) = self.phase {
            events.push(ProxyEvent::WriteFailed(id));
        }
        let mut jobs: Vec<ProxyJob> = Vec::new();
        std::mem::swap(&mut jobs, &mut self.jobs);
        self.phase = ConnPhase::Closed;
        fail_queued(jobs, &mut events);
        assert(self@.jobs =~= Seq::<JobState>::empty());
        assert(events@ =~= failures(old(self)@.owed()));
        events
    }
}

/// A connection that has ended owes nothing: every question was written or has failed.
pub proof fn law_ended_connection_owes_nothing(c: ProxyConnState)
    requires
        c.wf(),
        c.phase is Closed,
    ensures
        c.owed() == Seq::<u16>::empty(),
{
    assert(c.owed() =~= Seq::<u16>::empty());
}

} // verus!
