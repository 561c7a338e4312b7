//! The relay's event loop, as a state machine: the caller waits for the next
//! event (cancellation, data from the source, a new client), hands it over,
//! and carries out the action that comes back.

use vstd::prelude::*;
use crate::registry::{dropped, kept, SinkRegistry};
use crate::transfer::{SinkWrite, WriteOutcome, WriteStatus};

verus! {

/// What the caller observed while waiting.
#[derive(PartialEq, Eq, Clone, Debug)]
pub enum Event {
    /// Shutdown was requested.
    Cancelled,
    /// A read from the source produced these bytes. No bytes at all means the
    /// source reached its end.
    SourceData(Vec<u8>),
    /// The source failed or closed.
    SourceEnded,
    /// A new client connection was accepted.
    Accepted,
}

/// What the caller does next.
#[derive(PartialEq, Eq, Clone, Debug)]
pub enum Action {
    /// Keep the accepted connection as the sink with this id, and wait.
    Register(u64),
    /// No id is left for the accepted connection: close it, and wait.
    Refuse,
    /// Write the round's payload, from this offset to its end, to this sink,
    /// and report the outcome.
    Write { sink: u64, from: usize },
    /// The round is over: close the sinks with these ids, and wait.
    RoundDone(Vec<u64>),
    /// Stop: read and accept no more, close every connection.
    Stop,
}

/// Where the event loop stands.
#[derive(PartialEq, Eq, Structural, Clone, Copy, Debug)]
pub enum Phase {
    /// Between events.
    Waiting,
    /// A round is being written out, one sink at a time.
    Broadcasting,
    /// Terminal.
    Stopped,
}

/// The event loop: the live sinks, the phase, and the round in progress.
pub struct Relay {
    sinks: SinkRegistry,
    phase: Phase,
    payload: Vec<u8>,
    index: usize,
    write: SinkWrite,
    ok: Vec<bool>,
}

impl Relay {
    pub closed spec fn sinks(&self) -> SinkRegistry {
        self.sinks
    }

    pub closed spec fn phase_spec(&self) -> Phase {
        self.phase
    }

    /// The payload of the round in progress.
    pub closed spec fn payload_spec(&self) -> Seq<u8> {
        self.payload@
    }

    /// Position, among the live sinks, of the sink being written.
    pub closed spec fn index(&self) -> nat {
        self.index as nat
    }

    /// Bytes of the payload that the sink being written has accepted.
    pub closed spec fn sent(&self) -> nat {
        self.write.sent_spec()
    }

    /// For each sink before the one being written: whether it took the
    /// whole payload.
    pub closed spec fn outcomes(&self) -> Seq<bool> {
        self.ok@
    }

    /// The sink being written.
    pub open spec fn current_sink(&self) -> u64 {
        self.sinks().live()[self.index() as int]
    }

    pub closed spec fn wf(&self) -> bool {
        &&& self.sinks.wf()
        &&& self.phase == Phase::Broadcasting ==> {
            &&& self.index < self.sinks.live().len()
            &&& self.payload@.len() > 0
            &&& self.ok@.len() == self.index
            &&& self.write.wf()
            &&& self.write.len_spec() == self.payload@.len()
            &&& self.write.status_spec() == WriteStatus::Pending
        }
    }

    /// The sinks of a well-formed relay form a well-formed registry, so the
    /// registry's delivery lemmas apply to them.
    pub proof fn lemma_sinks_wf(&self)
        requires
            self.wf(),
        ensures
            self.sinks().wf(),
    {
    }

    /// A relay with no sink, waiting for its first event.
    pub fn new() -> (r: Relay)
        ensures
            r.wf(),
            r.phase_spec() == Phase::Waiting,
            r.sinks().live() == Seq::<u64>::empty(),
            r.sinks().rounds() == Seq::<Seq<u8>>::empty(),
            r.sinks().next_id() == 0,
    {
        Relay {
            sinks: SinkRegistry::new(),
            phase: Phase::Waiting,
            payload: Vec::new(),
            index: 0,
            write: SinkWrite::new(0),
            ok: Vec::new(),
        }
    }

    pub fn phase(&self) -> (r: Phase)
        ensures
            r == self.phase_spec(),
    {
        self.phase
    }

    /// Number of live sinks.
    pub fn sink_count(&self) -> (r: usize)
        requires
            self.wf(),
        ensures
            r == self.sinks().live().len(),
    {
        self.sinks.len()
    }

    /// The payload of the round in progress, which `Action::Write` offsets
    /// refer to.
    pub fn payload(&self) -> (r: &[u8])
        ensures
            r@ == self.payload_spec(),
    {
        self.payload.as_slice()
    }

    /// Starts writing to the sink at `index`, or ends the round when every
    /// live sink has had its turn.
    fn advance(&mut self) -> (a: Action)
        requires
            old(self).sinks.wf(),
            old(self).phase == Phase::Broadcasting,
            old(self).index <= old(self).sinks.live().len(),
            old(self).ok@.len() == old(self).index,
            old(self).payload@.len() > 0,
        ensures
            final(self).wf(),
            old(self).index < old(self).sinks.live().len() ==> {
                &&& a == (Action::Write { sink: old(self).current_sink(), from: 0 })
                &&& final(self).phase == Phase::Broadcasting
                &&& final(self).sinks == old(self).sinks
                &&& final(self).payload@ == old(self).payload@
                &&& final(self).index == old(self).index
                &&& final(self).ok@ == old(self).ok@
                &&& final(self).write.sent_spec() == 0
            },
            old(self).index == old(self).sinks.live().len() ==> {
                &&& final(self).phase == Phase::Waiting
                &&& round_ended(old(self).sinks, final(self).sinks, old(self).payload@, old(self).ok@, a)
            },
    {
        if self.index < self.sinks.len() {
            self.write = SinkWrite::new(self.payload.len());
            Action::Write { sink: self.sinks.id_at(self.index), from: 0 }
        } else {
            let gone = self.sinks.complete_round(&self.payload, &self.ok);
            self.phase = Phase::Waiting;
            self.payload = Vec::new();
            self.ok = Vec::new();
            self.index = 0;
            Action::RoundDone(gone)
        }
    }

    /// Handles one event observed while no round is in progress.
    ///
    /// Once stopped, the relay stays stopped: every event gives `Stop` and
    /// changes nothing, so no further read or accept is asked for.
    /// Cancellation, and the end of the source (an error, or a read of no
    /// bytes), stop it with its sinks as they are. Data from the source starts
    /// a round over the sinks live at that moment; a new client is registered
    /// between rounds, so it is sent whole rounds only, from the next one on.
    pub fn on_event(&mut self, ev: Event) -> (a: Action)
        requires
            old(self).wf(),
            old(self).phase_spec() != Phase::Broadcasting,
        ensures
            final(self).wf(),
            old(self).phase_spec() == Phase::Stopped ==> a == Action::Stop && *final(self) == *old(self),
            old(self).phase_spec() == Phase::Waiting ==> match ev {
                Event::Cancelled | Event::SourceEnded => {
                    &&& a == Action::Stop
                    &&& final(self).phase_spec() == Phase::Stopped
                    &&& final(self).sinks() == old(self).sinks()
                },
                Event::SourceData(b) => if b@.len() == 0 {
                    &&& a == Action::Stop
                    &&& final(self).phase_spec() == Phase::Stopped
                    &&& final(self).sinks() == old(self).sinks()
                } else if old(self).sinks().live().len() == 0 {
                    &&& final(self).phase_spec() == Phase::Waiting
                    &&& round_ended(old(self).sinks(), final(self).sinks(), b@, Seq::empty(), a)
                } else {
                    &&& a == (Action::Write { sink: old(self).sinks().live()[0], from: 0 })
                    &&& final(self).phase_spec() == Phase::Broadcasting
                    &&& final(self).sinks() == old(self).sinks()
                    &&& final(self).payload_spec() == b@
                    &&& final(self).index() == 0
                    &&& final(self).sent() == 0
                    &&& final(self).outcomes() == Seq::<bool>::empty()
                },
                Event::Accepted => {
                    &&& final(self).phase_spec() == Phase::Waiting
                    &&& final(self).sinks().rounds() == old(self).sinks().rounds()
                    &&& (a is Refuse <==> old(self).sinks().next_id() == u64::MAX)
                    &&& a is Refuse ==> final(self).sinks() == old(self).sinks()
                    &&& a is Register || a is Refuse
                    &&& a matches Action::Register(id) ==> {
                        &&& id == old(self).sinks().next_id()
                        &&& final(self).sinks().next_id() == id + 1
                        &&& !old(self).sinks().live().contains(id)
                        &&& final(self).sinks().live() == old(self).sinks().live().push(id)
                        &&& final(self).sinks().joined_at(id) == old(self).sinks().rounds().len()
                        &&& final(self).sinks().received(id) == Seq::<u8>::empty()
                        &&& forall|x: u64|
                            #[trigger] old(self).sinks().live().contains(x) ==> {
                                &&& final(self).sinks().received(x) == old(self).sinks().received(x)
                                &&& final(self).sinks().joined_at(x) == old(self).sinks().joined_at(x)
                            }
                    }
                },
            },
    {
        if self.phase == Phase::Stopped {
            return Action::Stop;
        }
        match ev {
            Event::Cancelled | Event::SourceEnded => {
                self.phase = Phase::Stopped;
                Action::Stop
            },
            Event::SourceData(b) => {
                if b.len() == 0 {
                    self.phase = Phase::Stopped;
                    Action::Stop
                } else {
                    self.payload = b;
                    self.phase = Phase::Broadcasting;
                    self.index = 0;
                    self.ok = Vec::new();
                    self.advance()
                }
            },
            Event::Accepted => match self.sinks.add() {
                Some(id) => Action::Register(id),
                None => Action::Refuse,
            },
        }
    }

    /// Handles the outcome of the last `Action::Write`.
    ///
    /// Accepted bytes move the offset on by their count, and the rest of the
    /// payload is asked for next. An error, or a write that accepted nothing,
    /// marks the sink failed; a sink that took everything is marked
    /// delivered. Either way the next live sink is written from offset zero,
    /// and after the last one the round ends: failed sinks are removed, and
    /// the others have been sent the payload.
    pub fn on_write(&mut self, outcome: WriteOutcome) -> (a: Action)
        requires
            old(self).wf(),
            old(self).phase_spec() == Phase::Broadcasting,
            outcome matches WriteOutcome::Wrote(k) ==> k <= old(self).payload_spec().len()
                - old(self).sent(),
        ensures
            final(self).wf(),
            ({
                let pending = outcome matches WriteOutcome::Wrote(k) && k > 0 && old(self).sent() + k
                    < old(self).payload_spec().len();
                let delivered = outcome matches WriteOutcome::Wrote(k) && k > 0 && old(self).sent()
                    + k == old(self).payload_spec().len();
                let outcomes = old(self).outcomes().push(delivered);
                &&& pending ==> {
                    &&& a == (Action::Write {
                        sink: old(self).current_sink(),
                        from: final(self).sent() as usize,
                    })
                    &&& final(self).sent() == old(self).sent() + outcome->Wrote_0
                    &&& final(self).phase_spec() == Phase::Broadcasting
                    &&& final(self).sinks() == old(self).sinks()
                    &&& final(self).payload_spec() == old(self).payload_spec()
                    &&& final(self).index() == old(self).index()
                    &&& final(self).outcomes() == old(self).outcomes()
                }
                &&& !pending && old(self).index() + 1 < old(self).sinks().live().len() ==> {
                    &&& a == (Action::Write {
                        sink: old(self).sinks().live()[old(self).index() + 1int],
                        from: 0,
                    })
                    &&& final(self).sent() == 0
                    &&& final(self).phase_spec() == Phase::Broadcasting
                    &&& final(self).sinks() == old(self).sinks()
                    &&& final(self).payload_spec() == old(self).payload_spec()
                    &&& final(self).index() == old(self).index() + 1
                    &&& final(self).outcomes() == outcomes
                }
                &&& !pending && old(self).index() + 1 == old(self).sinks().live().len() ==> {
                    &&& final(self).phase_spec() == Phase::Waiting
                    &&& round_ended(
                        old(self).sinks(),
                        final(self).sinks(),
                        old(self).payload_spec(),
                        outcomes,
                        a,
                    )
                }
            }),
    {
        let st = self.write.record(outcome);
        match st {
            WriteStatus::Pending => Action::Write {
                sink: self.sinks.id_at(self.index),
                from: self.write.sent(),
            },
            _ => {
                let n = self.sinks.len();
                proof {
                    assert(self.index < n);
                }
                self.ok.push(st == WriteStatus::Complete);
                self.index = self.index + 1;
                self.advance()
            },
        }
    }
}

/// A round of `data`, with sink outcomes `ok`, took the registry from `before`
/// to `after` and gave action `a`: the round is recorded, the sinks that took
/// it all stay, in order, having been sent it, and the rest are dropped and
/// named in `a`.
pub open spec fn round_ended(
    before: SinkRegistry,
    after: SinkRegistry,
    data: Seq<u8>,
    ok: Seq<bool>,
    a: Action,
) -> bool {
    &&& after.rounds() == before.rounds().push(data)
    &&& after.next_id() == before.next_id()
    &&& after.live() == kept(before.live(), ok)
    &&& a matches Action::RoundDone(gone) && gone@ == dropped(before.live(), ok)
    &&& forall|x: u64|
        #[trigger] after.live().contains(x) ==> {
            &&& before.live().contains(x)
            &&& after.joined_at(x) == before.joined_at(x)
            &&& after.received(x) == before.received(x) + data
        }
}

} // verus!
