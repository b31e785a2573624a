//! The server's decisions: which connections are live, which messages wait for
//! a broadcast round, and what to do on each transport event. The transport
//! itself (listening, reading, writing) stays with the caller, which reports
//! what happened as an `Event` and carries out the returned `Action`.
use std::collections::VecDeque;
use vstd::prelude::*;

use crate::registry::{without, Registry};

verus! {

/// Something that happened on the transport.
#[derive(Debug, Clone, PartialEq, Eq)]
pub enum Event {
    /// A new inbound connection was accepted.
    Accepted,
    /// An accept attempt failed; the listener stays up.
    AcceptFailed,
    /// Connection `id` delivered one text message.
    Received(u64, String),
    /// Reading from connection `id` failed or reached its end.
    ReadFailed(u64),
}

/// What the caller has to do after an event.
#[derive(Debug, Clone, Copy, PartialEq, Eq)]
pub enum Action {
    /// Keep the new connection under this identifier and start reading from it.
    Register(u64),
    /// No identifier is left: close the new connection.
    Refuse,
    /// Nothing to do.
    Continue,
    /// Close this connection and stop reading from it.
    Retire(u64),
}

/// One broadcast: the message and the connections it must be written to.
#[derive(Debug, Clone, PartialEq, Eq)]
pub struct Round {
    pub message: String,
    pub targets: Vec<u64>,
}

/// The hub as a mathematical value.
pub struct HubView {
    /// Live connections in the order they were accepted.
    pub conns: Seq<u64>,
    /// Messages received and not yet broadcast, oldest first.
    pub pending: Seq<String>,
    /// The identifier the next accepted connection gets.
    pub next_id: u64,
}

impl HubView {
    /// Live identifiers are distinct and were all handed out already.
    pub open spec fn wf(self) -> bool {
        &&& self.conns.no_duplicates()
        &&& forall|c: u64| #[trigger] self.conns.contains(c) ==> c < self.next_id
    }

    /// A hub that has seen nothing.
    pub open spec fn initial() -> HubView {
        HubView { conns: Seq::empty(), pending: Seq::empty(), next_id: 0 }
    }
}

/// The transition on one event: the next state and the action for the caller.
pub open spec fn step(s: HubView, e: Event) -> (HubView, Action) {
    match e {
        Event::Accepted => {
            if s.next_id == u64::MAX {
                (s, Action::Refuse)
            } else {
                (
                    HubView {
                        conns: s.conns.push(s.next_id),
                        pending: s.pending,
                        next_id: (s.next_id + 1) as u64,
                    },
                    Action::Register(s.next_id),
                )
            }
        },
        Event::AcceptFailed => (s, Action::Continue),
        Event::Received(id, m) => {
            if s.conns.contains(id) {
                (HubView { conns: s.conns, pending: s.pending.push(m), next_id: s.next_id }, Action::Continue)
            } else {
                (s, Action::Retire(id))
            }
        },
        Event::ReadFailed(id) => (
            HubView { conns: without(s.conns, id), pending: s.pending, next_id: s.next_id },
            Action::Retire(id),
        ),
    }
}

/// Starting a broadcast round: the oldest waiting message goes to every live
/// connection; with nothing waiting there is no round.
pub open spec fn round(s: HubView) -> (HubView, Option<(String, Seq<u64>)>) {
    if s.pending.len() == 0 {
        (s, None)
    } else {
        (
            HubView { conns: s.conns, pending: s.pending.drop_first(), next_id: s.next_id },
            Some((s.pending[0], s.conns)),
        )
    }
}

/// `conns` after evicting each of `failed`, in turn.
pub open spec fn evict_all(conns: Seq<u64>, failed: Seq<u64>) -> Seq<u64>
    decreases failed.len(),
{
    if failed.len() == 0 {
        conns
    } else {
        without(evict_all(conns, failed.drop_last()), failed.last())
    }
}

/// The live connections and the queue of messages waiting for broadcast.
pub struct Hub {
    registry: Registry,
    pending: VecDeque<String>,
    next_id: u64,
}

impl View for Hub {
    type V = HubView;

    closed spec fn view(&self) -> HubView {
        HubView { conns: self.registry@, pending: self.pending@, next_id: self.next_id }
    }
}

impl Hub {
    /// The hub's state is well formed.
    pub open spec fn wf(&self) -> bool {
        self@.wf()
    }

    /// A hub with no connection and no waiting message.
    pub fn new() -> (h: Hub)
        ensures
            h.wf(),
            h@ == HubView::initial(),
    {
        let h = Hub { registry: Registry::new(), pending: VecDeque::new(), next_id: 0 };
        assert(h@.conns =~= Seq::<u64>::empty());
        assert(h@.pending =~= Seq::<String>::empty());
        h
    }

    /// Takes one event into account and says what the caller has to do.
    pub fn handle(&mut self, event: Event) -> (a: Action)
        requires
            old(self).wf(),
        ensures
            final(self).wf(),
            (final(self)@, a) == step(old(self)@, event),
    {
        match event {
            Event::Accepted => {
                if self.next_id == u64::MAX {
                    Action::Refuse
                } else {
                    let id = self.next_id;
                    self.registry.add(id);
                    self.next_id = id + 1;
                    proof {
                        let before = old(self)@.conns;
                        assert forall|c: u64| #[trigger] self.registry@.contains(c) implies c
                            < self.next_id by {
                            let k = choose|k: int| 0 <= k < self.registry@.len() && self.registry@[k] == c;
                            if k < before.len() {
                                assert(before.contains(before[k]));
                            }
                        }
                    }
                    Action::Register(id)
                }
            },
            Event::AcceptFailed => Action::Continue,
            Event::Received(id, m) => {
                if self.registry.contains(id) {
                    self.pending.push_back(m);
                    Action::Continue
                } else {
                    Action::Retire(id)
                }
            },
            Event::ReadFailed(id) => {
                self.registry.remove(id);
                proof {
                    assert forall|c: u64| #[trigger] self.registry@.contains(c) implies c < self.next_id by {
                        crate::registry::lemma_without_contains(old(self)@.conns, id, c);
                    }
                }
                Action::Retire(id)
            },
        }
    }

    /// Starts the next broadcast round, if a message is waiting.
    pub fn next_round(&mut self) -> (r: Option<Round>)
        requires
            old(self).wf(),
        ensures
            final(self).wf(),
            final(self)@ == round(old(self)@).0,
            match r {
                None => round(old(self)@).1 is None,
                Some(rd) => round(old(self)@).1 == Some((rd.message, rd.targets@)),
            },
    {
        match self.pending.pop_front() {
            None => None,
            Some(message) => Some(Round { message, targets: self.registry.snapshot() }),
        }
    }

    /// Evicts every connection whose write in the last round failed; the
    /// others stay.
    pub fn finish_round(&mut self, failed: &Vec<u64>)
        requires
            old(self).wf(),
        ensures
            final(self).wf(),
            final(self)@ == (HubView {
                conns: evict_all(old(self)@.conns, failed@),
                pending: old(self)@.pending,
                next_id: old(self)@.next_id,
            }),
    {
        let mut i: usize = 0;
        while i < failed.len()
            invariant
                0 <= i <= failed@.len(),
                self.wf(),
                self@.conns == evict_all(old(self)@.conns, failed@.take(i as int)),
                self@.pending == old(self)@.pending,
                self@.next_id == old(self)@.next_id,
            decreases failed@.len() - i,
        {
            let id = failed[i];
            let ghost before = self@.conns;
            self.registry.remove(id);
            proof {
                assert(failed@.take(i + 1).drop_last() =~= failed@.take(i as int));
                assert forall|c: u64| #[trigger] self.registry@.contains(c) implies c < self.next_id by {
                    crate::registry::lemma_without_contains(before, id, c);
                }
            }
            i = i + 1;
        }
        assert(failed@.take(failed@.len() as int) =~= failed@);
    }
}

} // verus!
