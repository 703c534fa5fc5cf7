//! The table of an event bus: which receivers asked for which signal, and which receivers
//! are to be told when the bus shuts down.
//!
//! The table decides who gets what. Handing an event over to a receiver, across threads, is
//! left to the caller.

use vstd::prelude::*;
use std::collections::BTreeMap;

verus! {

/// The number of a kind of signal.
pub type SignalId = usize;

/// The name of a receiver.
#[derive(Clone, Copy, Debug, PartialEq, Eq, Structural, Hash)]
pub struct ReceiverId {
    pub value: usize,
}

/// What a receiver is handed: a package that was emitted under a signal, or the order to
/// stop.
#[derive(Clone, PartialEq, Debug)]
pub enum Event<P> {
    Package { id: SignalId, package: P },
    Terminate,
}

/// An event and the receivers that are to get it, in the order in which they asked for it.
pub struct Dispatch<P> {
    pub event: Event<P>,
    pub receivers: Vec<ReceiverId>,
}

/// The table of the bus.
pub struct Signaler {
    /// For each signal that was asked for, the receivers that asked for it, oldest first.
    pub map: BTreeMap<SignalId, Vec<ReceiverId>>,
    /// The receivers that asked to be told of the shutdown, oldest first.
    pub registry: Vec<ReceiverId>,
}

/// A copy of `list`.
fn copy_of(list: &Vec<ReceiverId>) -> (copy: Vec<ReceiverId>)
    ensures
        copy@ == list@,
{
    let mut copy: Vec<ReceiverId> = Vec::new();
    let count = list.len();
    let mut place: usize = 0;
    while place < count
        invariant
            count == list@.len(),
            place <= count,
            copy@.len() == place,
            forall|i: int| 0 <= i < place ==> copy@[i] == list@[i],
        decreases count - place,
    {
        copy.push(list[place]);
        place = place + 1;
    }
    proof {
        assert(copy@ =~= list@);
    }
    copy
}

impl Signaler {
    /// The receivers that get what is emitted under the signal `id`, in the order in which
    /// they asked for it. A receiver that asked more than once is named as often.
    pub open spec fn receivers_of(&self, id: SignalId) -> Seq<ReceiverId> {
        if self.map@.contains_key(id) {
            self.map@[id]@
        } else {
            Seq::empty()
        }
    }

    /// A table without subscriptions.
    pub fn new() -> (signaler: Signaler)
        ensures
            signaler.registry@.len() == 0,
            forall|id: SignalId| signaler.receivers_of(id).len() == 0,
    {
        Signaler { map: BTreeMap::new(), registry: Vec::new() }
    }

    /// Subscribes `receiver` for the signal `id`: it gets what is emitted under `id` from
    /// now on, after the receivers that asked before it. The other signals keep their
    /// receivers.
    pub fn subscribe(&mut self, id: SignalId, receiver: ReceiverId)
        ensures
            final(self).registry@ == old(self).registry@,
            final(self).receivers_of(id) == old(self).receivers_of(id).push(receiver),
            forall|other: SignalId|
                other != id ==> final(self).receivers_of(other) == old(self).receivers_of(other),
    {
        let mut list = match self.map.remove(&id) {
            Some(list) => list,
            None => Vec::new(),
        };
        list.push(receiver);
        self.map.insert(id, list);
    }

    /// Registers `receiver` to be told when the bus shuts down.
    pub fn register(&mut self, receiver: ReceiverId)
        ensures
            final(self).registry@ == old(self).registry@.push(receiver),
            forall|id: SignalId| final(self).receivers_of(id) == old(self).receivers_of(id),
    {
        self.registry.push(receiver);
    }

    /// Says who gets `package`, emitted under the signal `id`: the receivers that asked
    /// for `id`, in the order in which they asked. Nobody gets what is emitted under a signal
    /// that nobody asked for.
    pub fn emit<P>(&self, id: SignalId, package: P) -> (dispatch: Dispatch<P>)
        ensures
            dispatch.event == (Event::Package { id, package }),
            dispatch.receivers@ == self.receivers_of(id),
    {
        let receivers = match self.map.get(&id) {
            Some(list) => copy_of(list),
            None => Vec::new(),
        };
        Dispatch { event: Event::Package { id, package }, receivers }
    }

    /// Says who is told to stop when the bus shuts down: every registered receiver, in the
    /// order in which they registered.
    pub fn terminate<P>(&self) -> (dispatch: Dispatch<P>)
        ensures
            dispatch.event == Event::<P>::Terminate,
            dispatch.receivers@ == self.registry@,
    {
        Dispatch { event: Event::Terminate, receivers: copy_of(&self.registry) }
    }
}

} // verus!
