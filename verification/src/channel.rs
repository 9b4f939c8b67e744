//! The broadcast channel: payloads wait here, first in first out, until
//! the accept loop writes them to the connected peers.

use std::collections::VecDeque;
use vstd::prelude::*;

verus! {

/// The payloads held by a queue of byte vectors, front first.
pub open spec fn payloads(queue: Seq<Vec<u8>>) -> Seq<Seq<u8>> {
    Seq::new(queue.len(), |i: int| queue[i]@)
}

/// A queue of payloads. Its value is the sequence of the waiting
/// payloads, the oldest first.
#[derive(Debug)]
pub struct BroadcastChannel {
    queue: VecDeque<Vec<u8>>,
}

impl View for BroadcastChannel {
    type V = Seq<Seq<u8>>;

    closed spec fn view(&self) -> Seq<Seq<u8>> {
        payloads(self.queue@)
    }
}

impl BroadcastChannel {
    /// A channel in which nothing waits.
    pub fn new() -> (channel: Self)
        ensures
            channel@ == Seq::<Seq<u8>>::empty(),
    {
        let channel = BroadcastChannel { queue: VecDeque::new() };
        assert(channel@ =~= Seq::empty());
        channel
    }

    /// Number of waiting payloads.
    pub fn len(&self) -> (count: usize)
        ensures
            count == self@.len(),
    {
        self.queue.len()
    }

    /// Puts a payload at the back of the queue.
    pub fn send(&mut self, payload: Vec<u8>)
        ensures
            final(self)@ == old(self)@.push(payload@),
    {
        self.queue.push_back(payload);
        assert(self@ =~= old(self)@.push(payload@));
    }

    /// Takes the oldest payload, if one waits.
    pub fn try_recv(&mut self) -> (taken: Option<Vec<u8>>)
        ensures
            old(self)@.len() == 0 ==> taken is None && final(self)@ == old(self)@,
            old(self)@.len() > 0 ==> taken is Some && taken->0@ == old(self)@[0] && final(self)@
                == old(self)@.drop_first(),
    {
        let taken = self.queue.pop_front();
        assert(old(self)@.len() > 0 ==> self@ =~= old(self)@.drop_first());
        taken
    }
}

} // verus!
