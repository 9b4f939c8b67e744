//! The connection registry: which peers are connected, and which of them
//! still take broadcast writes.

use crate::event::texts;
use vstd::prelude::*;

verus! {

/// A list of peers with every occurrence of `peer` taken out.
pub open spec fn without(list: Seq<Seq<char>>, peer: Seq<char>) -> Seq<Seq<char>>
    decreases list.len(),
{
    if list.len() == 0 {
        list
    } else if list.last() == peer {
        without(list.drop_last(), peer)
    } else {
        without(list.drop_last(), peer).push(list.last())
    }
}

/// What `without` keeps: exactly the other peers, and it adds no duplicate.
pub proof fn lemma_without(list: Seq<Seq<char>>, peer: Seq<char>)
    ensures
        forall|other: Seq<char>|
            #![trigger without(list, peer).contains(other)]
            #![trigger list.contains(other)]
            without(list, peer).contains(other) <==> list.contains(other) && other != peer,
        list.no_duplicates() ==> without(list, peer).no_duplicates(),
        !list.contains(peer) ==> without(list, peer) == list,
        without(list, peer).len() <= list.len(),
    decreases list.len(),
{
    let kept = without(list, peer);
    if list.len() == 0 {
    } else {
        let front = list.drop_last();
        let kept_front = without(front, peer);
        lemma_without(front, peer);
        assert forall|other: Seq<char>|
            kept.contains(other) <==> list.contains(other) && other != peer by {
            if kept.contains(other) {
                let i = choose|i: int| 0 <= i < kept.len() && kept[i] == other;
                if i < kept_front.len() {
                    assert(kept_front[i] == other);
                    assert(kept_front.contains(other));
                    let j = choose|j: int| 0 <= j < front.len() && front[j] == other;
                    assert(list[j] == other);
                } else {
                    assert(list[list.len() - 1] == other);
                }
            }
            if list.contains(other) && other != peer {
                let i = choose|i: int| 0 <= i < list.len() && list[i] == other;
                if i < front.len() {
                    assert(front[i] == other);
                    assert(front.contains(other));
                    let j = choose|j: int| 0 <= j < kept_front.len() && kept_front[j] == other;
                    assert(kept[j] == other);
                } else {
                    assert(kept[kept.len() - 1] == other);
                }
            }
        }
        if list.no_duplicates() {
            assert(front.no_duplicates());
            if list.last() != peer {
                assert forall|i: int, j: int|
                    0 <= i < kept.len() && 0 <= j < kept.len() && i != j implies kept[i]
                    != kept[j] by {
                    if i < kept_front.len() && j < kept_front.len() {
                    } else {
                        let inner = if i < kept_front.len() {
                            i
                        } else {
                            j
                        };
                        assert(kept_front.contains(kept_front[inner]));
                        assert(front.contains(kept_front[inner]));
                        let k = choose|k: int|
                            0 <= k < front.len() && front[k] == kept_front[inner];
                        assert(list[k] != list[list.len() - 1]);
                    }
                }
            }
        }
        if !list.contains(peer) {
            assert(list[list.len() - 1] != peer);
            assert(!front.contains(peer)) by {
                if front.contains(peer) {
                    let k = choose|k: int| 0 <= k < front.len() && front[k] == peer;
                    assert(list[k] == peer);
                }
            }
            assert(kept =~= list);
        }
    }
}

/// In a list without duplicates, taking out the entry at one position
/// takes out that peer.
pub proof fn lemma_remove_is_without(list: Seq<Seq<char>>, at: int)
    requires
        list.no_duplicates(),
        0 <= at < list.len(),
    ensures
        list.remove(at) == without(list, list[at]),
    decreases list.len(),
{
    let peer = list[at];
    let front = list.drop_last();
    if at == list.len() - 1 {
        assert(!front.contains(peer)) by {
            if front.contains(peer) {
                let k = choose|k: int| 0 <= k < front.len() && front[k] == peer;
                assert(list[k] == list[at]);
            }
        }
        lemma_without(front, peer);
        assert(list.remove(at) =~= front);
    } else {
        assert(list.last() != peer);
        assert(front.no_duplicates());
        lemma_remove_is_without(front, at);
        assert(front[at] == peer);
        assert(list.remove(at) =~= front.remove(at).push(list.last()));
    }
}

/// The mathematical value of a [`ConnectionRegistry`].
pub struct RegistryView {
    /// Peers that take broadcast writes, in the order they connected.
    pub live: Seq<Seq<char>>,
    /// Peers that were dropped from the broadcast after a failed write and
    /// whose reader has not reported the end of the connection yet.
    pub lingering: Seq<Seq<char>>,
}

impl RegistryView {
    /// The registry that holds no peer.
    pub open spec fn empty() -> RegistryView {
        RegistryView { live: Seq::empty(), lingering: Seq::empty() }
    }

    /// No peer address is held twice.
    pub open spec fn wf(self) -> bool {
        &&& self.live.no_duplicates()
        &&& self.lingering.no_duplicates()
        &&& forall|peer: Seq<char>| !(self.live.contains(peer) && self.lingering.contains(peer))
    }

    /// Whether a reader is at work for the peer: the peer is connected.
    pub open spec fn tracks(self, peer: Seq<char>) -> bool {
        self.live.contains(peer) || self.lingering.contains(peer)
    }

    /// The addresses of the connected peers.
    pub open spec fn connected(self) -> Set<Seq<char>> {
        Set::new(|peer: Seq<char>| self.tracks(peer))
    }

    /// A new connection: the peer joins the live list, unless its address
    /// is held already.
    pub open spec fn register(self, peer: Seq<char>) -> RegistryView {
        if self.tracks(peer) {
            self
        } else {
            RegistryView { live: self.live.push(peer), ..self }
        }
    }

    /// The end of a connection: the peer leaves the registry.
    pub open spec fn close(self, peer: Seq<char>) -> RegistryView {
        RegistryView {
            live: without(self.live, peer),
            lingering: without(self.lingering, peer),
        }
    }

    /// A failed write: a live peer leaves the live list and lingers until
    /// its reader reports the end of the connection.
    pub open spec fn prune(self, peer: Seq<char>) -> RegistryView {
        if self.live.contains(peer) {
            RegistryView {
                live: without(self.live, peer),
                lingering: self.lingering.push(peer),
            }
        } else {
            self
        }
    }
}

/// A list without duplicates stays so when a peer that it lacks is added.
pub proof fn lemma_push_keeps_distinct(list: Seq<Seq<char>>, peer: Seq<char>)
    requires
        list.no_duplicates(),
        !list.contains(peer),
    ensures
        list.push(peer).no_duplicates(),
        forall|other: Seq<char>|
            #![trigger list.push(peer).contains(other)]
            #![trigger list.contains(other)]
            list.push(peer).contains(other) <==> list.contains(other) || other == peer,
{
    let longer = list.push(peer);
    assert forall|i: int, j: int|
        0 <= i < longer.len() && 0 <= j < longer.len() && i != j implies longer[i]
        != longer[j] by {
        if i < list.len() {
            assert(list.contains(list[i]));
        }
        if j < list.len() {
            assert(list.contains(list[j]));
        }
    }
    assert forall|other: Seq<char>|
        longer.contains(other) <==> list.contains(other) || other == peer by {
        if longer.contains(other) {
            let i = choose|i: int| 0 <= i < longer.len() && longer[i] == other;
            if i < list.len() {
                assert(list[i] == other);
            }
        }
        if list.contains(other) {
            let i = choose|i: int| 0 <= i < list.len() && list[i] == other;
            assert(longer[i] == other);
        }
        if other == peer {
            assert(longer[longer.len() - 1] == other);
        }
    }
}

/// Registering, closing and pruning keep a registry free of duplicates,
/// and change which peers are connected as their names say.
pub proof fn lemma_registry_steps(r: RegistryView, peer: Seq<char>)
    requires
        r.wf(),
    ensures
        r.register(peer).wf(),
        r.close(peer).wf(),
        r.prune(peer).wf(),
        forall|other: Seq<char>|
            #![trigger r.register(peer).tracks(other)]
            #![trigger r.tracks(other)]
            r.register(peer).tracks(other) <==> r.tracks(other) || other == peer,
        forall|other: Seq<char>|
            #![trigger r.close(peer).tracks(other)]
            #![trigger r.tracks(other)]
            r.close(peer).tracks(other) <==> r.tracks(other) && other != peer,
        forall|other: Seq<char>|
            #![trigger r.prune(peer).tracks(other)]
            #![trigger r.tracks(other)]
            r.prune(peer).tracks(other) <==> r.tracks(other),
        forall|other: Seq<char>|
            #![trigger r.prune(peer).live.contains(other)]
            #![trigger r.live.contains(other)]
            r.prune(peer).live.contains(other) <==> r.live.contains(other) && other != peer,
{
    lemma_without(r.live, peer);
    lemma_without(r.lingering, peer);
    if !r.tracks(peer) {
        lemma_push_keeps_distinct(r.live, peer);
    }
    if r.live.contains(peer) {
        lemma_push_keeps_distinct(r.lingering, peer);
    }
}

/// Position of `peer` in `list`, or `list.len()` when it is not there.
fn position(list: &Vec<String>, peer: &String) -> (at: usize)
    ensures
        at <= list.len(),
        at < list.len() ==> list[at as int]@ == peer@,
        at == list.len() <==> !texts(list@).contains(peer@),
{
    let mut i: usize = 0;
    while i < list.len()
        invariant
            0 <= i <= list.len(),
            forall|j: int| 0 <= j < i ==> list[j]@ != peer@,
        decreases list.len() - i,
    {
        if list[i] == *peer {
            assert(texts(list@)[i as int] == peer@);
            return i;
        }
        i = i + 1;
    }
    assert(!texts(list@).contains(peer@)) by {
        if texts(list@).contains(peer@) {
            let j = choose|j: int| 0 <= j < list.len() && texts(list@)[j] == peer@;
            assert(list[j]@ != peer@);
        }
    }
    i
}

/// The set of connected peers, keyed by display address.
///
/// A peer is *live* from the moment its connection is accepted. A failed
/// broadcast write takes it off the live list; it then *lingers* until its
/// reader reports the end of the connection.
#[derive(Debug)]
pub struct ConnectionRegistry {
    live: Vec<String>,
    lingering: Vec<String>,
}

impl View for ConnectionRegistry {
    type V = RegistryView;

    closed spec fn view(&self) -> RegistryView {
        RegistryView { live: texts(self.live@), lingering: texts(self.lingering@) }
    }
}

impl ConnectionRegistry {
    /// No peer address is held twice.
    #[verifier::type_invariant]
    spec fn inv(&self) -> bool {
        self@.wf()
    }

    /// A registry without peers.
    pub fn new() -> (registry: Self)
        ensures
            registry@ == RegistryView::empty(),
            registry@.wf(),
    {
        let registry = ConnectionRegistry { live: Vec::new(), lingering: Vec::new() };
        assert(registry@.live =~= Seq::empty() && registry@.lingering =~= Seq::empty());
        registry
    }

    /// Whether the peer is connected.
    pub fn tracks(&self, peer: &String) -> (found: bool)
        ensures
            found == self@.tracks(peer@),
    {
        position(&self.live, peer) < self.live.len() || position(&self.lingering, peer)
            < self.lingering.len()
    }

    /// Whether the peer takes broadcast writes.
    pub fn is_live(&self, peer: &String) -> (found: bool)
        ensures
            found == self@.live.contains(peer@),
    {
        position(&self.live, peer) < self.live.len()
    }

    /// Number of peers that take broadcast writes.
    pub fn live_count(&self) -> (count: usize)
        ensures
            count == self@.live.len(),
    {
        self.live.len()
    }

    /// Enters a newly connected peer, unless its address is held already.
    pub fn register(&mut self, peer: String) -> (added: bool)
        ensures
            added == !old(self)@.tracks(peer@),
            final(self)@ == old(self)@.register(peer@),
            final(self)@.wf(),
    {
        proof {
            use_type_invariant(&*self);
            lemma_registry_steps(self@, peer@);
        }
        if self.tracks(&peer) {
            return false;
        }
        let mut live: Vec<String> = Vec::new();
        assert(texts(live@) =~= Seq::empty());
        core::mem::swap(&mut self.live, &mut live);
        live.push(peer);
        assert(texts(live@) =~= old(self)@.live.push(peer@));
        self.live = live;
        true
    }

    /// Takes out a peer whose connection is over.
    pub fn close(&mut self, peer: &String) -> (closed: bool)
        ensures
            closed == old(self)@.tracks(peer@),
            final(self)@ == old(self)@.close(peer@),
            final(self)@.wf(),
    {
        proof {
            use_type_invariant(&*self);
            lemma_registry_steps(self@, peer@);
            lemma_without(self@.live, peer@);
            lemma_without(self@.lingering, peer@);
        }
        let in_live: usize = position(&self.live, peer);
        let in_lingering: usize = position(&self.lingering, peer);
        if in_live < self.live.len() {
            let mut live: Vec<String> = Vec::new();
            assert(texts(live@) =~= Seq::empty());
            core::mem::swap(&mut self.live, &mut live);
            live.remove(in_live);
            proof {
                lemma_remove_is_without(old(self)@.live, in_live as int);
                assert(texts(live@) =~= old(self)@.live.remove(in_live as int));
            }
            self.live = live;
            true
        } else if in_lingering < self.lingering.len() {
            let mut lingering: Vec<String> = Vec::new();
            assert(texts(lingering@) =~= Seq::empty());
            core::mem::swap(&mut self.lingering, &mut lingering);
            lingering.remove(in_lingering);
            proof {
                lemma_remove_is_without(old(self)@.lingering, in_lingering as int);
                assert(texts(lingering@) =~= old(self)@.lingering.remove(in_lingering as int));
            }
            self.lingering = lingering;
            true
        } else {
            false
        }
    }

    /// Takes a peer off the live list after a failed write; it lingers
    /// until its connection is closed.
    pub fn prune(&mut self, peer: &String) -> (pruned: bool)
        ensures
            pruned == old(self)@.live.contains(peer@),
            final(self)@ == old(self)@.prune(peer@),
            final(self)@.wf(),
    {
        proof {
            use_type_invariant(&*self);
            lemma_registry_steps(self@, peer@);
            lemma_without(self@.live, peer@);
        }
        let at: usize = position(&self.live, peer);
        if at >= self.live.len() {
            return false;
        }
        let mut live: Vec<String> = Vec::new();
        let mut lingering: Vec<String> = Vec::new();
        assert(texts(live@) =~= Seq::empty() && texts(lingering@) =~= Seq::empty());
        core::mem::swap(&mut self.live, &mut live);
        core::mem::swap(&mut self.lingering, &mut lingering);
        let moved = live.remove(at);
        lingering.push(moved);
        proof {
            lemma_remove_is_without(old(self)@.live, at as int);
            assert(texts(live@) =~= old(self)@.live.remove(at as int));
            assert(texts(lingering@) =~= old(self)@.lingering.push(peer@));
        }
        *self = ConnectionRegistry { live, lingering };
        true
    }

    /// The peers that take broadcast writes, in the order they connected.
    pub fn targets(&self) -> (list: Vec<String>)
        ensures
            texts(list@) == self@.live,
    {
        let mut list: Vec<String> = Vec::new();
        let mut i: usize = 0;
        while i < self.live.len()
            invariant
                0 <= i <= self.live.len(),
                list.len() == i,
                forall|j: int| 0 <= j < i ==> list[j]@ == self.live[j]@,
            decreases self.live.len() - i,
        {
            let peer = self.live[i].clone();
            list.push(peer);
            i = i + 1;
        }
        assert(texts(list@) =~= texts(self.live@));
        list
    }
}

} // verus!
