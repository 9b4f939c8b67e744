//! Laws of the state machine: what holds across several events.

use crate::address::AddressView;
use crate::event::{ActionView, EventView};
use crate::model::{lemma_run_keeps_wf, lemma_step_keeps_wf, ServerView};
use crate::payload::{
    lemma_padding_is_stripped, lemma_payload_cut_at_first_zero, padded, payload_of,
};
use crate::registry::{lemma_registry_steps, RegistryView};
use crate::types::{Phase, SocketServerErrorType};
use vstd::prelude::*;

verus! {

/// `count` polls of the broadcast channel in a row.
pub open spec fn polls(count: nat) -> Seq<EventView> {
    Seq::new(count, |i: int| EventView::Poll)
}

/// The broadcast that writes `payload` to every live client of `s`.
pub open spec fn broadcast_to_all(s: ServerView, payload: Seq<u8>) -> ActionView {
    ActionView::Broadcast { payload, targets: s.registry.live }
}

/// Payloads leave the channel in the order in which they entered it, and
/// each is written to every live client: polling `count` times takes the
/// first `count` payloads off the queue, one broadcast each, in queue order.
pub proof fn lemma_polls_follow_the_queue(s: ServerView, count: nat)
    requires
        s.listening(),
        count <= s.queue.len(),
    ensures
        s.run(polls(count)).0 == (ServerView { queue: s.queue.skip(count as int), ..s }),
        s.run(polls(count)).1 == Seq::new(count, |i: int| broadcast_to_all(s, s.queue[i])),
    decreases count,
{
    if count == 0 {
        assert(s.queue.skip(0) =~= s.queue);
        assert(s.run(polls(count)).1 =~= Seq::new(
            count,
            |i: int| broadcast_to_all(s, s.queue[i]),
        ));
    } else {
        let fewer = (count - 1) as nat;
        lemma_polls_follow_the_queue(s, fewer);
        assert(polls(count).drop_last() =~= polls(fewer));
        let (before, earlier) = s.run(polls(fewer));
        assert(before.queue[0] == s.queue[fewer as int]);
        assert(before.queue.drop_first() =~= s.queue.skip(count as int));
        assert(s.run(polls(count)).1 =~= Seq::new(
            count,
            |i: int| broadcast_to_all(s, s.queue[i]),
        ));
    }
}

/// Fan-out is complete: what a connected client sends is queued as it was
/// sent, without its padding, and once the payloads queued before it have
/// gone out, the next poll writes it to every live client, the sender
/// included when it is live.
pub proof fn lemma_fan_out_complete(s: ServerView, sender: Seq<char>, buffer: Seq<u8>)
    requires
        s.listening(),
        s.registry.tracks(sender),
    ensures
        ({
            let (received, notice) = s.step(EventView::Data { peer: sender, buffer });
            let drained = received.run(polls(s.queue.len())).0;
            &&& notice == seq![ActionView::Receive { peer: sender, payload: payload_of(buffer) }]
            &&& received.queue == s.queue.push(payload_of(buffer))
            &&& received.registry == s.registry
            &&& drained.step(EventView::Poll).1 == seq![broadcast_to_all(s, payload_of(buffer))]
        }),
{
    let received = s.step(EventView::Data { peer: sender, buffer }).0;
    lemma_polls_follow_the_queue(received, s.queue.len());
    let drained = received.run(polls(s.queue.len())).0;
    assert(drained.queue[0] == payload_of(buffer));
}

/// Payloads are broadcast in the order in which they were received: of two
/// payloads that arrive one after the other, the first goes out one poll
/// before the second, each to every live client.
pub proof fn lemma_broadcast_keeps_order(
    s: ServerView,
    first_peer: Seq<char>,
    first: Seq<u8>,
    second_peer: Seq<char>,
    second: Seq<u8>,
)
    requires
        s.listening(),
        s.registry.tracks(first_peer),
        s.registry.tracks(second_peer),
    ensures
        ({
            let received = s.step(EventView::Data { peer: first_peer, buffer: first }).0.step(
                EventView::Data { peer: second_peer, buffer: second },
            ).0;
            let written = received.run(polls((s.queue.len() + 2) as nat)).1;
            &&& written.len() == s.queue.len() + 2
            &&& written[s.queue.len() as int] == broadcast_to_all(s, payload_of(first))
            &&& written[s.queue.len() as int + 1] == broadcast_to_all(s, payload_of(second))
        }),
{
    let received = s.step(EventView::Data { peer: first_peer, buffer: first }).0.step(
        EventView::Data { peer: second_peer, buffer: second },
    ).0;
    lemma_polls_follow_the_queue(received, (s.queue.len() + 2) as nat);
}

/// The peers for which, going by a log of actions, the new-client handler
/// was told and the disconnect handler was not told since.
pub open spec fn announced(log: Seq<ActionView>) -> Set<Seq<char>>
    decreases log.len(),
{
    if log.len() == 0 {
        Set::empty()
    } else {
        let before = announced(log.drop_last());
        match log.last() {
            ActionView::NewClient(peer) => before.insert(peer),
            ActionView::Disconnect(peer) => before.remove(peer),
            _ => before,
        }
    }
}

/// One event changes the connected peers exactly as its actions tell the
/// handlers.
proof fn lemma_step_is_announced(s: ServerView, event: EventView, log: Seq<ActionView>)
    requires
        s.wf(),
        s.registry.connected() == announced(log),
    ensures
        s.step(event).0.registry.connected() == announced(log + s.step(event).1),
{
    let (after, actions) = s.step(event);
    let full = log + actions;
    if actions.len() == 0 {
        assert(full =~= log);
    } else if actions.len() == 1 {
        assert(full.drop_last() =~= log);
        assert(full.last() == actions[0]);
    } else {
        let middle = log.push(actions[0]);
        assert(middle.drop_last() =~= log);
        assert(middle.last() == actions[0]);
        assert(announced(middle) == announced(log));
        assert(full.drop_last() =~= middle);
        assert(full.last() == actions[1]);
    }
    match event {
        EventView::Accepted(remote) => {
            lemma_registry_steps(s.registry, s.peer_text(remote));
            if s.listening() && s.admits(remote) {
                assert(announced(full) == announced(log).insert(s.peer_text(remote)));
            } else {
                assert(announced(full) == announced(log));
            }
        },
        EventView::ReadFailed(peer) => {
            lemma_registry_steps(s.registry, peer);
            if s.listening() && s.registry.tracks(peer) {
                assert(announced(full) == announced(log).remove(peer));
            } else {
                assert(announced(full) == announced(log));
            }
        },
        EventView::WriteFailed(peer) => {
            lemma_registry_steps(s.registry, peer);
            assert(announced(full) == announced(log));
        },
        _ => {
            assert(announced(full) == announced(log));
        },
    }
    assert(after.registry.connected() =~= announced(log + actions));
}

/// The registry is consistent with what the handlers were told: after any
/// run of events on a server that started without peers, the connected
/// peers are exactly those for which the new-client handler was told and
/// the disconnect handler was not told since; and every peer that takes
/// broadcast writes is among them.
pub proof fn lemma_registry_matches_announcements(s: ServerView, events: Seq<EventView>)
    requires
        s.wf(),
        s.registry == RegistryView::empty(),
    ensures
        s.run(events).0.registry.connected() == announced(s.run(events).1),
        forall|peer: Seq<char>| #[trigger]
            s.run(events).0.registry.live.contains(peer) ==> announced(s.run(events).1).contains(
                peer,
            ),
    decreases events.len(),
{
    if events.len() == 0 {
        assert(s.registry.connected() =~= Set::empty());
    } else {
        lemma_registry_matches_announcements(s, events.drop_last());
        lemma_run_keeps_wf(s, events.drop_last());
        let (before, earlier) = s.run(events.drop_last());
        lemma_step_is_announced(before, events.last(), earlier);
    }
    let end = s.run(events).0;
    assert forall|peer: Seq<char>| #[trigger] end.registry.live.contains(peer) implies announced(
        s.run(events).1,
    ).contains(peer) by {
        assert(end.registry.tracks(peer));
        assert(end.registry.connected().contains(peer));
    }
}

/// The payloads that a log of actions hands to the receive handler, in order.
pub open spec fn received_payloads(log: Seq<ActionView>) -> Seq<Seq<u8>>
    decreases log.len(),
{
    if log.len() == 0 {
        Seq::empty()
    } else {
        match log.last() {
            ActionView::Receive { payload, .. } => received_payloads(log.drop_last()).push(
                payload,
            ),
            _ => received_payloads(log.drop_last()),
        }
    }
}

/// The payloads that a log of actions writes to the clients, in order.
pub open spec fn written_payloads(log: Seq<ActionView>) -> Seq<Seq<u8>>
    decreases log.len(),
{
    if log.len() == 0 {
        Seq::empty()
    } else {
        match log.last() {
            ActionView::Broadcast { payload, .. } => written_payloads(log.drop_last()).push(
                payload,
            ),
            _ => written_payloads(log.drop_last()),
        }
    }
}

/// One event keeps the order of the channel.
proof fn lemma_step_keeps_order(
    s: ServerView,
    event: EventView,
    log: Seq<ActionView>,
    start: Seq<Seq<u8>>,
)
    requires
        written_payloads(log) + s.queue == start + received_payloads(log),
    ensures
        written_payloads(log + s.step(event).1) + s.step(event).0.queue == start
            + received_payloads(log + s.step(event).1),
{
    let (after, actions) = s.step(event);
    let full = log + actions;
    if actions.len() == 0 {
        assert(full =~= log);
    } else if actions.len() == 1 {
        assert(full.drop_last() =~= log);
        assert(full.last() == actions[0]);
    } else {
        let middle = log.push(actions[0]);
        assert(middle.drop_last() =~= log);
        assert(middle.last() == actions[0]);
        assert(written_payloads(middle) == written_payloads(log));
        assert(received_payloads(middle) == received_payloads(log));
        assert(full.drop_last() =~= middle);
        assert(full.last() == actions[1]);
    }
    let written = written_payloads(log);
    let received = received_payloads(log);
    match event {
        EventView::Data { peer, buffer } => {
            if s.listening() && s.registry.tracks(peer) {
                assert(written + s.queue.push(payload_of(buffer)) =~= (written + s.queue).push(
                    payload_of(buffer),
                ));
                assert(start + received.push(payload_of(buffer)) =~= (start + received).push(
                    payload_of(buffer),
                ));
            }
        },
        EventView::Poll => {
            if s.listening() && s.queue.len() > 0 {
                assert(written.push(s.queue[0]) + s.queue.drop_first() =~= written + s.queue);
            }
        },
        _ => {},
    }
}

/// The channel keeps its order under every run of events: what was written
/// to the clients, followed by what still waits, is what waited at first,
/// followed by what was received since. Nothing is lost, doubled or
/// reordered once it has entered the channel.
pub proof fn lemma_channel_keeps_order(s: ServerView, events: Seq<EventView>)
    ensures
        written_payloads(s.run(events).1) + s.run(events).0.queue == s.queue + received_payloads(
            s.run(events).1,
        ),
    decreases events.len(),
{
    if events.len() == 0 {
        assert(Seq::<Seq<u8>>::empty() + s.queue =~= s.queue + Seq::<Seq<u8>>::empty());
    } else {
        lemma_channel_keeps_order(s, events.drop_last());
        let (before, earlier) = s.run(events.drop_last());
        lemma_step_keeps_order(before, events.last(), earlier, s.queue);
    }
}

/// Every broadcast goes to the peers that are live when it is written, and
/// a receive notice names a connected peer: at each step of a run, the
/// actions of the step speak of the registry as it stands before the step.
pub proof fn lemma_actions_follow_the_registry(s: ServerView, events: Seq<EventView>, at: int)
    requires
        0 <= at < events.len(),
    ensures
        ({
            let before = s.run(events.take(at)).0;
            let actions = before.step(events[at]).1;
            forall|i: int|
                0 <= i < actions.len() ==> match #[trigger] actions[i] {
                    ActionView::Broadcast { targets, .. } => targets == before.registry.live,
                    ActionView::Receive { peer, .. } => before.registry.tracks(peer),
                    ActionView::Disconnect(peer) => before.registry.tracks(peer),
                    _ => true,
                }
        }),
{
}

/// Within one connection the new-client notice comes first and the
/// disconnect notice last: on a server that started without peers, a
/// receive or disconnect notice names a peer that was announced and not
/// announced as disconnected before, and a broadcast is written to such
/// peers only.
pub proof fn lemma_notices_come_in_order(s: ServerView, events: Seq<EventView>, at: int)
    requires
        s.wf(),
        s.registry == RegistryView::empty(),
        0 <= at < events.len(),
    ensures
        ({
            let (before, earlier) = s.run(events.take(at));
            let actions = before.step(events[at]).1;
            forall|i: int|
                0 <= i < actions.len() ==> match #[trigger] actions[i] {
                    ActionView::Broadcast { targets, .. } => forall|peer: Seq<char>|
                        targets.contains(peer) ==> announced(earlier).contains(peer),
                    ActionView::Receive { peer, .. } => announced(earlier).contains(peer),
                    ActionView::Disconnect(peer) => announced(earlier).contains(peer),
                    _ => true,
                }
        }),
{
    lemma_registry_matches_announcements(s, events.take(at));
    lemma_actions_follow_the_registry(s, events, at);
    let (before, earlier) = s.run(events.take(at));
    let actions = before.step(events[at]).1;
    assert forall|i: int| 0 <= i < actions.len() implies match #[trigger] actions[i] {
        ActionView::Broadcast { targets, .. } => forall|peer: Seq<char>|
            targets.contains(peer) ==> announced(earlier).contains(peer),
        ActionView::Receive { peer, .. } => announced(earlier).contains(peer),
        ActionView::Disconnect(peer) => announced(earlier).contains(peer),
        _ => true,
    } by {
        match actions[i] {
            ActionView::Receive { peer, .. } => {
                assert(before.registry.connected().contains(peer));
            },
            ActionView::Disconnect(peer) => {
                assert(before.registry.connected().contains(peer));
            },
            _ => {},
        }
    }
}

/// How often `action` stands in a log of actions.
pub open spec fn occurrences(log: Seq<ActionView>, action: ActionView) -> nat
    decreases log.len(),
{
    if log.len() == 0 {
        0
    } else {
        occurrences(log.drop_last(), action) + if log.last() == action {
            1nat
        } else {
            0nat
        }
    }
}

/// Whether no broadcast in a log of actions has `peer` among its targets.
pub open spec fn never_writes_to(log: Seq<ActionView>, peer: Seq<char>) -> bool {
    forall|i: int|
        0 <= i < log.len() ==> !(#[trigger] log[i] matches ActionView::Broadcast { targets, .. }
            && targets.contains(peer))
}

/// Whether no event of a run is a new connection that `s` would show as `peer`.
pub open spec fn no_connection_from(
    s: ServerView,
    events: Seq<EventView>,
    peer: Seq<char>,
) -> bool {
    forall|i: int|
        0 <= i < events.len() ==> !(#[trigger] events[i] matches EventView::Accepted(remote)
            && s.peer_text(remote) == peer)
}

/// Occurrences add up over two logs in a row.
pub proof fn lemma_occurrences_add(
    first: Seq<ActionView>,
    second: Seq<ActionView>,
    action: ActionView,
)
    ensures
        occurrences(first + second, action) == occurrences(first, action) + occurrences(
            second,
            action,
        ),
    decreases second.len(),
{
    if second.len() == 0 {
        assert(first + second =~= first);
    } else {
        lemma_occurrences_add(first, second.drop_last(), action);
        assert((first + second).drop_last() =~= first + second.drop_last());
    }
}

/// Occurrences in a log of at most two actions, counted entry by entry.
proof fn lemma_occurrences_short(log: Seq<ActionView>, action: ActionView)
    requires
        log.len() <= 2,
    ensures
        occurrences(log, action) == (if log.len() >= 1 && log[0] == action {
            1nat
        } else {
            0nat
        }) + (if log.len() == 2 && log[1] == action {
            1nat
        } else {
            0nat
        }),
{
    let none = Seq::<ActionView>::empty();
    assert(occurrences(none, action) == 0);
    if log.len() == 1 {
        assert(log.drop_last() =~= none);
    } else if log.len() == 2 {
        let one = log.drop_last();
        assert(one.drop_last() =~= none);
        assert(one.last() == log[0]);
        assert(occurrences(one, action) == if log[0] == action {
            1nat
        } else {
            0nat
        });
    }
}

/// A peer that is not connected stays out of everything until it connects
/// anew: no event tells the disconnect handler about it, no broadcast is
/// written to it, and it stays unconnected.
pub proof fn lemma_gone_stays_gone(s: ServerView, peer: Seq<char>, events: Seq<EventView>)
    requires
        s.wf(),
        !s.registry.tracks(peer),
        no_connection_from(s, events, peer),
    ensures
        occurrences(s.run(events).1, ActionView::Disconnect(peer)) == 0,
        never_writes_to(s.run(events).1, peer),
        !s.run(events).0.registry.tracks(peer),
    decreases events.len(),
{
    if events.len() > 0 {
        let front = events.drop_last();
        assert(no_connection_from(s, front, peer)) by {
            assert forall|i: int| 0 <= i < front.len() implies !(#[trigger] front[i] matches
                EventView::Accepted(remote) && s.peer_text(remote) == peer) by {
                assert(front[i] == events[i]);
            }
        }
        lemma_gone_stays_gone(s, peer, front);
        lemma_run_keeps_wf(s, front);
        let (before, earlier) = s.run(front);
        let event = events.last();
        let (after, last) = before.step(event);
        assert(event == events[events.len() - 1]);
        match event {
            EventView::Accepted(remote) => {
                assert(before.peer_text(remote) == s.peer_text(remote));
                lemma_registry_steps(before.registry, before.peer_text(remote));
            },
            EventView::ReadFailed(other) => {
                lemma_registry_steps(before.registry, other);
            },
            EventView::WriteFailed(other) => {
                lemma_registry_steps(before.registry, other);
            },
            _ => {},
        }
        assert(!after.registry.tracks(peer));
        lemma_occurrences_short(last, ActionView::Disconnect(peer));
        lemma_occurrences_add(earlier, last, ActionView::Disconnect(peer));
        assert(never_writes_to(earlier + last, peer)) by {
            assert forall|i: int| 0 <= i < (earlier + last).len() implies !(#[trigger] (earlier
                + last)[i] matches ActionView::Broadcast { targets, .. } && targets.contains(
                peer,
            )) by {
                if i < earlier.len() {
                    assert((earlier + last)[i] == earlier[i]);
                } else {
                    assert((earlier + last)[i] == last[i - earlier.len()]);
                }
            }
        }
    }
}

/// A disconnect is told exactly once: when a read fails on a connected
/// peer, the disconnect handler is told once, and from then on, until a
/// new connection shows under the same address, it is not told again, no
/// broadcast is written to the peer, and the peer stays unconnected.
pub proof fn lemma_disconnect_exactly_once(s: ServerView, peer: Seq<char>, later: Seq<EventView>)
    requires
        s.wf(),
        s.listening(),
        s.registry.tracks(peer),
        no_connection_from(s, later, peer),
    ensures
        ({
            let (closed, first) = s.step(EventView::ReadFailed(peer));
            let (end, rest) = closed.run(later);
            &&& first == seq![
                ActionView::Error(SocketServerErrorType::Communication),
                ActionView::Disconnect(peer),
            ]
            &&& occurrences(first + rest, ActionView::Disconnect(peer)) == 1
            &&& never_writes_to(rest, peer)
            &&& !end.registry.tracks(peer)
        }),
{
    let (closed, first) = s.step(EventView::ReadFailed(peer));
    lemma_step_keeps_wf(s, EventView::ReadFailed(peer));
    lemma_registry_steps(s.registry, peer);
    assert(no_connection_from(closed, later, peer)) by {
        assert forall|i: int| 0 <= i < later.len() implies !(#[trigger] later[i] matches
            EventView::Accepted(remote) && closed.peer_text(remote) == peer) by {
            match later[i] {
                EventView::Accepted(remote) => {
                    assert(closed.peer_text(remote) == s.peer_text(remote));
                },
                _ => {},
            }
        }
    }
    lemma_gone_stays_gone(closed, peer, later);
    let rest = closed.run(later).1;
    lemma_occurrences_add(first, rest, ActionView::Disconnect(peer));
    lemma_occurrences_short(first, ActionView::Disconnect(peer));
}

/// `start` waits for a configuration: without one it returns `false`,
/// changes nothing and asks for no listener.
pub proof fn lemma_start_needs_configuration(s: ServerView)
    requires
        s.wf(),
        !s.defined,
    ensures
        s.start() == (s, false),
        s.start().0.phase == Phase::Stopped,
        !s.start().0.started,
{
}

/// A failed bind is reported and ends the start: the error handler is told
/// a connection error, the server is stopped and not started, and the
/// broadcast channel does not exist, so `send` is refused.
pub proof fn lemma_failed_bind_is_reported(s: ServerView, payload: Seq<u8>)
    requires
        s.wf(),
        s.phase == Phase::Binding,
    ensures
        ({
            let (failed, actions) = s.step(EventView::BindFailed);
            &&& actions == seq![ActionView::Error(SocketServerErrorType::Connection)]
            &&& failed.phase == Phase::Stopped
            &&& !failed.started
            &&& failed.send(payload) == (failed, false)
        }),
{
}

/// The receiver observes what was sent: a payload without a zero byte that
/// fits the receive buffer arrives padded, and is handed to the receive
/// handler and queued for broadcast exactly as it was sent.
pub proof fn lemma_receiver_observes_the_payload(
    s: ServerView,
    sender: Seq<char>,
    payload: Seq<u8>,
)
    requires
        s.listening(),
        s.registry.tracks(sender),
        payload.len() <= s.buffer_size,
        forall|i: int| 0 <= i < payload.len() ==> payload[i] != 0,
    ensures
        ({
            let buffer = padded(payload, s.buffer_size);
            let (received, notice) = s.step(EventView::Data { peer: sender, buffer });
            &&& notice == seq![ActionView::Receive { peer: sender, payload }]
            &&& received.queue == s.queue.push(payload)
        }),
{
    lemma_padding_is_stripped(payload, s.buffer_size);
}

/// The receiver observes a payload up to its first zero byte: when that
/// byte stands at position `at`, the receive handler and the broadcast get
/// the `at` bytes before it.
pub proof fn lemma_receiver_observes_up_to_the_first_zero(
    s: ServerView,
    sender: Seq<char>,
    payload: Seq<u8>,
    at: int,
)
    requires
        s.listening(),
        s.registry.tracks(sender),
        payload.len() <= s.buffer_size,
        0 <= at < payload.len(),
        payload[at] == 0,
        forall|i: int| 0 <= i < at ==> payload[i] != 0,
    ensures
        ({
            let buffer = padded(payload, s.buffer_size);
            let (received, notice) = s.step(EventView::Data { peer: sender, buffer });
            &&& notice == seq![ActionView::Receive { peer: sender, payload: payload.take(at) }]
            &&& received.queue == s.queue.push(payload.take(at))
        }),
{
    lemma_payload_cut_at_first_zero(payload, at, s.buffer_size);
}

/// Whether no event of a run is a failed write.
pub open spec fn no_write_failure(events: Seq<EventView>) -> bool {
    forall|i: int| 0 <= i < events.len() ==> !(#[trigger] events[i] is WriteFailed)
}

/// As long as no write fails, the peers that take broadcast writes are
/// exactly the connected peers.
pub proof fn lemma_live_peers_are_the_connected(s: ServerView, events: Seq<EventView>)
    requires
        s.wf(),
        s.registry.lingering.len() == 0,
        no_write_failure(events),
    ensures
        s.run(events).0.registry.lingering.len() == 0,
        forall|peer: Seq<char>|
            s.run(events).0.registry.tracks(peer) <==> s.run(events).0.registry.live.contains(
                peer,
            ),
    decreases events.len(),
{
    if events.len() > 0 {
        let front = events.drop_last();
        assert(no_write_failure(front)) by {
            assert forall|i: int| 0 <= i < front.len() implies !(#[trigger] front[i]
                is WriteFailed) by {
                assert(front[i] == events[i]);
            }
        }
        lemma_live_peers_are_the_connected(s, front);
        assert(!(events[events.len() - 1] is WriteFailed));
    }
}

/// The last configuration wins, and setting the same one twice is the
/// same as setting it once.
pub proof fn lemma_last_configuration_wins(s: ServerView, first: AddressView, last: AddressView)
    ensures
        s.configure(first).configure(last) == s.configure(last),
        s.configure(last).configure(last) == s.configure(last),
{
}

} // verus!
