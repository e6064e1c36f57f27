//! What holds of a broadcast node over any course of events.

use crate::gossip::{
    known_to, step_emitted, step_failure, step_state, NodeState, PayloadView,
};
use crate::envelope::{EventView, InjectedPayload, MessageView};
use vstd::prelude::*;

verus! {

/// An event of the broadcast protocol.
pub type BroadcastEvent = EventView<PayloadView, InjectedPayload>;

/// The state after a course of events, where the node gives up on none.
pub open spec fn after(st: NodeState, events: Seq<BroadcastEvent>) -> Option<NodeState>
    decreases events.len(),
{
    if events.len() == 0 {
        Some(st)
    } else {
        match after(st, events.drop_last()) {
            Some(mid) => if step_failure(mid, events.last()) is None {
                Some(step_state(mid, events.last()))
            } else {
                None
            },
            None => None,
        }
    }
}

/// Whether `event` delivers a broadcast of `value`.
pub open spec fn delivers(event: BroadcastEvent, value: usize) -> bool {
    event matches EventView::Message(m) && m.body.payload == (PayloadView::Broadcast {
        message: value,
    })
}

/// Whether `event` delivers gossip.
pub open spec fn is_gossip(event: BroadcastEvent) -> bool {
    event matches EventView::Message(m) && m.body.payload is Gossip
}

/// The values that a course of events broadcasts.
pub open spec fn broadcast_values(events: Seq<BroadcastEvent>) -> Set<usize> {
    Set::new(|value: usize| exists|i: int| 0 <= i < events.len() && delivers(#[trigger] events[i], value))
}

/// After any course of events without gossip, the node has seen what it had
/// seen before and the values that were broadcast, each once: whatever the
/// order of the broadcasts, however often a value comes, and whatever reads,
/// topologies, answers, ticks or end of input come between them.
pub proof fn lemma_broadcasts_collect(st: NodeState, events: Seq<BroadcastEvent>)
    requires
        forall|i: int| 0 <= i < events.len() ==> !is_gossip(#[trigger] events[i]),
        after(st, events) is Some,
    ensures
        after(st, events)->Some_0.messages == st.messages.union(broadcast_values(events)),
    decreases events.len(),
{
    if events.len() == 0 {
        assert(broadcast_values(events) =~= Set::<usize>::empty());
        assert(st.messages.union(broadcast_values(events)) =~= st.messages);
    } else {
        let earlier = events.drop_last();
        let last = events.last();
        assert forall|i: int| 0 <= i < earlier.len() implies !is_gossip(#[trigger] earlier[i]) by {
            assert(earlier[i] == events[i]);
        }
        lemma_broadcasts_collect(st, earlier);
        assert(!is_gossip(last));
        let mid = after(st, earlier)->Some_0;
        let end = step_state(mid, last);
        assert forall|v: usize| broadcast_values(events).contains(v) <==> (broadcast_values(
            earlier,
        ).contains(v) || delivers(last, v)) by {
            if broadcast_values(events).contains(v) {
                let i = choose|i: int| 0 <= i < events.len() && delivers(#[trigger] events[i], v);
                if i < earlier.len() {
                    assert(delivers(earlier[i], v));
                }
            }
            if broadcast_values(earlier).contains(v) {
                let i = choose|i: int| 0 <= i < earlier.len() && delivers(#[trigger] earlier[i], v);
                assert(delivers(events[i], v));
            }
            if delivers(last, v) {
                assert(delivers(events[events.len() - 1], v));
            }
        }
        assert(after(st, events) == Some(end));
        assert(mid.messages == st.messages.union(broadcast_values(earlier)));
        assert forall|v: usize| end.messages.contains(v) <==> (st.messages.contains(v)
            || broadcast_values(events).contains(v)) by {
            assert(end.messages.contains(v) <==> (mid.messages.contains(v) || delivers(last, v)));
            assert(mid.messages.contains(v) <==> (st.messages.contains(v) || broadcast_values(
                earlier,
            ).contains(v)));
        }
        assert(end.messages =~= st.messages.union(broadcast_values(events)));
    }
}

/// Two courses of events without gossip that broadcast the same values leave
/// the same values seen, whatever their order and however often each value
/// comes.
pub proof fn lemma_broadcast_order(
    st: NodeState,
    first: Seq<BroadcastEvent>,
    second: Seq<BroadcastEvent>,
)
    requires
        forall|i: int| 0 <= i < first.len() ==> !is_gossip(#[trigger] first[i]),
        forall|i: int| 0 <= i < second.len() ==> !is_gossip(#[trigger] second[i]),
        broadcast_values(first) == broadcast_values(second),
        after(st, first) is Some,
        after(st, second) is Some,
    ensures
        after(st, first)->Some_0.messages == after(st, second)->Some_0.messages,
{
    lemma_broadcasts_collect(st, first);
    lemma_broadcasts_collect(st, second);
}

/// Gossip only adds: the node has seen what it had seen and what is gossiped,
/// and the sender is known to hold what it was known to hold and what it
/// gossiped. No other record changes, and nothing is sent.
pub proof fn lemma_gossip_adds(st: NodeState, gossip: MessageView<PayloadView>)
    requires
        gossip.body.payload is Gossip,
    ensures
        ({
            let seen = gossip.body.payload->Gossip_seen;
            let end = step_state(st, EventView::Message(gossip));
            &&& step_failure(st, EventView::Message(gossip)) is None
            &&& end.messages == st.messages.union(seen)
            &&& known_to(end, gossip.src) == known_to(st, gossip.src).union(seen)
            &&& forall|peer: Seq<char>| peer != gossip.src ==> known_to(end, peer) == known_to(st, peer)
            &&& step_emitted(st, EventView::Message(gossip)).len() == 0
        }),
{
}

/// Gossip that comes twice leaves the state that it leaves when it comes
/// once.
pub proof fn lemma_gossip_twice(st: NodeState, gossip: MessageView<PayloadView>)
    requires
        gossip.body.payload is Gossip,
    ensures
        step_state(step_state(st, EventView::Message(gossip)), EventView::Message(gossip))
            == step_state(st, EventView::Message(gossip)),
{
    let seen = gossip.body.payload->Gossip_seen;
    let once = step_state(st, EventView::Message(gossip));
    let twice = step_state(once, EventView::Message(gossip));
    assert(twice.messages =~= once.messages);
    assert(known_to(once, gossip.src).union(seen) =~= known_to(once, gossip.src));
    assert(twice.known =~= once.known);
}

/// Gossip from two nodes leaves the same state in either order.
pub proof fn lemma_gossip_commutes(
    st: NodeState,
    first: MessageView<PayloadView>,
    second: MessageView<PayloadView>,
)
    requires
        first.body.payload is Gossip,
        second.body.payload is Gossip,
    ensures
        step_state(step_state(st, EventView::Message(first)), EventView::Message(second))
            == step_state(step_state(st, EventView::Message(second)), EventView::Message(first)),
{
    let a = step_state(step_state(st, EventView::Message(first)), EventView::Message(second));
    let b = step_state(step_state(st, EventView::Message(second)), EventView::Message(first));
    assert(a.messages =~= b.messages);
    let x = first.body.payload->Gossip_seen;
    let y = second.body.payload->Gossip_seen;
    if first.src == second.src {
        assert(known_to(st, first.src).union(x).union(y) =~= known_to(st, first.src).union(
            y,
        ).union(x));
    }
    assert(a.known =~= b.known);
}

/// A broadcast that comes again adds nothing to what the node has seen.
pub proof fn lemma_broadcast_twice(st: NodeState, request: MessageView<PayloadView>)
    requires
        request.body.payload is Broadcast,
    ensures
        step_state(step_state(st, EventView::Message(request)), EventView::Message(request)).messages
            == step_state(st, EventView::Message(request)).messages,
{
    let once = step_state(st, EventView::Message(request));
    let twice = step_state(once, EventView::Message(request));
    assert(twice.messages =~= once.messages);
}

/// No event takes away: what the node has seen, and what each node is known
/// to hold, stays; the next id does not go back; only a topology changes the
/// neighbours; the node keeps its name.
pub proof fn lemma_step_keeps(st: NodeState, event: BroadcastEvent)
    requires
        step_failure(st, event) is None,
    ensures
        ({
            let end = step_state(st, event);
            &&& st.messages.subset_of(end.messages)
            &&& forall|peer: Seq<char>| known_to(st, peer).subset_of(#[trigger] known_to(end, peer))
            &&& st.next_id <= end.next_id
            &&& end.node_id == st.node_id
            &&& !(event matches EventView::Message(m) && m.body.payload is Topology)
                ==> end.neighbours == st.neighbours
        }),
{
}

/// Every answer carries an id that no earlier answer of the node carried:
/// the id is the node's next id, and the next id moves past it.
pub proof fn lemma_answer_ids_grow(st: NodeState, event: BroadcastEvent)
    requires
        step_failure(st, event) is None,
    ensures
        forall|i: int|
            0 <= i < step_emitted(st, event).len() ==> ((#[trigger] step_emitted(
                st,
                event,
            )[i]).body.id matches Some(id) ==> st.next_id <= id < step_state(st, event).next_id),
{
    match event {
        EventView::Message(m) => {},
        EventView::Injected(payload) => {
            lemma_round_has_no_ids(st, st.neighbours.len() as int);
        },
        EventView::EOF => {},
    }
}

/// The messages of a gossip round carry no id.
pub proof fn lemma_round_has_no_ids(st: NodeState, upto: int)
    ensures
        forall|i: int|
            0 <= i < crate::gossip::round(st, upto).len() ==> (#[trigger] crate::gossip::round(
                st,
                upto,
            )[i]).body.id is None,
    decreases upto,
{
    if upto > 0 {
        lemma_round_has_no_ids(st, upto - 1);
    }
}

} // verus!
