//! Gossip broadcast: every value broadcast to any node reaches every node.
//!
//! A node keeps the values it has seen and, for each other node, the values
//! it knows that node to hold. On every tick it sends each neighbour what the
//! neighbour is not known to hold. What a neighbour sends, it holds.

use crate::envelope::{
    answer, views, Body, BodyView, Event, EventView, Init, InitView, InjectedPayload, Message,
    MessageView, Timer,
};
use crate::names::NameMap;
use crate::node::{Node, NodeError};
use crate::sets::{absorb, copy, difference, lemma_take_one_more};
use std::collections::HashSet;
use vstd::prelude::*;

verus! {

broadcast use vstd::std_specs::hash::group_hash_axioms;

/// The period of the gossip rounds, in milliseconds.
pub const GOSSIP_PERIOD_MS: u64 = 500;

/// The messages of the broadcast protocol.
#[derive(Debug)]
pub enum Payload {
    Broadcast { message: usize },
    BroadcastOk,
    Read,
    ReadOk { messages: HashSet<usize> },
    Topology { topology: NameMap<Vec<String>> },
    TopologyOk,
    Gossip { seen: HashSet<usize> },
}

/// The view of a [`Payload`].
pub enum PayloadView {
    Broadcast { message: usize },
    BroadcastOk,
    Read,
    ReadOk { messages: Set<usize> },
    Topology { topology: Map<Seq<char>, Seq<Seq<char>>> },
    TopologyOk,
    Gossip { seen: Set<usize> },
}

/// The neighbours that a topology gives each node.
pub open spec fn topology_view(topology: Map<Seq<char>, Vec<String>>) -> Map<
    Seq<char>,
    Seq<Seq<char>>,
> {
    topology.map_values(|names: Vec<String>| names.deep_view())
}

impl View for Payload {
    type V = PayloadView;

    open spec fn view(&self) -> PayloadView {
        match self {
            Payload::Broadcast { message } => PayloadView::Broadcast { message: *message },
            Payload::BroadcastOk => PayloadView::BroadcastOk,
            Payload::Read => PayloadView::Read,
            Payload::ReadOk { messages } => PayloadView::ReadOk { messages: messages@ },
            Payload::Topology { topology } => PayloadView::Topology {
                topology: topology_view(topology@),
            },
            Payload::TopologyOk => PayloadView::TopologyOk,
            Payload::Gossip { seen } => PayloadView::Gossip { seen: seen@ },
        }
    }
}

/// The state of a broadcast node.
pub struct NodeState {
    /// The node's own name.
    pub node_id: Seq<char>,
    /// The id that the node's next answer takes.
    pub next_id: usize,
    /// The values the node has seen.
    pub messages: Set<usize>,
    /// The nodes that the node gossips to.
    pub neighbours: Seq<Seq<char>>,
    /// For each node, the values that the node is known to hold.
    pub known: Map<Seq<char>, Set<usize>>,
}

/// The values that `peer` is known to hold: none, where nothing is recorded.
pub open spec fn known_to(st: NodeState, peer: Seq<char>) -> Set<usize> {
    if st.known.contains_key(peer) {
        st.known[peer]
    } else {
        Set::empty()
    }
}

/// The values that `peer` is not known to hold.
pub open spec fn news_for(st: NodeState, peer: Seq<char>) -> Set<usize> {
    st.messages.difference(known_to(st, peer))
}

/// The gossip message that tells `peer` what it is not known to hold.
pub open spec fn gossip_for(st: NodeState, peer: Seq<char>) -> MessageView<PayloadView> {
    MessageView {
        src: st.node_id,
        dst: peer,
        body: BodyView {
            id: None,
            in_reply_to: None,
            payload: PayloadView::Gossip { seen: news_for(st, peer) },
        },
    }
}

/// The messages of a gossip round to the first `upto` neighbours, in order:
/// one for each neighbour for which there is news.
pub open spec fn round(st: NodeState, upto: int) -> Seq<MessageView<PayloadView>>
    decreases upto,
{
    if upto <= 0 {
        Seq::empty()
    } else {
        let before = round(st, upto - 1);
        let peer = st.neighbours[upto - 1];
        if news_for(st, peer).is_empty() {
            before
        } else {
            before.push(gossip_for(st, peer))
        }
    }
}

/// The state a broadcast node starts in: nothing seen, no neighbours, and an
/// empty record for each node of the cluster.
pub open spec fn start(init: InitView) -> NodeState {
    NodeState {
        node_id: init.node_id,
        next_id: 1,
        messages: Set::empty(),
        neighbours: Seq::empty(),
        known: Map::new(
            |name: Seq<char>| init.node_ids.contains(name),
            |name: Seq<char>| Set::empty(),
        ),
    }
}

/// The state with the next message id taken.
pub open spec fn id_taken(st: NodeState) -> NodeState {
    NodeState { next_id: (st.next_id + 1) as usize, ..st }
}

/// Whether a message of this kind is answered.
pub open spec fn answered(payload: PayloadView) -> bool {
    payload is Broadcast || payload is Read || payload is Topology
}

/// Why a node in state `st` gives up on `event`, if it does: it has no id
/// left for an answer, or it is given a topology that does not name it.
pub open spec fn step_failure(st: NodeState, event: EventView<PayloadView, InjectedPayload>)
    -> Option<NodeError> {
    match event {
        EventView::Message(m) => {
            if answered(m.body.payload) && st.next_id == usize::MAX {
                Some(NodeError::IdsExhausted)
            } else {
                match m.body.payload {
                    PayloadView::Topology { topology } => {
                        if topology.contains_key(st.node_id) {
                            None
                        } else {
                            Some(NodeError::MissingTopology)
                        }
                    },
                    _ => None,
                }
            }
        },
        _ => None,
    }
}

/// The state after `event`. A value that is broadcast is seen. A topology
/// gives the neighbours. What a node gossips is seen, and the node is known
/// to hold it. Each answer takes an id. Nothing else changes the state.
pub open spec fn step_state(st: NodeState, event: EventView<PayloadView, InjectedPayload>)
    -> NodeState {
    match event {
        EventView::Message(m) => {
            match m.body.payload {
                PayloadView::Broadcast { message } => NodeState {
                    messages: st.messages.insert(message),
                    ..id_taken(st)
                },
                PayloadView::Read => id_taken(st),
                PayloadView::Topology { topology } => NodeState {
                    neighbours: topology[st.node_id],
                    ..id_taken(st)
                },
                PayloadView::Gossip { seen } => NodeState {
                    messages: st.messages.union(seen),
                    known: st.known.insert(m.src, known_to(st, m.src).union(seen)),
                    ..st
                },
                _ => st,
            }
        },
        _ => st,
    }
}

/// The messages sent on `event`, in order.
pub open spec fn step_emitted(st: NodeState, event: EventView<PayloadView, InjectedPayload>)
    -> Seq<MessageView<PayloadView>> {
    match event {
        EventView::Message(m) => {
            match m.body.payload {
                PayloadView::Broadcast { message } => seq![
                    answer(m, Some(st.next_id), PayloadView::BroadcastOk),
                ],
                PayloadView::Read => seq![
                    answer(m, Some(st.next_id), PayloadView::ReadOk { messages: st.messages }),
                ],
                PayloadView::Topology { topology } => seq![
                    answer(m, Some(st.next_id), PayloadView::TopologyOk),
                ],
                _ => Seq::empty(),
            }
        },
        EventView::Injected(InjectedPayload::Gossip) => round(st, st.neighbours.len() as int),
        EventView::EOF => Seq::empty(),
    }
}

/// A node of the broadcast protocol.
pub struct BroadcastNode {
    node_id: String,
    id: usize,
    messages: HashSet<usize>,
    neighbours: Vec<String>,
    known: NameMap<HashSet<usize>>,
}

impl View for BroadcastNode {
    type V = NodeState;

    closed spec fn view(&self) -> NodeState {
        NodeState {
            node_id: self.node_id@,
            next_id: self.id,
            messages: self.messages@,
            neighbours: self.neighbours.deep_view(),
            known: records(self.known@),
        }
    }
}

/// The record of what each node holds, as sets of values.
pub open spec fn records(known: Map<Seq<char>, HashSet<usize>>) -> Map<Seq<char>, Set<usize>> {
    known.map_values(|held: HashSet<usize>| held@)
}

/// A copy of a list of names.
pub fn clone_names(names: &Vec<String>) -> (same: Vec<String>)
    ensures
        same.deep_view() == names.deep_view(),
{
    let mut same: Vec<String> = Vec::new();
    let mut i: usize = 0;
    while i < names.len()
        invariant
            i <= names@.len(),
            same@.len() == i,
            forall|j: int| 0 <= j < i ==> (#[trigger] same@[j])@ == names@[j]@,
        decreases names@.len() - i,
    {
        same.push(names[i].clone());
        i += 1;
    }
    assert(same.deep_view() =~= names.deep_view());
    same
}

impl BroadcastNode {
    /// The node's own name.
    pub fn node_id(&self) -> (name: &String)
        ensures
            name@ == self@.node_id,
    {
        &self.node_id
    }

    /// The values the node has seen.
    pub fn messages(&self) -> (seen: &HashSet<usize>)
        ensures
            seen@ == self@.messages,
    {
        &self.messages
    }

    /// The nodes that the node gossips to.
    pub fn neighbours(&self) -> (names: &Vec<String>)
        ensures
            names.deep_view() == self@.neighbours,
    {
        &self.neighbours
    }

    /// The values that `peer` is known to hold, where anything is recorded.
    pub fn known(&self, peer: &String) -> (held: Option<&HashSet<usize>>)
        ensures
            match held {
                Some(values) => self@.known.contains_key(peer@) && values@ == self@.known[peer@],
                None => !self@.known.contains_key(peer@),
            },
    {
        self.known.get(peer)
    }

    /// Sends each neighbour, in order, the values it is not known to hold.
    fn gossip(&self, out: &mut Vec<Message<Payload>>)
        ensures
            views(final(out)@) == views(old(out)@) + round(self@, self@.neighbours.len() as int),
    {
        let ghost st = self@;
        let mut i: usize = 0;
        assert(views(out@) =~= views(old(out)@) + round(st, 0));
        while i < self.neighbours.len()
            invariant
                i <= self.neighbours@.len(),
                st == self@,
                st.neighbours.len() == self.neighbours@.len(),
                views(out@) == views(old(out)@) + round(st, i as int),
            decreases self.neighbours@.len() - i,
        {
            let peer = &self.neighbours[i];
            assert(st.neighbours[i as int] == peer@);
            let news = match self.known.get(peer) {
                Some(held) => difference(&self.messages, held),
                None => {
                    let all = copy(&self.messages);
                    assert(all@ =~= news_for(st, peer@));
                    all
                },
            };
            assert(news@ == news_for(st, peer@));
            if !news.is_empty() {
                let message = Message {
                    src: self.node_id.clone(),
                    dst: peer.clone(),
                    body: Body { id: None, in_reply_to: None, payload: Payload::Gossip { seen: news } },
                };
                assert(message@ == gossip_for(st, peer@));
                let ghost before = out@;
                out.push(message);
                assert(views(out@) =~= views(before).push(message@));
                assert(views(out@) =~= views(old(out)@) + round(st, i + 1));
            }
            i += 1;
        }
    }
}

impl Node<(), Payload, InjectedPayload> for BroadcastNode {
    open spec fn initial(state: (), init: InitView) -> Result<NodeState, NodeError> {
        Ok(start(init))
    }

    open spec fn wanted_timer(st: NodeState) -> Option<Timer<InjectedPayload>> {
        Some(Timer { period_ms: GOSSIP_PERIOD_MS, payload: InjectedPayload::Gossip })
    }

    open spec fn failure(st: NodeState, event: EventView<PayloadView, InjectedPayload>) -> Option<
        NodeError,
    > {
        step_failure(st, event)
    }

    open spec fn next(st: NodeState, event: EventView<PayloadView, InjectedPayload>) -> NodeState {
        step_state(st, event)
    }

    open spec fn emitted(st: NodeState, event: EventView<PayloadView, InjectedPayload>) -> Seq<
        MessageView<PayloadView>,
    > {
        step_emitted(st, event)
    }

    fn from_init(_state: (), init: Init) -> (made: Result<Self, NodeError>)
        ensures
            made matches Ok(node) && node@ == start(init@),
    {
        let mut known: NameMap<HashSet<usize>> = NameMap::new();
        let ghost names = init.node_ids.deep_view();
        let mut i: usize = 0;
        assert(records(known@) =~= start(InitView { node_id: init.node_id@, node_ids: names.take(0) }).known);
        while i < init.node_ids.len()
            invariant
                i <= init.node_ids@.len(),
                names == init.node_ids.deep_view(),
                records(known@) == start(
                    InitView { node_id: init.node_id@, node_ids: names.take(i as int) },
                ).known,
            decreases init.node_ids@.len() - i,
        {
            let name = init.node_ids[i].clone();
            let ghost before = known@;
            let ghost key = name@;
            let none: HashSet<usize> = HashSet::new();
            known.insert(name, none);
            proof {
                assert(key == names[i as int]);
                assert(known@ == before.insert(key, none));
                assert(records(known@) =~= records(before).insert(key, Set::<usize>::empty()));
                let longer = names.take(i + 1);
                lemma_take_one_more(names, i as int);
                assert forall|n: Seq<char>| longer.contains(n) <==> (names.take(i as int).contains(
                    n,
                ) || n == key) by {
                    assert(longer.to_set().contains(n) <==> longer.contains(n));
                    assert(names.take(i as int).to_set().contains(n) <==> names.take(
                        i as int,
                    ).contains(n));
                }
                assert(records(known@) =~= start(
                    InitView { node_id: init.node_id@, node_ids: longer },
                ).known);
            }
            i += 1;
        }
        proof {
            assert(names.take(names.len() as int) =~= names);
        }
        let node = BroadcastNode {
            node_id: init.node_id,
            id: 1,
            messages: HashSet::new(),
            neighbours: Vec::new(),
            known,
        };
        assert(node@.neighbours =~= Seq::empty());
        assert(node@ == start(init@));
        Ok(node)
    }

    fn timer(&self) -> (wanted: Option<Timer<InjectedPayload>>)
        ensures
            wanted matches Some(timer) && timer.period_ms == GOSSIP_PERIOD_MS,
    {
        Some(Timer { period_ms: GOSSIP_PERIOD_MS, payload: InjectedPayload::Gossip })
    }

    fn step(&mut self, input: Event<Payload, InjectedPayload>, out: &mut Vec<Message<Payload>>) -> (done:
        Result<(), NodeError>)
        ensures
            match done {
                Ok(()) => {
                    &&& step_failure(old(self)@, input@) is None
                    &&& final(self)@ == step_state(old(self)@, input@)
                    &&& views(final(out)@) == views(old(out)@) + step_emitted(old(self)@, input@)
                },
                Err(why) => {
                    &&& step_failure(old(self)@, input@) == Some(why)
                    &&& final(self)@ == old(self)@
                    &&& final(out)@ == old(out)@
                },
            },
    {
        let ghost st = self@;
        let ghost event = input@;
        match input {
            Event::Message(input) => {
                let ghost request = input@;
                match &input.body.payload {
                    Payload::Broadcast { message } => {
                        let message = *message;
                        if self.id == usize::MAX {
                            return Err(NodeError::IdsExhausted);
                        }
                        self.messages.insert(message);
                        let mut reply = input.into_reply(Some(&mut self.id));
                        reply.body.payload = Payload::BroadcastOk;
                        let ghost before = out@;
                        out.push(reply);
                        assert(views(out@) =~= views(before) + step_emitted(st, event));
                    },
                    Payload::Read => {
                        if self.id == usize::MAX {
                            return Err(NodeError::IdsExhausted);
                        }
                        let mut reply = input.into_reply(Some(&mut self.id));
                        reply.body.payload = Payload::ReadOk { messages: copy(&self.messages) };
                        let ghost before = out@;
                        out.push(reply);
                        assert(views(out@) =~= views(before) + step_emitted(st, event));
                    },
                    Payload::Topology { topology } => {
                        if self.id == usize::MAX {
                            return Err(NodeError::IdsExhausted);
                        }
                        match topology.get(&self.node_id) {
                            Some(names) => {
                                self.neighbours = clone_names(names);
                            },
                            None => {
                                return Err(NodeError::MissingTopology);
                            },
                        }
                        let mut reply = input.into_reply(Some(&mut self.id));
                        reply.body.payload = Payload::TopologyOk;
                        let ghost before = out@;
                        out.push(reply);
                        assert(views(out@) =~= views(before) + step_emitted(st, event));
                    },
                    Payload::Gossip { seen } => {
                        let mut held = match self.known.get(&input.src) {
                            Some(values) => copy(values),
                            None => HashSet::new(),
                        };
                        assert(held@ =~= known_to(st, input.src@));
                        absorb(&mut held, seen);
                        absorb(&mut self.messages, seen);
                        let ghost before = self.known@;
                        self.known.insert(input.src, held);
                        assert(records(self.known@) =~= records(before).insert(request.src, held@));
                        assert(views(out@) =~= views(out@) + step_emitted(st, event));
                    },
                    Payload::BroadcastOk | Payload::ReadOk { .. } | Payload::TopologyOk => {
                        assert(views(out@) =~= views(out@) + step_emitted(st, event));
                    },
                }
            },
            Event::Injected(payload) => match payload {
                InjectedPayload::Gossip => {
                    self.gossip(out);
                },
            },
            Event::EOF => {
                assert(views(out@) =~= views(out@) + step_emitted(st, event));
            },
        }
        Ok(())
    }
}

} // verus!
