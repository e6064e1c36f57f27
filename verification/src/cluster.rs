//! A cluster of broadcast nodes, and why gossip makes them agree.
//!
//! The model lets anything happen in any order: clients send requests to
//! nodes, nodes tick, and gossip that was sent arrives late, twice, or never.
//! Whatever happens, a node is only ever known to hold what it holds. So when
//! gossip has nothing new to tell any more, every node has seen what the
//! nodes that gossip to it have seen, and where the nodes are connected each
//! has seen every value that was ever broadcast.

use crate::gossip::{
    gossip_for, known_to, news_for, round, start, step_emitted, step_failure, step_state,
    NodeState, PayloadView,
};
use crate::envelope::{EventView, InitView, InjectedPayload, MessageView};
use vstd::prelude::*;

verus! {

/// The nodes of a cluster, the gossip they have sent, and the values that
/// clients have broadcast.
pub struct Cluster {
    pub nodes: Map<Seq<char>, NodeState>,
    pub sent: Set<MessageView<PayloadView>>,
    pub values: Set<usize>,
}

/// What can happen in a cluster.
pub enum Action {
    /// A message of a client reaches a node.
    Request { to: Seq<char>, message: MessageView<PayloadView> },
    /// Gossip that a node has sent reaches the node it is for.
    Gossip { message: MessageView<PayloadView> },
    /// A node's timer fires.
    Tick { at: Seq<char> },
}

/// The tick of the gossip timer.
pub open spec fn tick() -> EventView<PayloadView, InjectedPayload> {
    EventView::Injected(InjectedPayload::Gossip)
}

/// Whether `action` can happen: requests and ticks at any node, gossip only
/// where a node has sent it. A node that gives up on a message does not
/// take it.
pub open spec fn enabled(c: Cluster, action: Action) -> bool {
    match action {
        Action::Request { to, message } => {
            &&& c.nodes.contains_key(to)
            &&& !(message.body.payload is Gossip)
            &&& step_failure(c.nodes[to], EventView::Message(message)) is None
        },
        Action::Gossip { message } => c.sent.contains(message) && c.nodes.contains_key(message.dst),
        Action::Tick { at } => c.nodes.contains_key(at),
    }
}

/// The cluster after `action`.
pub open spec fn act(c: Cluster, action: Action) -> Cluster {
    match action {
        Action::Request { to, message } => Cluster {
            nodes: c.nodes.insert(to, step_state(c.nodes[to], EventView::Message(message))),
            values: match message.body.payload {
                PayloadView::Broadcast { message: value } => c.values.insert(value),
                _ => c.values,
            },
            ..c
        },
        Action::Gossip { message } => Cluster {
            nodes: c.nodes.insert(
                message.dst,
                step_state(c.nodes[message.dst], EventView::Message(message)),
            ),
            ..c
        },
        Action::Tick { at } => Cluster {
            nodes: c.nodes.insert(at, step_state(c.nodes[at], tick())),
            sent: c.sent.union(step_emitted(c.nodes[at], tick()).to_set()),
            ..c
        },
    }
}

/// The cluster after a course of actions, where each can happen in its turn.
pub open spec fn run(c: Cluster, actions: Seq<Action>) -> Option<Cluster>
    decreases actions.len(),
{
    if actions.len() == 0 {
        Some(c)
    } else {
        match run(c, actions.drop_last()) {
            Some(mid) => if enabled(mid, actions.last()) {
                Some(act(mid, actions.last()))
            } else {
                None
            },
            None => None,
        }
    }
}

/// A cluster of the nodes `names` in which nothing has happened yet.
pub open spec fn fresh(names: Seq<Seq<char>>) -> Cluster {
    Cluster {
        nodes: Map::new(
            |name: Seq<char>| names.contains(name),
            |name: Seq<char>| start(InitView { node_id: name, node_ids: names }),
        ),
        sent: Set::empty(),
        values: Set::empty(),
    }
}

/// What holds in a cluster whatever has happened: each node goes by its own
/// name; a node is known to hold only what it holds; gossip tells only what
/// its sender holds; a node has seen only what was broadcast; and what was
/// broadcast, some node has seen.
pub open spec fn sound(c: Cluster) -> bool {
    &&& forall|a: Seq<char>| c.nodes.contains_key(a) ==> (#[trigger] c.nodes[a]).node_id == a
    &&& forall|a: Seq<char>, n: Seq<char>|
        c.nodes.contains_key(a) && c.nodes.contains_key(n) ==> (#[trigger] known_to(
            c.nodes[a],
            n,
        )).subset_of(c.nodes[n].messages)
    &&& forall|g: MessageView<PayloadView>| #[trigger]
        c.sent.contains(g) ==> {
            &&& g.body.payload is Gossip
            &&& c.nodes.contains_key(g.src)
            &&& g.body.payload->Gossip_seen.subset_of(c.nodes[g.src].messages)
        }
    &&& forall|a: Seq<char>|
        c.nodes.contains_key(a) ==> (#[trigger] c.nodes[a]).messages.subset_of(c.values)
    &&& forall|v: usize| #[trigger]
        c.values.contains(v) ==> exists|a: Seq<char>|
            c.nodes.contains_key(a) && (#[trigger] c.nodes[a]).messages.contains(v)
}

/// Whether gossip has reached its fixed point: whatever a node would send on
/// a tick tells the node it is for nothing that this node has not seen.
pub open spec fn settled(c: Cluster) -> bool {
    forall|a: Seq<char>, i: int|
        c.nodes.contains_key(a) && 0 <= i < step_emitted(c.nodes[a], tick()).len() ==> told(
            c,
            #[trigger] step_emitted(c.nodes[a], tick())[i],
        )
}

/// Whether the node that `gossip` is for, if it is one of the cluster, has
/// seen the same values before and after `gossip` reaches it.
pub open spec fn told(c: Cluster, gossip: MessageView<PayloadView>) -> bool {
    c.nodes.contains_key(gossip.dst) ==> step_state(
        c.nodes[gossip.dst],
        EventView::Message(gossip),
    ).messages == c.nodes[gossip.dst].messages
}

/// Whether `path` leads from node to node, each a neighbour of the one
/// before.
pub open spec fn is_path(c: Cluster, path: Seq<Seq<char>>) -> bool {
    &&& path.len() > 0
    &&& forall|i: int| 0 <= i < path.len() ==> c.nodes.contains_key(#[trigger] path[i])
    &&& forall|i: int|
        0 <= i < path.len() - 1 ==> c.nodes[path[i]].neighbours.contains(#[trigger] path[i + 1])
}

/// Whether every node is reached from every node by a path.
pub open spec fn connected(c: Cluster) -> bool {
    forall|a: Seq<char>, b: Seq<char>|
        c.nodes.contains_key(a) && c.nodes.contains_key(b) ==> exists|path: Seq<Seq<char>>|
            #[trigger] is_path(c, path) && path[0] == a && path.last() == b
}

/// Every message of a gossip round is the gossip for one of the neighbours.
pub proof fn lemma_round_is_gossip(st: NodeState, upto: int)
    requires
        upto <= st.neighbours.len(),
    ensures
        forall|i: int|
            0 <= i < round(st, upto).len() ==> exists|j: int|
                0 <= j < upto && (#[trigger] round(st, upto)[i]) == gossip_for(
                    st,
                    st.neighbours[j],
                ),
    decreases upto,
{
    if upto > 0 {
        lemma_round_is_gossip(st, upto - 1);
        let before = round(st, upto - 1);
        let now = round(st, upto);
        assert forall|i: int| 0 <= i < now.len() implies exists|j: int|
            0 <= j < upto && (#[trigger] now[i]) == gossip_for(st, st.neighbours[j]) by {
            if i < before.len() {
                assert(now[i] == before[i]);
                let j = choose|j: int|
                    0 <= j < upto - 1 && before[i] == gossip_for(st, st.neighbours[j]);
                assert(0 <= j < upto && now[i] == gossip_for(st, st.neighbours[j]));
            } else {
                assert(now[i] == gossip_for(st, st.neighbours[upto - 1]));
            }
        }
    }
}

/// A gossip round holds the gossip for every neighbour for which there is
/// news.
pub proof fn lemma_round_has_gossip(st: NodeState, upto: int, j: int)
    requires
        0 <= j < upto <= st.neighbours.len(),
        !news_for(st, st.neighbours[j]).is_empty(),
    ensures
        round(st, upto).contains(gossip_for(st, st.neighbours[j])),
    decreases upto,
{
    let before = round(st, upto - 1);
    let peer = st.neighbours[upto - 1];
    if j == upto - 1 {
        let now = before.push(gossip_for(st, peer));
        assert(round(st, upto) == now);
        assert(now[now.len() - 1] == gossip_for(st, peer));
    } else {
        lemma_round_has_gossip(st, upto - 1, j);
        let g = gossip_for(st, st.neighbours[j]);
        let i = choose|i: int| 0 <= i < before.len() && before[i] == g;
        if news_for(st, peer).is_empty() {
            assert(round(st, upto) == before);
        } else {
            assert(round(st, upto)[i] == g);
        }
    }
}

/// A cluster in which nothing has happened is sound.
pub proof fn lemma_fresh_is_sound(names: Seq<Seq<char>>)
    ensures
        sound(fresh(names)),
{
    let c = fresh(names);
    assert forall|a: Seq<char>, n: Seq<char>|
        c.nodes.contains_key(a) && c.nodes.contains_key(n) implies (#[trigger] known_to(
        c.nodes[a],
        n,
    )).subset_of(c.nodes[n].messages) by {
        assert(known_to(c.nodes[a], n) =~= Set::<usize>::empty());
    }
}

/// Whatever happens in a sound cluster, the cluster stays sound.
pub proof fn lemma_act_keeps_sound(c: Cluster, action: Action)
    requires
        sound(c),
        enabled(c, action),
    ensures
        sound(act(c, action)),
{
    let d = act(c, action);
    match action {
        Action::Request { to, message } => {
            let before = c.nodes[to];
            let after = step_state(before, EventView::Message(message));
            assert(before.messages.subset_of(after.messages));
            assert(after.known == before.known);
            assert forall|a: Seq<char>, n: Seq<char>|
                d.nodes.contains_key(a) && d.nodes.contains_key(n) implies (#[trigger] known_to(
                d.nodes[a],
                n,
            )).subset_of(d.nodes[n].messages) by {
                assert(known_to(d.nodes[a], n) == known_to(c.nodes[a], n));
                assert(known_to(c.nodes[a], n).subset_of(c.nodes[n].messages));
                assert(c.nodes[n].messages.subset_of(d.nodes[n].messages));
            }
            assert forall|g: MessageView<PayloadView>| #[trigger] d.sent.contains(g) implies {
                &&& g.body.payload is Gossip
                &&& d.nodes.contains_key(g.src)
                &&& g.body.payload->Gossip_seen.subset_of(d.nodes[g.src].messages)
            } by {
                assert(c.sent.contains(g));
                assert(c.nodes[g.src].messages.subset_of(d.nodes[g.src].messages));
            }
            assert forall|a: Seq<char>| d.nodes.contains_key(a) implies (#[trigger] d.nodes[a]).messages.subset_of(
                d.values,
            ) by {
                assert(c.nodes[a].messages.subset_of(c.values));
            }
            assert forall|v: usize| #[trigger] d.values.contains(v) implies exists|a: Seq<char>|
                d.nodes.contains_key(a) && (#[trigger] d.nodes[a]).messages.contains(v) by {
                if c.values.contains(v) {
                    let a = choose|a: Seq<char>|
                        c.nodes.contains_key(a) && (#[trigger] c.nodes[a]).messages.contains(v);
                    assert(c.nodes[a].messages.subset_of(d.nodes[a].messages));
                    assert(d.nodes.contains_key(a) && d.nodes[a].messages.contains(v));
                } else {
                    assert(d.nodes.contains_key(to) && d.nodes[to].messages.contains(v));
                }
            }
            assert forall|a: Seq<char>| d.nodes.contains_key(a) implies (#[trigger] d.nodes[a]).node_id
                == a by {
                assert(c.nodes[a].node_id == a);
            }
        },
        Action::Gossip { message } => {
            let to = message.dst;
            let from = message.src;
            let seen = message.body.payload->Gossip_seen;
            let before = c.nodes[to];
            let after = step_state(before, EventView::Message(message));
            assert(c.sent.contains(message));
            assert(seen.subset_of(c.nodes[from].messages));
            assert(after.messages == before.messages.union(seen));
            assert forall|n: Seq<char>| c.nodes.contains_key(n) implies c.nodes[n].messages.subset_of(
                #[trigger] d.nodes[n].messages,
            ) by {}
            assert forall|a: Seq<char>, n: Seq<char>|
                d.nodes.contains_key(a) && d.nodes.contains_key(n) implies (#[trigger] known_to(
                d.nodes[a],
                n,
            )).subset_of(d.nodes[n].messages) by {
                assert(known_to(c.nodes[a], n).subset_of(c.nodes[n].messages));
                assert(c.nodes[n].messages.subset_of(d.nodes[n].messages));
                if a == to && n == from {
                    assert(known_to(after, n) == known_to(before, n).union(seen));
                    assert(c.nodes[from].messages.subset_of(d.nodes[from].messages));
                } else {
                    assert(known_to(d.nodes[a], n) == known_to(c.nodes[a], n));
                }
            }
            assert forall|g: MessageView<PayloadView>| #[trigger] d.sent.contains(g) implies {
                &&& g.body.payload is Gossip
                &&& d.nodes.contains_key(g.src)
                &&& g.body.payload->Gossip_seen.subset_of(d.nodes[g.src].messages)
            } by {
                assert(c.sent.contains(g));
                assert(c.nodes[g.src].messages.subset_of(d.nodes[g.src].messages));
            }
            assert forall|a: Seq<char>| d.nodes.contains_key(a) implies (#[trigger] d.nodes[a]).messages.subset_of(
                d.values,
            ) by {
                assert(c.nodes[a].messages.subset_of(c.values));
                assert(c.nodes[from].messages.subset_of(c.values));
            }
            assert forall|v: usize| #[trigger] d.values.contains(v) implies exists|a: Seq<char>|
                d.nodes.contains_key(a) && (#[trigger] d.nodes[a]).messages.contains(v) by {
                let a = choose|a: Seq<char>|
                    c.nodes.contains_key(a) && (#[trigger] c.nodes[a]).messages.contains(v);
                assert(c.nodes[a].messages.subset_of(d.nodes[a].messages));
                assert(d.nodes.contains_key(a) && d.nodes[a].messages.contains(v));
            }
            assert forall|a: Seq<char>| d.nodes.contains_key(a) implies (#[trigger] d.nodes[a]).node_id
                == a by {
                assert(c.nodes[a].node_id == a);
            }
        },
        Action::Tick { at } => {
            let st = c.nodes[at];
            assert(d.nodes =~= c.nodes);
            let sending = step_emitted(st, tick());
            lemma_round_is_gossip(st, st.neighbours.len() as int);
            assert forall|g: MessageView<PayloadView>| #[trigger] d.sent.contains(g) implies {
                &&& g.body.payload is Gossip
                &&& d.nodes.contains_key(g.src)
                &&& g.body.payload->Gossip_seen.subset_of(d.nodes[g.src].messages)
            } by {
                if !c.sent.contains(g) {
                    assert(sending.contains(g));
                    let i = choose|i: int| 0 <= i < sending.len() && sending[i] == g;
                    let j = choose|j: int|
                        0 <= j < st.neighbours.len() && sending[i] == gossip_for(
                            st,
                            st.neighbours[j],
                        );
                    assert(g.src == at);
                }
            }
            assert forall|v: usize| #[trigger] d.values.contains(v) implies exists|a: Seq<char>|
                d.nodes.contains_key(a) && (#[trigger] d.nodes[a]).messages.contains(v) by {
                let a = choose|a: Seq<char>|
                    c.nodes.contains_key(a) && (#[trigger] c.nodes[a]).messages.contains(v);
                assert(d.nodes.contains_key(a) && d.nodes[a].messages.contains(v));
            }
        },
    }
}

/// A cluster is sound after any course of actions.
pub proof fn lemma_run_keeps_sound(c: Cluster, actions: Seq<Action>)
    requires
        sound(c),
        run(c, actions) is Some,
    ensures
        sound(run(c, actions)->Some_0),
    decreases actions.len(),
{
    if actions.len() > 0 {
        lemma_run_keeps_sound(c, actions.drop_last());
        lemma_act_keeps_sound(run(c, actions.drop_last())->Some_0, actions.last());
    }
}

/// In a sound cluster where gossip has settled, what the node at the start
/// of a path has seen, the node at its end has seen too.
pub proof fn lemma_settled_path(c: Cluster, path: Seq<Seq<char>>)
    requires
        sound(c),
        settled(c),
        is_path(c, path),
    ensures
        c.nodes[path[0]].messages.subset_of(c.nodes[path.last()].messages),
    decreases path.len(),
{
    if path.len() > 1 {
        let shorter = path.drop_last();
        assert forall|i: int| 0 <= i < shorter.len() implies c.nodes.contains_key(
            #[trigger] shorter[i],
        ) by {
            assert(shorter[i] == path[i]);
        }
        assert forall|i: int| 0 <= i < shorter.len() - 1 implies c.nodes[shorter[i]].neighbours.contains(
            #[trigger] shorter[i + 1],
        ) by {
            assert(shorter[i] == path[i]);
            assert(shorter[i + 1] == path[i + 1]);
        }
        lemma_settled_path(c, shorter);
        let from = path[path.len() - 2];
        let to = path.last();
        assert(shorter.last() == from);
        assert(c.nodes.contains_key(from));
        assert(c.nodes.contains_key(path[path.len() - 1]));
        let st = c.nodes[from];
        assert(st.neighbours.contains(path[path.len() - 2 + 1]));
        let j = choose|j: int| 0 <= j < st.neighbours.len() && st.neighbours[j] == to;
        assert(known_to(st, to).subset_of(c.nodes[to].messages));
        if !news_for(st, to).is_empty() {
            lemma_round_has_gossip(st, st.neighbours.len() as int, j);
            let sending = step_emitted(st, tick());
            let g = gossip_for(st, to);
            let i = choose|i: int| 0 <= i < sending.len() && sending[i] == g;
            assert(told(c, sending[i]));
            let end = step_state(c.nodes[to], EventView::Message(g));
            assert(end.messages == c.nodes[to].messages.union(news_for(st, to)));
            assert forall|v: usize| news_for(st, to).contains(v) implies c.nodes[to].messages.contains(
                v,
            ) by {
                assert(end.messages.contains(v));
            }
        }
        assert forall|v: usize| st.messages.contains(v) implies c.nodes[to].messages.contains(v) by {
            if !known_to(st, to).contains(v) {
                assert(news_for(st, to).contains(v));
            }
        }
    }
}

/// Convergence. In a cluster that is sound, as every cluster is whatever
/// has happened in it, in which gossip has settled, and whose nodes are
/// connected, every node has seen exactly the values that were ever
/// broadcast to any node.
pub proof fn lemma_converged(c: Cluster)
    requires
        sound(c),
        settled(c),
        connected(c),
    ensures
        forall|a: Seq<char>| c.nodes.contains_key(a) ==> (#[trigger] c.nodes[a]).messages == c.values,
{
    assert forall|a: Seq<char>| c.nodes.contains_key(a) implies (#[trigger] c.nodes[a]).messages
        == c.values by {
        assert(c.nodes[a].messages.subset_of(c.values));
        assert forall|v: usize| c.values.contains(v) implies c.nodes[a].messages.contains(v) by {
            let holder = choose|h: Seq<char>|
                c.nodes.contains_key(h) && (#[trigger] c.nodes[h]).messages.contains(v);
            let path = choose|path: Seq<Seq<char>>| #[trigger]
                is_path(c, path) && path[0] == holder && path.last() == a;
            lemma_settled_path(c, path);
        }
        assert(c.nodes[a].messages =~= c.values);
    }
}

/// Convergence, from the start: after any course of requests, ticks and
/// deliveries of gossip, in any order, after which gossip has settled in a
/// connected cluster, every node has seen exactly the values that were ever
/// broadcast.
pub proof fn lemma_gossip_converges(names: Seq<Seq<char>>, actions: Seq<Action>)
    requires
        run(fresh(names), actions) is Some,
        settled(run(fresh(names), actions)->Some_0),
        connected(run(fresh(names), actions)->Some_0),
    ensures
        ({
            let end = run(fresh(names), actions)->Some_0;
            forall|a: Seq<char>| end.nodes.contains_key(a) ==> (#[trigger] end.nodes[a]).messages == end.values
        }),
{
    lemma_fresh_is_sound(names);
    lemma_run_keeps_sound(fresh(names), actions);
    lemma_converged(run(fresh(names), actions)->Some_0);
}

} // verus!
