//! The event dispatcher: it starts a node from the handshake, then hands it
//! one event at a time and writes what the node sends, in order, before the
//! next event.
//!
//! Before the handshake there is no node. `start` is the only way to one, so
//! every later event is handed to a node that exists.
//!
//! Reading the input, waiting for timers and writing the output are the
//! caller's part. The dispatcher decides what follows from each line and
//! event, and fills the buffer that the caller writes out.

use crate::codec::{
    decode_text, encodes, is_line, refused, EncodeError, MalformedEnvelope, Wire,
};
use crate::envelope::{views, Event, EventView, Message, MessageView};
use crate::init::{handshake, handshake_of, HandshakeError, InitPayload};
use crate::json::{json_bytes, json_written, JsonValue};
use crate::node::{Node, NodeError};
use vstd::prelude::*;

verus! {

/// Why the dispatcher gives up. Every such error ends the process.
#[derive(Debug, Clone, Copy, PartialEq, Eq, Structural)]
pub enum RuntimeError {
    /// The first line of input did not start the node.
    Handshake(HandshakeError),
    /// A later line of input is not a message of the node's protocol.
    Malformed(MalformedEnvelope),
    /// The node gave up.
    Node(NodeError),
    /// A message could not be written.
    Encode(EncodeError),
}

/// The lines that a list of envelopes makes: the JSON text of each, with a
/// line feed after it.
pub open spec fn lines(trees: Seq<JsonValue>) -> Seq<u8>
    decreases trees.len(),
{
    if trees.len() == 0 {
        Seq::empty()
    } else {
        lines(trees.drop_last()) + json_bytes(trees.last()) + seq![10u8]
    }
}

/// Whether `trees` are envelopes of `messages`, one for one, each of which
/// is written as JSON and makes a single line.
pub open spec fn all_encode<P: Wire>(messages: Seq<MessageView<P::V>>, trees: Seq<JsonValue>)
    -> bool {
    &&& trees.len() == messages.len()
    &&& forall|i: int|
        0 <= i < messages.len() ==> encodes::<P>(messages[i], #[trigger] trees[i])
            && json_written(trees[i]) is Some && !json_bytes(trees[i]).contains(10u8)
}

/// Whether `after` is `before` with one line added for each of `messages`,
/// in order.
pub open spec fn written<P: Wire>(
    before: Seq<u8>,
    after: Seq<u8>,
    messages: Seq<MessageView<P::V>>,
) -> bool {
    exists|trees: Seq<JsonValue>| #[trigger]
        all_encode::<P>(messages, trees) && after == before + lines(trees)
}

/// Whether a node and an output buffer have gone from `pre` and `before` to
/// `post` and `after` as the dispatch of `event` demands, with outcome `done`.
///
/// Where the node handles the event, it has moved on and every message it
/// sent is written. Where it gives up, nothing has changed. An encode error
/// comes only where an envelope of one of the messages is not written as
/// JSON: the node has moved on and exactly the messages before that one are
/// written.
pub open spec fn dispatched<S, N: Node<S, P, IP>, P: Wire, IP>(
    pre: N::V,
    event: EventView<P::V, IP>,
    post: N::V,
    before: Seq<u8>,
    after: Seq<u8>,
    done: Result<(), RuntimeError>,
) -> bool {
    match done {
        Ok(()) => {
            &&& N::failure(pre, event) is None
            &&& post == N::next(pre, event)
            &&& written::<P>(before, after, N::emitted(pre, event))
        },
        Err(RuntimeError::Node(why)) => {
            &&& N::failure(pre, event) == Some(why)
            &&& post == pre
            &&& after == before
        },
        Err(RuntimeError::Encode(_)) => {
            &&& N::failure(pre, event) is None
            &&& post == N::next(pre, event)
            &&& exists|k: int|
                0 <= k < N::emitted(pre, event).len() && #[trigger] written::<P>(
                    before,
                    after,
                    N::emitted(pre, event).take(k),
                ) && refused::<P>(N::emitted(pre, event)[k])
        },
        Err(_) => false,
    }
}

/// The lines of two lists of envelopes, one after the other, are the lines of
/// the first and then those of the second.
pub proof fn lemma_lines_join(first: Seq<JsonValue>, second: Seq<JsonValue>)
    ensures
        lines(first + second) == lines(first) + lines(second),
    decreases second.len(),
{
    if second.len() == 0 {
        assert(first + second =~= first);
        assert(lines(first) + lines(second) =~= lines(first));
    } else {
        let both = first + second;
        assert(both.drop_last() =~= first + second.drop_last());
        assert(both.last() == second.last());
        lemma_lines_join(first, second.drop_last());
        assert(lines(both) =~= lines(first) + lines(second));
    }
}

/// What is written for one list of messages and then for another is what is
/// written for the two lists in that order.
pub proof fn lemma_written_in_turn<P: Wire>(
    before: Seq<u8>,
    between: Seq<u8>,
    after: Seq<u8>,
    first: Seq<MessageView<P::V>>,
    second: Seq<MessageView<P::V>>,
)
    requires
        written::<P>(before, between, first),
        written::<P>(between, after, second),
    ensures
        written::<P>(before, after, first + second),
{
    let a = choose|trees: Seq<JsonValue>| #[trigger]
        all_encode::<P>(first, trees) && between == before + lines(trees);
    let b = choose|trees: Seq<JsonValue>| #[trigger]
        all_encode::<P>(second, trees) && after == between + lines(trees);
    lemma_lines_join(a, b);
    assert(after =~= before + lines(a + b));
    assert(all_encode::<P>(first + second, a + b)) by {
        assert forall|i: int| 0 <= i < (first + second).len() implies encodes::<P>(
            (first + second)[i],
            #[trigger] (a + b)[i],
        ) && json_written((a + b)[i]) is Some && !json_bytes((a + b)[i]).contains(10u8) by {
            if i < first.len() {
                assert((a + b)[i] == a[i]);
                assert((first + second)[i] == first[i]);
            } else {
                assert((a + b)[i] == b[i - first.len()]);
                assert((first + second)[i] == second[i - first.len()]);
            }
        }
    }
}

/// Two events that are dispatched one after the other are handed to the node
/// in that order, and what the node sends on the first is written before
/// what it sends on the second.
pub proof fn lemma_dispatch_in_turn<S, N: Node<S, P, IP>, P: Wire, IP>(
    pre: N::V,
    first: EventView<P::V, IP>,
    mid: N::V,
    second: EventView<P::V, IP>,
    post: N::V,
    before: Seq<u8>,
    between: Seq<u8>,
    after: Seq<u8>,
)
    requires
        dispatched::<S, N, P, IP>(pre, first, mid, before, between, Ok(())),
        dispatched::<S, N, P, IP>(mid, second, post, between, after, Ok(())),
    ensures
        post == N::next(N::next(pre, first), second),
        written::<P>(
            before,
            after,
            N::emitted(pre, first) + N::emitted(N::next(pre, first), second),
        ),
{
    lemma_written_in_turn::<P>(
        before,
        between,
        after,
        N::emitted(pre, first),
        N::emitted(mid, second),
    );
}

/// Starts a node from the first line of input.
///
/// The line must be the request of the handshake. The node is made from what
/// it says, and the answer to it is written to `out`. An encode error comes
/// only where an envelope of the answer is not written as JSON. Where
/// anything fails, `out` is left alone.
pub fn start<S, N: Node<S, P, IP>, P: Wire, IP>(init_state: S, line: &str, out: &mut Vec<u8>) -> (started:
    Result<N, RuntimeError>)
    ensures
        match started {
            Ok(node) => {
                &&& handshake_of(line@) matches Ok(asked)
                &&& N::initial(init_state, asked.0) matches Ok(st)
                &&& st == node@
                &&& written::<InitPayload>(old(out)@, final(out)@, seq![asked.1])
            },
            Err(RuntimeError::Handshake(why)) => {
                &&& handshake_of(line@) matches Err(e)
                &&& e == why
                &&& final(out)@ == old(out)@
            },
            Err(RuntimeError::Node(why)) => {
                &&& handshake_of(line@) matches Ok(asked)
                &&& N::initial(init_state, asked.0) matches Err(e)
                &&& e == why
                &&& final(out)@ == old(out)@
            },
            Err(RuntimeError::Encode(_)) => {
                &&& handshake_of(line@) matches Ok(asked)
                &&& N::initial(init_state, asked.0) is Ok
                &&& refused::<InitPayload>(asked.1)
                &&& final(out)@ == old(out)@
            },
            Err(RuntimeError::Malformed(_)) => false,
        },
{
    let (init, reply) = match handshake(line) {
        Ok(asked) => asked,
        Err(why) => {
            return Err(RuntimeError::Handshake(why));
        },
    };
    let node = match N::from_init(init_state, init) {
        Ok(node) => node,
        Err(why) => {
            return Err(RuntimeError::Node(why));
        },
    };
    match reply.send(out) {
        Ok(()) => {
            proof {
                let tree = choose|tree: JsonValue| #[trigger]
                    encodes::<InitPayload>(reply@, tree) && is_line(old(out)@, out@, tree);
                let trees = seq![tree];
                assert(trees.drop_last() =~= Seq::<JsonValue>::empty());
                assert(lines(trees.drop_last()) =~= Seq::<u8>::empty());
                assert(lines(trees) =~= json_bytes(tree) + seq![10u8]);
                assert(all_encode::<InitPayload>(seq![reply@], trees));
                assert(out@ =~= old(out)@ + lines(trees));
            }
            Ok(node)
        },
        Err(why) => Err(RuntimeError::Encode(why)),
    }
}

/// The event that the transport makes of its next input: the message that a
/// line stands for, or the end of the input where there is no further line.
pub fn transport_event<P: Wire, IP>(line: Option<&str>) -> (read: Result<
    Event<P, IP>,
    MalformedEnvelope,
>)
    ensures
        match line {
            Some(text) => match decode_text::<P>(text@) {
                Ok(message) => read matches Ok(event) && event@ == EventView::<P::V, IP>::Message(
                    message,
                ),
                Err(why) => read matches Err(e) && e == why,
            },
            None => read matches Ok(event) && event@ == EventView::<P::V, IP>::EOF,
        },
{
    match line {
        Some(text) => match Message::<P>::decode(text) {
            Ok(message) => Ok(Event::Message(message)),
            Err(why) => Err(why),
        },
        None => Ok(Event::EOF),
    }
}

/// Hands one event to the node and writes what the node sends to `out`, in
/// order.
pub fn dispatch<S, N: Node<S, P, IP>, P: Wire, IP>(
    node: &mut N,
    event: Event<P, IP>,
    out: &mut Vec<u8>,
) -> (done: Result<(), RuntimeError>)
    ensures
        dispatched::<S, N, P, IP>(old(node)@, event@, final(node)@, old(out)@, final(out)@, done),
{
    let ghost pre = node@;
    let ghost ev = event@;
    let ghost sent = N::emitted(pre, ev);
    let mut outbox: Vec<Message<P>> = Vec::new();
    match node.step(event, &mut outbox) {
        Ok(()) => {},
        Err(why) => {
            return Err(RuntimeError::Node(why));
        },
    }
    assert(views(outbox@) =~= sent);
    let ghost mut trees: Seq<JsonValue> = Seq::empty();
    let mut i: usize = 0;
    assert(sent.take(0) =~= Seq::empty());
    assert(out@ =~= old(out)@ + lines(trees));
    while i < outbox.len()
        invariant
            i <= outbox@.len(),
            views(outbox@) == sent,
            pre == old(node)@,
            ev == event@,
            sent == N::emitted(pre, ev),
            N::failure(pre, ev) is None,
            node@ == N::next(pre, ev),
            all_encode::<P>(sent.take(i as int), trees),
            out@ == old(out)@ + lines(trees),
        decreases outbox@.len() - i,
    {
        let ghost before = out@;
        match outbox[i].send(out) {
            Ok(()) => {
                proof {
                    let message = outbox@[i as int]@;
                    assert(message == sent[i as int]);
                    let tree = choose|tree: JsonValue| #[trigger]
                        encodes::<P>(message, tree) && is_line(before, out@, tree);
                    let longer = trees.push(tree);
                    assert(longer.drop_last() =~= trees);
                    assert(out@ =~= old(out)@ + lines(longer));
                    assert(sent.take(i + 1) =~= sent.take(i as int).push(message));
                    assert(all_encode::<P>(sent.take(i + 1), longer)) by {
                        assert forall|j: int| 0 <= j < i + 1 implies encodes::<P>(
                            sent.take(i + 1)[j],
                            #[trigger] longer[j],
                        ) && json_written(longer[j]) is Some && !json_bytes(longer[j]).contains(
                            10u8,
                        ) by {
                            if j < i {
                                assert(longer[j] == trees[j]);
                                assert(sent.take(i + 1)[j] == sent.take(i as int)[j]);
                            }
                        }
                    }
                    trees = longer;
                }
            },
            Err(why) => {
                proof {
                    assert(sent.len() == outbox@.len());
                    assert(written::<P>(old(out)@, out@, sent.take(i as int)));
                    assert(outbox@[i as int]@ == sent[i as int]);
                    assert(refused::<P>(sent[i as int]));
                }
                return Err(RuntimeError::Encode(why));
            },
        }
        i += 1;
    }
    proof {
        assert(sent.take(sent.len() as int) =~= sent);
    }
    Ok(())
}

/// Hands the message that a line of input stands for to the node. A line
/// that stands for none changes nothing.
pub fn dispatch_line<S, N: Node<S, P, IP>, P: Wire, IP>(
    node: &mut N,
    line: &str,
    out: &mut Vec<u8>,
) -> (done: Result<(), RuntimeError>)
    ensures
        match decode_text::<P>(line@) {
            Ok(message) => dispatched::<S, N, P, IP>(
                old(node)@,
                EventView::Message(message),
                final(node)@,
                old(out)@,
                final(out)@,
                done,
            ),
            Err(why) => {
                &&& done == Err::<(), RuntimeError>(RuntimeError::Malformed(why))
                &&& final(node)@ == old(node)@
                &&& final(out)@ == old(out)@
            },
        },
{
    match transport_event::<P, IP>(Some(line)) {
        Ok(event) => dispatch::<S, N, P, IP>(node, event, out),
        Err(why) => Err(RuntimeError::Malformed(why)),
    }
}

} // verus!
