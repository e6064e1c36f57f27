//! The contract between the runtime and node logic.
//!
//! Node logic is a state machine: from its state and one event it decides
//! its next state and the messages to send. The runtime never calls it for
//! two events at once.

use crate::envelope::{Event, EventView, Init, InitView, Message, MessageView, Timer, views};
use vstd::prelude::*;

verus! {

/// Why node logic gives up. Every such error ends the process.
#[derive(Debug, Clone, Copy, PartialEq, Eq, Structural)]
pub enum NodeError {
    /// The node has used every message id it can give.
    IdsExhausted,
    /// A topology that does not name the node itself.
    MissingTopology,
    /// An event that the node has no use for.
    UnexpectedEvent,
}

/// Node logic over the payload type `Payload`, made from a value of `S` and
/// the startup description.
pub trait Node<S, Payload: View, InjectedPayload = ()>: Sized + View {
    /// The state a node starts in, or why it cannot start.
    spec fn initial(state: S, init: InitView) -> Result<Self::V, NodeError>;

    /// The periodic events a node in state `st` asks for.
    spec fn wanted_timer(st: Self::V) -> Option<Timer<InjectedPayload>>;

    /// Why a node in state `st` gives up on `event`, if it does.
    spec fn failure(st: Self::V, event: EventView<Payload::V, InjectedPayload>) -> Option<
        NodeError,
    >;

    /// The state after `event`, where the node does not give up.
    spec fn next(st: Self::V, event: EventView<Payload::V, InjectedPayload>) -> Self::V;

    /// The messages sent on `event`, in order, where the node does not give up.
    spec fn emitted(st: Self::V, event: EventView<Payload::V, InjectedPayload>) -> Seq<
        MessageView<Payload::V>,
    >;

    /// Makes the node.
    fn from_init(state: S, init: Init) -> (made: Result<Self, NodeError>)
        ensures
            match made {
                Ok(node) => Self::initial(state, init@) matches Ok(st) && st == node@,
                Err(e) => Self::initial(state, init@) matches Err(why) && why == e,
            },
    ;

    /// The periodic events the node asks for.
    fn timer(&self) -> (wanted: Option<Timer<InjectedPayload>>)
        ensures
            wanted == Self::wanted_timer(self@),
    ;

    /// Handles one event: the state moves on and the messages to send are
    /// added to `out`, in order. Where the node gives up, nothing changes.
    fn step(&mut self, input: Event<Payload, InjectedPayload>, out: &mut Vec<Message<Payload>>) -> (done:
        Result<(), NodeError>)
        ensures
            match done {
                Ok(()) => {
                    &&& Self::failure(old(self)@, input@) is None
                    &&& final(self)@ == Self::next(old(self)@, input@)
                    &&& views(final(out)@) == views(old(out)@) + Self::emitted(old(self)@, input@)
                },
                Err(e) => {
                    &&& Self::failure(old(self)@, input@) == Some(e)
                    &&& final(self)@ == old(self)@
                    &&& views(final(out)@) == views(old(out)@)
                },
            },
    ;
}

} // verus!
