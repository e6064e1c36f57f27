//! The message envelope, the events a node is driven by, and their
//! mathematical views.

use vstd::prelude::*;

verus! {

/// The body of a message: its own id, the id of the message it answers, and
/// the protocol payload.
#[derive(Debug, Clone)]
pub struct Body<Payload> {
    pub id: Option<usize>,
    pub in_reply_to: Option<usize>,
    pub payload: Payload,
}

/// One message: who sent it, to whom, and its body.
#[derive(Debug, Clone)]
pub struct Message<Payload> {
    pub src: String,
    pub dst: String,
    pub body: Body<Payload>,
}

/// What a node learns at startup: its own name and the names of all nodes.
#[derive(Debug, Clone)]
pub struct Init {
    pub node_id: String,
    pub node_ids: Vec<String>,
}

/// What drives a node: a message from the transport, an event injected by
/// another source, or the end of the input.
#[derive(Debug, Clone)]
pub enum Event<Payload, InjectedPayload = ()> {
    Message(Message<Payload>),
    Injected(InjectedPayload),
    EOF,
}

/// The events that sources other than the transport inject.
#[derive(Debug, Clone)]
pub enum InjectedPayload {
    /// Time for a round of gossip.
    Gossip,
}

/// A request for periodic events, every `period_ms` milliseconds.
#[derive(Debug, Clone)]
pub struct Timer<InjectedPayload> {
    pub period_ms: u64,
    pub payload: InjectedPayload,
}

/// The view of a [`Body`].
pub struct BodyView<P> {
    pub id: Option<usize>,
    pub in_reply_to: Option<usize>,
    pub payload: P,
}

/// The view of a [`Message`].
pub struct MessageView<P> {
    pub src: Seq<char>,
    pub dst: Seq<char>,
    pub body: BodyView<P>,
}

/// The view of an [`Init`].
pub struct InitView {
    pub node_id: Seq<char>,
    pub node_ids: Seq<Seq<char>>,
}

/// The view of an [`Event`].
pub enum EventView<P, I> {
    Message(MessageView<P>),
    Injected(I),
    EOF,
}

impl<Payload: View> View for Body<Payload> {
    type V = BodyView<Payload::V>;

    open spec fn view(&self) -> BodyView<Payload::V> {
        BodyView { id: self.id, in_reply_to: self.in_reply_to, payload: self.payload@ }
    }
}

impl<Payload: View> View for Message<Payload> {
    type V = MessageView<Payload::V>;

    open spec fn view(&self) -> MessageView<Payload::V> {
        MessageView { src: self.src@, dst: self.dst@, body: self.body@ }
    }
}

impl View for Init {
    type V = InitView;

    open spec fn view(&self) -> InitView {
        InitView { node_id: self.node_id@, node_ids: self.node_ids.deep_view() }
    }
}

impl<Payload: View, InjectedPayload> View for Event<Payload, InjectedPayload> {
    type V = EventView<Payload::V, InjectedPayload>;

    open spec fn view(&self) -> EventView<Payload::V, InjectedPayload> {
        match self {
            Event::Message(message) => EventView::Message(message@),
            Event::Injected(payload) => EventView::Injected(*payload),
            Event::EOF => EventView::EOF,
        }
    }
}

/// The views of a list of messages, in order.
pub open spec fn views<Payload: View>(messages: Seq<Message<Payload>>) -> Seq<
    MessageView<Payload::V>,
> {
    messages.map_values(|m: Message<Payload>| m@)
}

/// The answer to `request` that carries `payload` and the id `id`: it goes
/// back to where the request came from and names the request's id.
pub open spec fn answer<P, Q>(request: MessageView<P>, id: Option<usize>, payload: Q)
    -> MessageView<Q> {
    MessageView {
        src: request.dst,
        dst: request.src,
        body: BodyView { id, in_reply_to: request.body.id, payload },
    }
}

impl<Payload> Message<Payload> {
    /// Turns a message into the frame of its answer: source and destination
    /// change places, the answer names the message's id, and the payload is
    /// carried over for the caller to replace. With a counter, the answer
    /// takes the counter's value as its id and the counter moves on by one.
    pub fn into_reply(self, id: Option<&mut usize>) -> (reply: Self)
        requires
            id matches Some(counter) ==> *counter < usize::MAX,
        ensures
            reply.src == self.dst,
            reply.dst == self.src,
            reply.body.in_reply_to == self.body.id,
            reply.body.payload == self.body.payload,
            match id {
                Some(counter) => reply.body.id == Some(*counter) && *final(counter) == *counter
                    + 1,
                None => reply.body.id is None,
            },
    {
        let mid = match id {
            Some(counter) => {
                let mid = *counter;
                *counter = mid + 1;
                Some(mid)
            },
            None => None,
        };
        Message {
            src: self.dst,
            dst: self.src,
            body: Body { id: mid, in_reply_to: self.body.id, payload: self.body.payload },
        }
    }
}

} // verus!
