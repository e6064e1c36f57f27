//! The echo node: it answers every `echo` with what it was sent.

use crate::codec::{is_named, tag_fields, tagged, text_at, text_field, Wire};
use crate::envelope::{answer, views, Event, EventView, Init, InitView, Message, MessageView, Timer};
use crate::json::{set_field, text, JsonValue};
use crate::node::{Node, NodeError};
use vstd::prelude::*;

verus! {

/// The messages of the echo protocol.
#[derive(Debug, Clone)]
pub enum Payload {
    Echo { echo: String },
    EchoOk { echo: String },
}

/// The view of a [`Payload`].
pub enum PayloadView {
    Echo { echo: Seq<char> },
    EchoOk { echo: Seq<char> },
}

impl View for Payload {
    type V = PayloadView;

    open spec fn view(&self) -> PayloadView {
        match self {
            Payload::Echo { echo } => PayloadView::Echo { echo: echo@ },
            Payload::EchoOk { echo } => PayloadView::EchoOk { echo: echo@ },
        }
    }
}

/// The payload that the fields of a body stand for, if any.
pub open spec fn echo_in(fields: Map<Seq<char>, JsonValue>) -> Option<PayloadView> {
    match (text_at(fields, "type"@), text_at(fields, "echo"@)) {
        (Some(tag), Some(echo)) => {
            if tag == "echo"@ {
                Some(PayloadView::Echo { echo })
            } else if tag == "echo_ok"@ {
                Some(PayloadView::EchoOk { echo })
            } else {
                None
            }
        },
        _ => None,
    }
}

/// Whether `fields` are the fields that stand for `payload`.
pub open spec fn echo_fields(payload: PayloadView, fields: Map<Seq<char>, JsonValue>) -> bool {
    match payload {
        PayloadView::Echo { echo } => fields == tagged("echo"@).insert(
            "echo"@,
            JsonValue::Text(echo),
        ),
        PayloadView::EchoOk { echo } => fields == tagged("echo_ok"@).insert(
            "echo"@,
            JsonValue::Text(echo),
        ),
    }
}

/// The names of the protocol's messages and fields are all different.
pub proof fn lemma_echo_names()
    ensures
        "echo"@.len() == 4,
        "echo_ok"@.len() == 7,
        "type"@.len() == 4,
        "msg_id"@.len() == 6,
        "in_reply_to"@.len() == 11,
        "type"@ != "echo"@,
{
    reveal_strlit("echo");
    reveal_strlit("echo_ok");
    reveal_strlit("type");
    reveal_strlit("msg_id");
    reveal_strlit("in_reply_to");
    assert("type"@[0] != "echo"@[0]);
}

impl Wire for Payload {
    open spec fn encodes(payload: PayloadView, fields: Map<Seq<char>, JsonValue>) -> bool {
        echo_fields(payload, fields)
    }

    open spec fn decoded(fields: Map<Seq<char>, JsonValue>) -> Option<PayloadView> {
        echo_in(fields)
    }

    open spec fn is_kind(tag: Seq<char>) -> bool {
        tag == "echo"@ || tag == "echo_ok"@
    }

    proof fn lemma_kind_needed(fields: Map<Seq<char>, JsonValue>) {
    }

    proof fn lemma_decodes(
        payload: PayloadView,
        fields: Map<Seq<char>, JsonValue>,
        id: JsonValue,
        in_reply_to: JsonValue,
    ) {
        lemma_echo_names();
    }

    fn to_fields(&self) -> (fields: serde_json::Map<String, serde_json::Value>) {
        proof {
            lemma_echo_names();
        }
        match self {
            Payload::Echo { echo } => {
                let mut fields = tag_fields("echo");
                set_field(&mut fields, "echo".to_owned(), text(echo.clone()));
                fields
            },
            Payload::EchoOk { echo } => {
                let mut fields = tag_fields("echo_ok");
                set_field(&mut fields, "echo".to_owned(), text(echo.clone()));
                fields
            },
        }
    }

    fn from_fields(fields: &serde_json::Map<String, serde_json::Value>) -> (payload: Option<Self>) {
        let tag = match text_field(fields, "type") {
            Some(tag) => tag,
            None => {
                return None;
            },
        };
        let echo = match text_field(fields, "echo") {
            Some(echo) => echo,
            None => {
                return None;
            },
        };
        if is_named(&tag, "echo") {
            Some(Payload::Echo { echo })
        } else if is_named(&tag, "echo_ok") {
            Some(Payload::EchoOk { echo })
        } else {
            None
        }
    }
}

/// The state of an echo node: the id that its next message takes.
pub struct EchoState {
    pub next_id: usize,
}

/// Why an echo node gives up on `event`: it takes messages only, and each
/// message takes an id.
pub open spec fn echo_failure(st: EchoState, event: EventView<PayloadView, ()>) -> Option<
    NodeError,
> {
    match event {
        EventView::Message(m) => if st.next_id == usize::MAX {
            Some(NodeError::IdsExhausted)
        } else {
            None
        },
        _ => Some(NodeError::UnexpectedEvent),
    }
}

/// The state after `event`.
pub open spec fn echo_state(st: EchoState, event: EventView<PayloadView, ()>) -> EchoState {
    match event {
        EventView::Message(m) => EchoState { next_id: (st.next_id + 1) as usize },
        _ => st,
    }
}

/// The messages sent on `event`: the answer to an `echo`, with what it held.
pub open spec fn echo_emitted(st: EchoState, event: EventView<PayloadView, ()>) -> Seq<
    MessageView<PayloadView>,
> {
    match event {
        EventView::Message(m) => match m.body.payload {
            PayloadView::Echo { echo } => seq![
                answer(m, Some(st.next_id), PayloadView::EchoOk { echo }),
            ],
            PayloadView::EchoOk { echo } => Seq::empty(),
        },
        _ => Seq::empty(),
    }
}

/// A node of the echo protocol.
pub struct EchoNode {
    id: usize,
}

impl View for EchoNode {
    type V = EchoState;

    closed spec fn view(&self) -> EchoState {
        EchoState { next_id: self.id }
    }
}

impl Node<(), Payload> for EchoNode {
    open spec fn initial(state: (), init: InitView) -> Result<EchoState, NodeError> {
        Ok(EchoState { next_id: 1 })
    }

    open spec fn wanted_timer(st: EchoState) -> Option<Timer<()>> {
        None
    }

    open spec fn failure(st: EchoState, event: EventView<PayloadView, ()>) -> Option<NodeError> {
        echo_failure(st, event)
    }

    open spec fn next(st: EchoState, event: EventView<PayloadView, ()>) -> EchoState {
        echo_state(st, event)
    }

    open spec fn emitted(st: EchoState, event: EventView<PayloadView, ()>) -> Seq<
        MessageView<PayloadView>,
    > {
        echo_emitted(st, event)
    }

    fn from_init(_state: (), _init: Init) -> (made: Result<Self, NodeError>) {
        Ok(EchoNode { id: 1 })
    }

    fn timer(&self) -> (wanted: Option<Timer<()>>) {
        None
    }

    fn step(&mut self, input: Event<Payload>, out: &mut Vec<Message<Payload>>) -> (done: Result<
        (),
        NodeError,
    >)
        ensures
            match done {
                Ok(()) => {
                    &&& echo_failure(old(self)@, input@) is None
                    &&& final(self)@ == echo_state(old(self)@, input@)
                    &&& views(final(out)@) == views(old(out)@) + echo_emitted(old(self)@, input@)
                },
                Err(why) => {
                    &&& echo_failure(old(self)@, input@) == Some(why)
                    &&& final(self)@ == old(self)@
                    &&& final(out)@ == old(out)@
                },
            },
    {
        let ghost st = self@;
        let ghost event = input@;
        let input = match input {
            Event::Message(input) => input,
            _ => {
                return Err(NodeError::UnexpectedEvent);
            },
        };
        if self.id == usize::MAX {
            return Err(NodeError::IdsExhausted);
        }
        let mut reply = input.into_reply(Some(&mut self.id));
        match reply.body.payload {
            Payload::Echo { echo } => {
                reply.body.payload = Payload::EchoOk { echo };
                let ghost before = out@;
                out.push(reply);
                assert(views(out@) =~= views(before) + echo_emitted(st, event));
            },
            Payload::EchoOk { .. } => {
                assert(views(out@) =~= views(out@) + echo_emitted(st, event));
            },
        }
        Ok(())
    }
}

} // verus!
