//! The unique-id node: it answers every `generate` with an id that no node
//! of the cluster gives twice, made of the node's name and a counter.

use crate::codec::{is_named, tag_fields, tagged, text_at, text_field, Wire};
use crate::envelope::{answer, views, Event, EventView, Init, InitView, Message, MessageView, Timer};
use crate::json::{set_field, text, JsonValue};
use crate::node::{Node, NodeError};
use vstd::prelude::*;
use vstd::string::StringExecFns;

verus! {

/// The messages of the unique-id protocol.
#[derive(Debug, Clone)]
pub enum Payload {
    Generate,
    GenerateOk { guid: String },
}

/// The view of a [`Payload`].
pub enum PayloadView {
    Generate,
    GenerateOk { guid: Seq<char> },
}

impl View for Payload {
    type V = PayloadView;

    open spec fn view(&self) -> PayloadView {
        match self {
            Payload::Generate => PayloadView::Generate,
            Payload::GenerateOk { guid } => PayloadView::GenerateOk { guid: guid@ },
        }
    }
}

/// The character of a decimal digit.
pub open spec fn digit(d: nat) -> char {
    if d == 0 {
        '0'
    } else if d == 1 {
        '1'
    } else if d == 2 {
        '2'
    } else if d == 3 {
        '3'
    } else if d == 4 {
        '4'
    } else if d == 5 {
        '5'
    } else if d == 6 {
        '6'
    } else if d == 7 {
        '7'
    } else if d == 8 {
        '8'
    } else {
        '9'
    }
}

/// A number in decimal, without leading zeros.
pub open spec fn decimal(n: nat) -> Seq<char>
    decreases n,
{
    if n < 10 {
        seq![digit(n)]
    } else {
        decimal(n / 10).push(digit(n % 10))
    }
}

/// The id that a node with the name `node_id` makes of the count `n`.
pub open spec fn guid_of(node_id: Seq<char>, n: nat) -> Seq<char> {
    node_id + seq!['-'] + decimal(n)
}

/// The text of a decimal digit.
fn digit_text(d: usize) -> (s: &'static str)
    requires
        d < 10,
    ensures
        s@ == seq![digit(d as nat)],
{
    proof {
        reveal_strlit("0");
        reveal_strlit("1");
        reveal_strlit("2");
        reveal_strlit("3");
        reveal_strlit("4");
        reveal_strlit("5");
        reveal_strlit("6");
        reveal_strlit("7");
        reveal_strlit("8");
        reveal_strlit("9");
    }
    let s = if d == 0 {
        "0"
    } else if d == 1 {
        "1"
    } else if d == 2 {
        "2"
    } else if d == 3 {
        "3"
    } else if d == 4 {
        "4"
    } else if d == 5 {
        "5"
    } else if d == 6 {
        "6"
    } else if d == 7 {
        "7"
    } else if d == 8 {
        "8"
    } else {
        "9"
    };
    assert(s@ =~= seq![digit(d as nat)]);
    s
}

/// Adds a number, in decimal, to a text.
pub fn push_decimal(target: &mut String, n: usize)
    ensures
        final(target)@ == old(target)@ + decimal(n as nat),
    decreases n,
{
    if n >= 10 {
        push_decimal(target, n / 10);
    }
    target.append(digit_text(n % 10));
    assert(target@ =~= old(target)@ + decimal(n as nat));
}

/// The id that a node with the name `node_id` makes of the count `n`.
pub fn guid(node_id: &String, n: usize) -> (id: String)
    ensures
        id@ == guid_of(node_id@, n as nat),
{
    proof {
        reveal_strlit("-");
    }
    let mut id = node_id.clone();
    id.append("-");
    push_decimal(&mut id, n);
    assert(id@ =~= guid_of(node_id@, n as nat));
    id
}

/// The payload that the fields of a body stand for, if any.
pub open spec fn unique_in(fields: Map<Seq<char>, JsonValue>) -> Option<PayloadView> {
    match text_at(fields, "type"@) {
        Some(tag) => {
            if tag == "generate"@ {
                Some(PayloadView::Generate)
            } else if tag == "generate_ok"@ {
                match text_at(fields, "id"@) {
                    Some(guid) => Some(PayloadView::GenerateOk { guid }),
                    None => None,
                }
            } else {
                None
            }
        },
        None => None,
    }
}

/// Whether `fields` are the fields that stand for `payload`.
pub open spec fn unique_fields(payload: PayloadView, fields: Map<Seq<char>, JsonValue>) -> bool {
    match payload {
        PayloadView::Generate => fields == tagged("generate"@),
        PayloadView::GenerateOk { guid } => fields == tagged("generate_ok"@).insert(
            "id"@,
            JsonValue::Text(guid),
        ),
    }
}

/// The names of the protocol's messages and fields are all different.
pub proof fn lemma_unique_names()
    ensures
        "generate"@.len() == 8,
        "generate_ok"@.len() == 11,
        "type"@.len() == 4,
        "id"@.len() == 2,
        "msg_id"@.len() == 6,
        "in_reply_to"@.len() == 11,
{
    reveal_strlit("generate");
    reveal_strlit("generate_ok");
    reveal_strlit("type");
    reveal_strlit("id");
    reveal_strlit("msg_id");
    reveal_strlit("in_reply_to");
}

impl Wire for Payload {
    open spec fn encodes(payload: PayloadView, fields: Map<Seq<char>, JsonValue>) -> bool {
        unique_fields(payload, fields)
    }

    open spec fn decoded(fields: Map<Seq<char>, JsonValue>) -> Option<PayloadView> {
        unique_in(fields)
    }

    open spec fn is_kind(tag: Seq<char>) -> bool {
        tag == "generate"@ || tag == "generate_ok"@
    }

    proof fn lemma_kind_needed(fields: Map<Seq<char>, JsonValue>) {
    }

    proof fn lemma_decodes(
        payload: PayloadView,
        fields: Map<Seq<char>, JsonValue>,
        id: JsonValue,
        in_reply_to: JsonValue,
    ) {
        lemma_unique_names();
    }

    fn to_fields(&self) -> (fields: serde_json::Map<String, serde_json::Value>) {
        proof {
            lemma_unique_names();
        }
        match self {
            Payload::Generate => tag_fields("generate"),
            Payload::GenerateOk { guid } => {
                let mut fields = tag_fields("generate_ok");
                set_field(&mut fields, "id".to_owned(), text(guid.clone()));
                fields
            },
        }
    }

    fn from_fields(fields: &serde_json::Map<String, serde_json::Value>) -> (payload: Option<Self>) {
        let tag = match text_field(fields, "type") {
            Some(tag) => tag,
            None => {
                return None;
            },
        };
        if is_named(&tag, "generate") {
            Some(Payload::Generate)
        } else if is_named(&tag, "generate_ok") {
            match text_field(fields, "id") {
                Some(guid) => Some(Payload::GenerateOk { guid }),
                None => None,
            }
        } else {
            None
        }
    }
}

/// The state of a unique-id node: its name and the id that its next message
/// takes.
pub struct UniqueState {
    pub node_id: Seq<char>,
    pub next_id: usize,
}

/// Why a unique-id node gives up on `event`: it takes messages only, and
/// each message takes an id.
pub open spec fn unique_failure(st: UniqueState, event: EventView<PayloadView, ()>) -> Option<
    NodeError,
> {
    match event {
        EventView::Message(m) => if st.next_id == usize::MAX {
            Some(NodeError::IdsExhausted)
        } else {
            None
        },
        _ => Some(NodeError::UnexpectedEvent),
    }
}

/// The state after `event`.
pub open spec fn unique_state(st: UniqueState, event: EventView<PayloadView, ()>) -> UniqueState {
    match event {
        EventView::Message(m) => UniqueState { next_id: (st.next_id + 1) as usize, ..st },
        _ => st,
    }
}

/// The messages sent on `event`: the answer to a `generate` holds the node's
/// name and the id after the answer's own.
pub open spec fn unique_emitted(st: UniqueState, event: EventView<PayloadView, ()>) -> Seq<
    MessageView<PayloadView>,
> {
    match event {
        EventView::Message(m) => match m.body.payload {
            PayloadView::Generate => seq![
                answer(
                    m,
                    Some(st.next_id),
                    PayloadView::GenerateOk { guid: guid_of(st.node_id, (st.next_id + 1) as nat) },
                ),
            ],
            PayloadView::GenerateOk { guid } => Seq::empty(),
        },
        _ => Seq::empty(),
    }
}

/// A node of the unique-id protocol.
pub struct UniqueNode {
    node_id: String,
    id: usize,
}

impl View for UniqueNode {
    type V = UniqueState;

    closed spec fn view(&self) -> UniqueState {
        UniqueState { node_id: self.node_id@, next_id: self.id }
    }
}

impl Node<(), Payload> for UniqueNode {
    open spec fn initial(state: (), init: InitView) -> Result<UniqueState, NodeError> {
        Ok(UniqueState { node_id: init.node_id, next_id: 1 })
    }

    open spec fn wanted_timer(st: UniqueState) -> Option<Timer<()>> {
        None
    }

    open spec fn failure(st: UniqueState, event: EventView<PayloadView, ()>) -> Option<NodeError> {
        unique_failure(st, event)
    }

    open spec fn next(st: UniqueState, event: EventView<PayloadView, ()>) -> UniqueState {
        unique_state(st, event)
    }

    open spec fn emitted(st: UniqueState, event: EventView<PayloadView, ()>) -> Seq<
        MessageView<PayloadView>,
    > {
        unique_emitted(st, event)
    }

    fn from_init(_state: (), init: Init) -> (made: Result<Self, NodeError>) {
        Ok(UniqueNode { node_id: init.node_id, id: 1 })
    }

    fn timer(&self) -> (wanted: Option<Timer<()>>) {
        None
    }

    fn step(&mut self, input: Event<Payload>, out: &mut Vec<Message<Payload>>) -> (done: Result<
        (),
        NodeError,
    >)
        ensures
            match done {
                Ok(()) => {
                    &&& unique_failure(old(self)@, input@) is None
                    &&& final(self)@ == unique_state(old(self)@, input@)
                    &&& views(final(out)@) == views(old(out)@) + unique_emitted(old(self)@, input@)
                },
                Err(why) => {
                    &&& unique_failure(old(self)@, input@) == Some(why)
                    &&& final(self)@ == old(self)@
                    &&& final(out)@ == old(out)@
                },
            },
    {
        let ghost st = self@;
        let ghost event = input@;
        let input = match input {
            Event::Message(input) => input,
            _ => {
                return Err(NodeError::UnexpectedEvent);
            },
        };
        if self.id == usize::MAX {
            return Err(NodeError::IdsExhausted);
        }
        let mut reply = input.into_reply(Some(&mut self.id));
        match reply.body.payload {
            Payload::Generate => {
                reply.body.payload = Payload::GenerateOk { guid: guid(&self.node_id, self.id) };
                let ghost before = out@;
                out.push(reply);
                assert(views(out@) =~= views(before) + unique_emitted(st, event));
            },
            Payload::GenerateOk { .. } => {
                assert(views(out@) =~= views(out@) + unique_emitted(st, event));
            },
        }
        Ok(())
    }
}

} // verus!
