//! The startup handshake: the first message tells a node who it is, and the
//! node answers before anything else.

use crate::codec::{
    array_at, decode_text, is_named, lemma_decode_needs_kind, lemma_texts_back, names_in,
    names_kind, names_tree, tag_fields, tagged, text_array, text_at, text_field, texts,
    MalformedEnvelope, Wire,
};
use crate::envelope::{answer, Body, Init, InitView, Message, MessageView};
use crate::json::{field, set_field, text, JsonValue};
use vstd::prelude::*;

verus! {

/// The messages of the handshake.
#[derive(Debug, Clone)]
pub enum InitPayload {
    Init(Init),
    InitOk,
}

/// The view of an [`InitPayload`].
pub enum InitPayloadView {
    Init(InitView),
    InitOk,
}

impl View for InitPayload {
    type V = InitPayloadView;

    open spec fn view(&self) -> InitPayloadView {
        match self {
            InitPayload::Init(init) => InitPayloadView::Init(init@),
            InitPayload::InitOk => InitPayloadView::InitOk,
        }
    }
}

/// The payload of the handshake that the fields of a body stand for, if any.
pub open spec fn init_in(fields: Map<Seq<char>, JsonValue>) -> Option<InitPayloadView> {
    match text_at(fields, "type"@) {
        Some(tag) => {
            if tag == "init"@ {
                match (text_at(fields, "node_id"@), array_at(fields, "node_ids"@)) {
                    (Some(node_id), Some(items)) => match names_in(JsonValue::Array(items)) {
                        Some(node_ids) => Some(
                            InitPayloadView::Init(InitView { node_id, node_ids }),
                        ),
                        None => None,
                    },
                    _ => None,
                }
            } else if tag == "init_ok"@ {
                Some(InitPayloadView::InitOk)
            } else {
                None
            }
        },
        None => None,
    }
}

/// Whether `fields` are the fields that stand for a payload of the handshake.
pub open spec fn init_fields(payload: InitPayloadView, fields: Map<Seq<char>, JsonValue>) -> bool {
    match payload {
        InitPayloadView::Init(init) => fields == tagged("init"@).insert(
            "node_id"@,
            JsonValue::Text(init.node_id),
        ).insert("node_ids"@, names_tree(init.node_ids)),
        InitPayloadView::InitOk => fields == tagged("init_ok"@),
    }
}

/// The names of the handshake's messages and fields are all different.
pub proof fn lemma_init_names()
    ensures
        "init"@.len() == 4,
        "init_ok"@.len() == 7,
        "type"@.len() == 4,
        "node_id"@.len() == 7,
        "node_ids"@.len() == 8,
        "msg_id"@.len() == 6,
        "in_reply_to"@.len() == 11,
{
    reveal_strlit("init");
    reveal_strlit("init_ok");
    reveal_strlit("type");
    reveal_strlit("node_id");
    reveal_strlit("node_ids");
    reveal_strlit("msg_id");
    reveal_strlit("in_reply_to");
}

impl Wire for InitPayload {
    open spec fn encodes(payload: InitPayloadView, fields: Map<Seq<char>, JsonValue>) -> bool {
        init_fields(payload, fields)
    }

    open spec fn decoded(fields: Map<Seq<char>, JsonValue>) -> Option<InitPayloadView> {
        init_in(fields)
    }

    open spec fn is_kind(tag: Seq<char>) -> bool {
        tag == "init"@ || tag == "init_ok"@
    }

    proof fn lemma_kind_needed(fields: Map<Seq<char>, JsonValue>) {
    }

    proof fn lemma_decodes(
        payload: InitPayloadView,
        fields: Map<Seq<char>, JsonValue>,
        id: JsonValue,
        in_reply_to: JsonValue,
    ) {
        lemma_init_names();
        match payload {
            InitPayloadView::Init(init) => {
                lemma_texts_back(init.node_ids);
            },
            InitPayloadView::InitOk => {},
        }
    }

    fn to_fields(&self) -> (fields: serde_json::Map<String, serde_json::Value>) {
        proof {
            lemma_init_names();
        }
        match self {
            InitPayload::Init(init) => {
                let mut fields = tag_fields("init");
                set_field(&mut fields, "node_id".to_owned(), text(init.node_id.clone()));
                set_field(&mut fields, "node_ids".to_owned(), text_array(&init.node_ids));
                fields
            },
            InitPayload::InitOk => tag_fields("init_ok"),
        }
    }

    fn from_fields(fields: &serde_json::Map<String, serde_json::Value>) -> (payload: Option<Self>) {
        let tag = match text_field(fields, "type") {
            Some(tag) => tag,
            None => {
                return None;
            },
        };
        if is_named(&tag, "init") {
            let node_id = match text_field(fields, "node_id") {
                Some(node_id) => node_id,
                None => {
                    return None;
                },
            };
            match field(fields, "node_ids") {
                Some(v) => match v.as_array() {
                    Some(items) => match texts(items) {
                        Some(node_ids) => Some(InitPayload::Init(Init { node_id, node_ids })),
                        None => None,
                    },
                    None => None,
                },
                None => None,
            }
        } else if is_named(&tag, "init_ok") {
            Some(InitPayload::InitOk)
        } else {
            None
        }
    }
}

/// Why the first line of input does not start a node.
#[derive(Debug, Clone, Copy, PartialEq, Eq, Structural)]
pub enum HandshakeError {
    /// The line is no message of the handshake.
    Malformed(MalformedEnvelope),
    /// The line is a message of the handshake, but not the request.
    NotInit,
}

/// The answer to the request of the handshake: it carries the id 0.
pub open spec fn init_answer(request: MessageView<InitPayloadView>) -> MessageView<
    InitPayloadView,
> {
    answer(request, Some(0usize), InitPayloadView::InitOk)
}

/// What the first line of input asks for: the startup description and the
/// answer to send, or why the line starts nothing.
pub open spec fn handshake_of(line: Seq<char>) -> Result<
    (InitView, MessageView<InitPayloadView>),
    HandshakeError,
> {
    match decode_text::<InitPayload>(line) {
        Ok(request) => match request.body.payload {
            InitPayloadView::Init(init) => Ok((init, init_answer(request))),
            InitPayloadView::InitOk => Err(HandshakeError::NotInit),
        },
        Err(why) => Err(HandshakeError::Malformed(why)),
    }
}

/// A first line whose body has no `type`, or one that names no message of
/// the handshake, starts nothing.
pub proof fn lemma_handshake_needs_kind(line: Seq<char>)
    requires
        !names_kind::<InitPayload>(line),
    ensures
        handshake_of(line) matches Err(HandshakeError::Malformed(_)),
{
    lemma_decode_needs_kind::<InitPayload>(line);
}

/// Reads the first line of input: the request of the handshake gives the
/// startup description and the answer to send.
pub fn handshake(line: &str) -> (read: Result<(Init, Message<InitPayload>), HandshakeError>)
    ensures
        match read {
            Ok((init, reply)) => handshake_of(line@) matches Ok(asked) && asked.0 == init@
                && asked.1 == reply@,
            Err(why) => handshake_of(line@) matches Err(e) && e == why,
        },
{
    let request = match Message::<InitPayload>::decode(line) {
        Ok(request) => request,
        Err(why) => {
            return Err(HandshakeError::Malformed(why));
        },
    };
    match request.body.payload {
        InitPayload::Init(init) => {
            let reply = Message {
                src: request.dst,
                dst: request.src,
                body: Body {
                    id: Some(0),
                    in_reply_to: request.body.id,
                    payload: InitPayload::InitOk,
                },
            };
            Ok((init, reply))
        },
        InitPayload::InitOk => Err(HandshakeError::NotInit),
    }
}

} // verus!
