//! The wire format of an envelope: one JSON object per line.
//!
//! An envelope is an object with the fields `src`, `dest` and `body`. The body
//! is an object that holds `msg_id` and `in_reply_to` beside the fields of the
//! payload, of which `type` names the kind of message.

use crate::envelope::{Body, BodyView, Message, MessageView};
use crate::json::{
    array, field, json_bytes, json_parse, json_written, no_fields, null, number, object,
    object_fields, parse, set_field, text, to_bytes, trees, value_tree, JsonValue,
};
use vstd::prelude::*;

verus! {

/// Why a line is not an envelope.
#[derive(Debug, Clone, Copy, PartialEq, Eq, Structural)]
pub enum MalformedEnvelope {
    /// The line is not JSON.
    Json,
    /// The JSON is not an object with a source, a destination and a body, or
    /// an id in the body is not a number.
    Envelope,
    /// The body names no kind of message that is known, or lacks what that
    /// kind of message carries.
    Payload,
}

/// The envelope could not be written as JSON.
#[derive(Debug, Clone, Copy, PartialEq, Eq, Structural)]
pub struct EncodeError;

/// A payload that can travel in the body of an envelope.
pub trait Wire: View + Sized {
    /// Whether `fields` are the fields that stand for `payload` in a body.
    spec fn encodes(payload: Self::V, fields: Map<Seq<char>, JsonValue>) -> bool;

    /// The payload that the fields of a body stand for, if any.
    spec fn decoded(fields: Map<Seq<char>, JsonValue>) -> Option<Self::V>;

    /// Whether `tag` names a kind of message of the protocol.
    spec fn is_kind(tag: Seq<char>) -> bool;

    /// Only a body whose `type` names a kind of message of the protocol
    /// stands for a payload.
    proof fn lemma_kind_needed(fields: Map<Seq<char>, JsonValue>)
        requires
            Self::decoded(fields) is Some,
        ensures
            text_at(fields, "type"@) matches Some(tag) && Self::is_kind(tag),
    ;

    /// The fields of a payload are read back as the payload, whatever ids the
    /// body holds beside them.
    proof fn lemma_decodes(
        payload: Self::V,
        fields: Map<Seq<char>, JsonValue>,
        id: JsonValue,
        in_reply_to: JsonValue,
    )
        requires
            Self::encodes(payload, fields),
        ensures
            Self::decoded(with_ids(fields, id, in_reply_to)) == Some(payload),
    ;

    /// The fields that stand for the payload.
    fn to_fields(&self) -> (fields: serde_json::Map<String, serde_json::Value>)
        ensures
            Self::encodes(self@, object_fields(fields)),
    ;

    /// The payload that the fields of a body stand for, if any.
    fn from_fields(fields: &serde_json::Map<String, serde_json::Value>) -> (payload: Option<Self>)
        ensures
            match payload {
                Some(p) => Self::decoded(object_fields(*fields)) == Some(p@),
                None => Self::decoded(object_fields(*fields)) is None,
            },
    ;
}

/// The text under `key`, where the fields hold a text there.
pub open spec fn text_at(fields: Map<Seq<char>, JsonValue>, key: Seq<char>) -> Option<Seq<char>> {
    if fields.contains_key(key) {
        match fields[key] {
            JsonValue::Text(chars) => Some(chars),
            _ => None,
        }
    } else {
        None
    }
}

/// The object under `key`, where the fields hold an object there.
pub open spec fn object_at(fields: Map<Seq<char>, JsonValue>, key: Seq<char>) -> Option<
    Map<Seq<char>, JsonValue>,
> {
    if fields.contains_key(key) {
        match fields[key] {
            JsonValue::Object(inner) => Some(inner),
            _ => None,
        }
    } else {
        None
    }
}

/// The items under `key`, where the fields hold an array there.
pub open spec fn array_at(fields: Map<Seq<char>, JsonValue>, key: Seq<char>) -> Option<
    Seq<JsonValue>,
> {
    if fields.contains_key(key) {
        match fields[key] {
            JsonValue::Array(items) => Some(items),
            _ => None,
        }
    } else {
        None
    }
}

/// The number that a value holds, where it is an unsigned integer that fits
/// the machine's word.
pub open spec fn number_of(tree: JsonValue) -> Option<usize> {
    match tree {
        JsonValue::Unsigned(n) => if n <= usize::MAX {
            Some(n as usize)
        } else {
            None
        },
        _ => None,
    }
}

/// The number under `key`, where the fields hold one there.
pub open spec fn number_at(fields: Map<Seq<char>, JsonValue>, key: Seq<char>) -> Option<usize> {
    if fields.contains_key(key) {
        number_of(fields[key])
    } else {
        None
    }
}

/// The id under `key`: none where the key is missing or leads to `null`, the
/// number where it leads to one. The outer `None` says that the key leads to
/// anything else.
pub open spec fn id_at(fields: Map<Seq<char>, JsonValue>, key: Seq<char>) -> Option<
    Option<usize>,
> {
    if !fields.contains_key(key) || fields[key] is Null {
        Some(None)
    } else {
        match number_of(fields[key]) {
            Some(n) => Some(Some(n)),
            None => None,
        }
    }
}

/// The fields of a body that names its kind and carries nothing more.
pub open spec fn tagged(tag: Seq<char>) -> Map<Seq<char>, JsonValue> {
    Map::<Seq<char>, JsonValue>::empty().insert("type"@, JsonValue::Text(tag))
}

/// The value that stands for a list of names.
pub open spec fn names_tree(names: Seq<Seq<char>>) -> JsonValue {
    JsonValue::Array(text_trees(names))
}

/// The names that a value holds, where it is an array of texts.
pub open spec fn names_in(tree: JsonValue) -> Option<Seq<Seq<char>>> {
    match tree {
        JsonValue::Array(items) => texts_of(items),
        _ => None,
    }
}

/// The value that stands for an id.
pub open spec fn id_tree(id: Option<usize>) -> JsonValue {
    match id {
        Some(n) => JsonValue::Unsigned(n as u64),
        None => JsonValue::Null,
    }
}

/// The fields of a body: those of the payload, and the two ids.
pub open spec fn with_ids(fields: Map<Seq<char>, JsonValue>, id: JsonValue, in_reply_to: JsonValue)
    -> Map<Seq<char>, JsonValue> {
    fields.insert("msg_id"@, id).insert("in_reply_to"@, in_reply_to)
}

/// The envelope of a message whose payload is written as `fields`.
pub open spec fn envelope_tree<P>(message: MessageView<P>, fields: Map<Seq<char>, JsonValue>)
    -> JsonValue {
    JsonValue::Object(
        Map::<Seq<char>, JsonValue>::empty().insert("src"@, JsonValue::Text(message.src)).insert(
            "dest"@,
            JsonValue::Text(message.dst),
        ).insert(
            "body"@,
            JsonValue::Object(
                with_ids(fields, id_tree(message.body.id), id_tree(message.body.in_reply_to)),
            ),
        ),
    )
}

/// Whether `tree` is an envelope of `message`.
pub open spec fn encodes<P: Wire>(message: MessageView<P::V>, tree: JsonValue) -> bool {
    exists|fields: Map<Seq<char>, JsonValue>| #[trigger]
        P::encodes(message.body.payload, fields) && tree == envelope_tree(message, fields)
}

/// The message that a JSON value stands for, or why it stands for none.
pub open spec fn decode_tree<P: Wire>(tree: JsonValue) -> Result<
    MessageView<P::V>,
    MalformedEnvelope,
> {
    match tree {
        JsonValue::Object(top) => match (
            text_at(top, "src"@),
            text_at(top, "dest"@),
            object_at(top, "body"@),
        ) {
            (Some(src), Some(dst), Some(body)) => match (
                id_at(body, "msg_id"@),
                id_at(body, "in_reply_to"@),
            ) {
                (Some(id), Some(in_reply_to)) => match P::decoded(body) {
                    Some(payload) => Ok(
                        MessageView { src, dst, body: BodyView { id, in_reply_to, payload } },
                    ),
                    None => Err(MalformedEnvelope::Payload),
                },
                _ => Err(MalformedEnvelope::Envelope),
            },
            _ => Err(MalformedEnvelope::Envelope),
        },
        _ => Err(MalformedEnvelope::Envelope),
    }
}

/// The message that a line stands for, or why it stands for none.
pub open spec fn decode_text<P: Wire>(line: Seq<char>) -> Result<
    MessageView<P::V>,
    MalformedEnvelope,
> {
    match json_parse(line) {
        Some(tree) => decode_tree::<P>(tree),
        None => Err(MalformedEnvelope::Json),
    }
}

/// Whether `tree` is written as JSON and `after` is `before` with its line
/// added: its JSON text, which holds no line feed, and a line feed.
pub open spec fn is_line(before: Seq<u8>, after: Seq<u8>, tree: JsonValue) -> bool {
    &&& json_written(tree) is Some && after == before + json_bytes(tree) + seq![10u8]
    &&& !json_bytes(tree).contains(10u8)
}

/// Whether `line` is a JSON object whose body names, under `type`, a kind of
/// message of the protocol.
pub open spec fn names_kind<P: Wire>(line: Seq<char>) -> bool {
    &&& json_parse(line) matches Some(JsonValue::Object(top))
    &&& object_at(top, "body"@) matches Some(body)
    &&& text_at(body, "type"@) matches Some(tag)
    &&& P::is_kind(tag)
}

/// A line whose body has no `type`, or one that names no kind of message of
/// the protocol, stands for no message: only a line that names a kind is
/// read.
pub proof fn lemma_decode_needs_kind<P: Wire>(line: Seq<char>)
    requires
        !names_kind::<P>(line),
    ensures
        decode_text::<P>(line) is Err,
{
    if decode_text::<P>(line) is Ok {
        let top = json_parse(line)->Some_0->Object_0;
        let body = object_at(top, "body"@)->Some_0;
        P::lemma_kind_needed(body);
    }
}

/// Whether an envelope of `message` is not written as JSON.
pub open spec fn refused<P: Wire>(message: MessageView<P::V>) -> bool {
    exists|tree: JsonValue| #[trigger] encodes::<P>(message, tree) && json_written(tree) is None
}

/// The names of the envelope's fields are all different.
pub proof fn lemma_field_names()
    ensures
        "src"@ != "dest"@,
        "src"@ != "body"@,
        "dest"@ != "body"@,
        "msg_id"@ != "in_reply_to"@,
{
    reveal_strlit("src");
    reveal_strlit("dest");
    reveal_strlit("body");
    reveal_strlit("msg_id");
    reveal_strlit("in_reply_to");
    assert("src"@.len() != "dest"@.len());
    assert("src"@.len() != "body"@.len());
    assert("dest"@[0] != "body"@[0]);
    assert("msg_id"@.len() != "in_reply_to"@.len());
}

/// An envelope is read back as the message it was written for.
pub proof fn lemma_round_trip<P: Wire>(message: MessageView<P::V>, tree: JsonValue)
    requires
        encodes::<P>(message, tree),
    ensures
        decode_tree::<P>(tree) == Ok::<MessageView<P::V>, MalformedEnvelope>(message),
{
    let fields = choose|fields: Map<Seq<char>, JsonValue>| #[trigger]
        P::encodes(message.body.payload, fields) && tree == envelope_tree(message, fields);
    let id = id_tree(message.body.id);
    let in_reply_to = id_tree(message.body.in_reply_to);
    lemma_field_names();
    P::lemma_decodes(message.body.payload, fields, id, in_reply_to);
    let body = with_ids(fields, id, in_reply_to);
    assert(id_at(body, "msg_id"@) == Some(message.body.id));
    assert(id_at(body, "in_reply_to"@) == Some(message.body.in_reply_to));
    let decoded = decode_tree::<P>(tree);
    assert(decoded is Ok);
    assert(decoded->Ok_0.body.payload == message.body.payload);
    assert(decoded->Ok_0 == message);
}

/// Writing a message that was read yields an envelope with the same content:
/// read again, it gives the same message.
pub proof fn lemma_rewrite_keeps_content<P: Wire>(
    first: JsonValue,
    message: MessageView<P::V>,
    second: JsonValue,
)
    requires
        decode_tree::<P>(first) == Ok::<MessageView<P::V>, MalformedEnvelope>(message),
        encodes::<P>(message, second),
    ensures
        decode_tree::<P>(second) == decode_tree::<P>(first),
{
    lemma_round_trip::<P>(message, second);
}

/// The value that stands for an id.
fn id_value(id: Option<usize>) -> (v: serde_json::Value)
    ensures
        value_tree(v) == id_tree(id),
{
    match id {
        Some(n) => number(n as u64),
        None => null(),
    }
}

/// The number that a value holds, where it is one that fits.
pub fn as_number(v: &serde_json::Value) -> (n: Option<usize>)
    ensures
        n == number_of(value_tree(*v)),
{
    match v.as_u64() {
        Some(n) => if n <= usize::MAX as u64 {
            Some(n as usize)
        } else {
            None
        },
        None => None,
    }
}

/// The text under `key`, copied out.
pub fn text_field(fields: &serde_json::Map<String, serde_json::Value>, key: &str) -> (found:
    Option<String>)
    ensures
        match found {
            Some(s) => text_at(object_fields(*fields), key@) == Some(s@),
            None => text_at(object_fields(*fields), key@) is None,
        },
{
    match field(fields, key) {
        Some(v) => match v.as_str() {
            Some(s) => Some(s.to_owned()),
            None => None,
        },
        None => None,
    }
}

/// The id under `key`.
fn id_field(fields: &serde_json::Map<String, serde_json::Value>, key: &str) -> (found: Option<
    Option<usize>,
>)
    ensures
        found == id_at(object_fields(*fields), key@),
{
    match field(fields, key) {
        Some(v) => if v.is_null() {
            Some(None)
        } else {
            match as_number(v) {
                Some(n) => Some(Some(n)),
                None => None,
            }
        },
        None => Some(None),
    }
}

/// The text that a value holds, where it is a text.
pub open spec fn text_of(tree: JsonValue) -> Option<Seq<char>> {
    match tree {
        JsonValue::Text(chars) => Some(chars),
        _ => None,
    }
}

/// The numbers that the items of an array hold, where each holds one.
pub open spec fn numbers_of(items: Seq<JsonValue>) -> Option<Seq<usize>> {
    if forall|i: int| 0 <= i < items.len() ==> number_of(#[trigger] items[i]) is Some {
        Some(items.map_values(|tree: JsonValue| number_of(tree)->Some_0))
    } else {
        None
    }
}

/// The texts that the items of an array hold, where each holds one.
pub open spec fn texts_of(items: Seq<JsonValue>) -> Option<Seq<Seq<char>>> {
    if forall|i: int| 0 <= i < items.len() ==> text_of(#[trigger] items[i]) is Some {
        Some(items.map_values(|tree: JsonValue| text_of(tree)->Some_0))
    } else {
        None
    }
}

/// The values that stand for a list of numbers.
pub open spec fn number_trees(items: Seq<usize>) -> Seq<JsonValue> {
    items.map_values(|n: usize| JsonValue::Unsigned(n as u64))
}

/// The values that stand for a list of texts.
pub open spec fn text_trees(items: Seq<Seq<char>>) -> Seq<JsonValue> {
    items.map_values(|chars: Seq<char>| JsonValue::Text(chars))
}

/// The set of numbers under `key`, where the fields hold an array of numbers
/// there. A number may occur more than once.
pub open spec fn set_at(fields: Map<Seq<char>, JsonValue>, key: Seq<char>) -> Option<Set<usize>> {
    match array_at(fields, key) {
        Some(items) => match numbers_of(items) {
            Some(numbers) => Some(numbers.to_set()),
            None => None,
        },
        None => None,
    }
}

/// Whether `tree` is an array that lists the numbers of `set`, each once, in
/// some order.
pub open spec fn lists(tree: JsonValue, set: Set<usize>) -> bool {
    &&& tree matches JsonValue::Array(items)
    &&& numbers_of(items) matches Some(numbers)
    &&& numbers.no_duplicates()
    &&& numbers.to_set() == set
}

/// A list of numbers is read back from the values that stand for it.
pub proof fn lemma_numbers_back(items: Seq<usize>)
    ensures
        numbers_of(number_trees(items)) == Some(items),
{
    let made = number_trees(items);
    assert forall|i: int| 0 <= i < made.len() implies number_of(#[trigger] made[i]) == Some(
        items[i],
    ) by {
        assert(made[i] == JsonValue::Unsigned(items[i] as u64));
    }
    assert(numbers_of(made)->Some_0 =~= items);
}

/// A list of texts is read back from the values that stand for it.
pub proof fn lemma_texts_back(items: Seq<Seq<char>>)
    ensures
        texts_of(text_trees(items)) == Some(items),
{
    let made = text_trees(items);
    assert forall|i: int| 0 <= i < made.len() implies text_of(#[trigger] made[i]) == Some(
        items[i],
    ) by {
        assert(made[i] == JsonValue::Text(items[i]));
    }
    assert(texts_of(made)->Some_0 =~= items);
}

/// The numbers that the items of an array hold.
pub fn numbers(items: &Vec<serde_json::Value>) -> (read: Option<Vec<usize>>)
    ensures
        match read {
            Some(found) => numbers_of(trees(items@)) == Some(found@),
            None => numbers_of(trees(items@)) is None,
        },
{
    let mut found: Vec<usize> = Vec::new();
    let ghost all = trees(items@);
    let mut i: usize = 0;
    while i < items.len()
        invariant
            i <= items@.len(),
            all == trees(items@),
            found@.len() == i,
            forall|j: int| 0 <= j < i ==> number_of(#[trigger] all[j]) == Some(found@[j]),
        decreases items@.len() - i,
    {
        assert(all[i as int] == value_tree(items@[i as int]));
        match as_number(&items[i]) {
            Some(n) => {
                found.push(n);
            },
            None => {
                return None;
            },
        }
        i += 1;
    }
    assert(numbers_of(all)->Some_0 =~= found@);
    Some(found)
}

/// The texts that the items of an array hold, copied out.
pub fn texts(items: &Vec<serde_json::Value>) -> (read: Option<Vec<String>>)
    ensures
        match read {
            Some(found) => texts_of(trees(items@)) == Some(found.deep_view()),
            None => texts_of(trees(items@)) is None,
        },
{
    let mut found: Vec<String> = Vec::new();
    let ghost all = trees(items@);
    let mut i: usize = 0;
    while i < items.len()
        invariant
            i <= items@.len(),
            all == trees(items@),
            found@.len() == i,
            forall|j: int| 0 <= j < i ==> text_of(#[trigger] all[j]) == Some(found@[j]@),
        decreases items@.len() - i,
    {
        assert(all[i as int] == value_tree(items@[i as int]));
        match items[i].as_str() {
            Some(s) => {
                found.push(s.to_owned());
            },
            None => {
                return None;
            },
        }
        i += 1;
    }
    assert(texts_of(all)->Some_0 =~= found.deep_view());
    Some(found)
}

/// The array that stands for a list of numbers.
pub fn number_array(items: &Vec<usize>) -> (v: serde_json::Value)
    ensures
        value_tree(v) == JsonValue::Array(number_trees(items@)),
{
    let mut values: Vec<serde_json::Value> = Vec::new();
    let mut i: usize = 0;
    while i < items.len()
        invariant
            i <= items@.len(),
            values@.len() == i,
            trees(values@) == number_trees(items@.take(i as int)),
        decreases items@.len() - i,
    {
        let ghost before = values@;
        values.push(number(items[i] as u64));
        assert(trees(values@) =~= number_trees(items@.take(i + 1))) by {
            assert(trees(before) == number_trees(items@.take(i as int)));
            assert forall|j: int| 0 <= j < i + 1 implies trees(values@)[j] == number_trees(
                items@.take(i + 1),
            )[j] by {
                if j < i {
                    assert(trees(values@)[j] == trees(before)[j]);
                    assert(number_trees(items@.take(i as int))[j] == number_trees(
                        items@.take(i + 1),
                    )[j]);
                }
            }
        }
        i += 1;
    }
    assert(items@.take(items@.len() as int) =~= items@);
    array(values)
}

/// The array that stands for a list of texts.
pub fn text_array(items: &Vec<String>) -> (v: serde_json::Value)
    ensures
        value_tree(v) == JsonValue::Array(text_trees(items.deep_view())),
{
    let mut values: Vec<serde_json::Value> = Vec::new();
    let ghost names = items.deep_view();
    let mut i: usize = 0;
    while i < items.len()
        invariant
            i <= items@.len(),
            names == items.deep_view(),
            values@.len() == i,
            trees(values@) == text_trees(names.take(i as int)),
        decreases items@.len() - i,
    {
        let ghost before = values@;
        values.push(text(items[i].clone()));
        assert(trees(values@) =~= text_trees(names.take(i + 1))) by {
            assert(trees(before) == text_trees(names.take(i as int)));
            assert forall|j: int| 0 <= j < i + 1 implies trees(values@)[j] == text_trees(
                names.take(i + 1),
            )[j] by {
                if j < i {
                    assert(trees(values@)[j] == trees(before)[j]);
                    assert(text_trees(names.take(i as int))[j] == text_trees(names.take(i + 1))[j]);
                }
            }
        }
        i += 1;
    }
    assert(names.take(names.len() as int) =~= names);
    array(values)
}

/// Whether a text is the given name.
pub fn is_named(tag: &String, name: &str) -> (same: bool)
    ensures
        same == (tag@ == name@),
{
    *tag == name.to_owned()
}

/// The fields of a body that names its kind.
pub fn tag_fields(tag: &str) -> (fields: serde_json::Map<String, serde_json::Value>)
    ensures
        object_fields(fields) == tagged(tag@),
{
    let mut fields = no_fields();
    set_field(&mut fields, "type".to_owned(), text(tag.to_owned()));
    fields
}

impl<P: Wire> Message<P> {
    /// The envelope of the message, as a JSON value.
    pub fn to_value(&self) -> (v: serde_json::Value)
        ensures
            encodes::<P>(self@, value_tree(v)),
    {
        let mut body = self.body.payload.to_fields();
        let ghost fields = object_fields(body);
        set_field(&mut body, "msg_id".to_owned(), id_value(self.body.id));
        set_field(&mut body, "in_reply_to".to_owned(), id_value(self.body.in_reply_to));
        let mut top = no_fields();
        set_field(&mut top, "src".to_owned(), text(self.src.clone()));
        set_field(&mut top, "dest".to_owned(), text(self.dst.clone()));
        set_field(&mut top, "body".to_owned(), object(body));
        let v = object(top);
        assert(P::encodes(self@.body.payload, fields));
        assert(value_tree(v) == envelope_tree(self@, fields));
        v
    }

    /// Writes the message to `out` as one line, where its envelope is written
    /// as JSON: the text, which holds no line feed, and a line feed. Where the
    /// envelope is not written as JSON, it fails and `out` is left alone.
    pub fn send(&self, out: &mut Vec<u8>) -> (sent: Result<(), EncodeError>)
        ensures
            exists|tree: JsonValue| #[trigger]
                encodes::<P>(self@, tree) && match sent {
                    Ok(()) => is_line(old(out)@, final(out)@, tree),
                    Err(_) => json_written(tree) is None && final(out)@ == old(out)@,
                },
    {
        let v = self.to_value();
        let added = append_line(out, to_bytes(&v));
        assert(encodes::<P>(self@, value_tree(v)));
        added
    }

    /// The message that a JSON value stands for.
    pub fn from_value(value: &serde_json::Value) -> (read: Result<Self, MalformedEnvelope>)
        ensures
            match read {
                Ok(message) => decode_tree::<P>(value_tree(*value)) matches Ok(m) && m == message@,
                Err(why) => decode_tree::<P>(value_tree(*value)) matches Err(e) && e == why,
            },
    {
        let top = match value.as_object() {
            Some(top) => top,
            None => { return Err(MalformedEnvelope::Envelope); },
        };
        let src = match text_field(top, "src") {
            Some(src) => src,
            None => { return Err(MalformedEnvelope::Envelope); },
        };
        let dst = match text_field(top, "dest") {
            Some(dst) => dst,
            None => { return Err(MalformedEnvelope::Envelope); },
        };
        let body = match field(top, "body") {
            Some(v) => match v.as_object() {
                Some(body) => body,
                None => { return Err(MalformedEnvelope::Envelope); },
            },
            None => { return Err(MalformedEnvelope::Envelope); },
        };
        let id = match id_field(body, "msg_id") {
            Some(id) => id,
            None => { return Err(MalformedEnvelope::Envelope); },
        };
        let in_reply_to = match id_field(body, "in_reply_to") {
            Some(id) => id,
            None => { return Err(MalformedEnvelope::Envelope); },
        };
        match P::from_fields(body) {
            Some(payload) => Ok(Message { src, dst, body: Body { id, in_reply_to, payload } }),
            None => Err(MalformedEnvelope::Payload),
        }
    }

    /// The message that a line stands for.
    pub fn decode(line: &str) -> (read: Result<Self, MalformedEnvelope>)
        ensures
            match read {
                Ok(message) => decode_text::<P>(line@) matches Ok(m) && m == message@,
                Err(why) => decode_text::<P>(line@) matches Err(e) && e == why,
            },
    {
        match parse(line) {
            Ok(value) => Self::from_value(&value),
            Err(_) => Err(MalformedEnvelope::Json),
        }
    }
}

/// Adds to `out` the line that the text of an envelope makes: the text and a
/// line feed. Where there is no text, because the envelope was not written,
/// it fails and `out` is left alone.
pub fn append_line(out: &mut Vec<u8>, text: Result<Vec<u8>, serde_json::Error>) -> (added: Result<
    (),
    EncodeError,
>)
    ensures
        match text {
            Ok(bytes) => added is Ok && final(out)@ == old(out)@ + bytes@ + seq![10u8],
            Err(_) => added is Err && final(out)@ == old(out)@,
        },
{
    match text {
        Ok(bytes) => {
            let mut bytes = bytes;
            out.append(&mut bytes);
            out.push(10u8);
            assert(out@ =~= old(out)@ + text->Ok_0@ + seq![10u8]);
            Ok(())
        },
        Err(_) => Err(EncodeError),
    }
}

} // verus!
