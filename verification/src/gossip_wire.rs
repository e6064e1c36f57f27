//! The broadcast protocol on the wire.
//!
//! The `type` field of a body names the message: `broadcast` with `message`,
//! `read_ok` with `messages`, `topology` with `topology`, `gossip` with
//! `seen`, and `broadcast_ok`, `read`, `topology_ok` with nothing more.

use crate::gossip::{topology_view, Payload, PayloadView};
use crate::codec::{
    as_number, is_named, lemma_numbers_back, lemma_texts_back, lists, names_in, names_tree,
    number_array, number_at, numbers, object_at, set_at, tag_fields, tagged, text_array, text_at,
    text_field, texts, Wire,
};
use crate::json::{
    field, keys, no_fields, number, object, object_fields, set_field, value_tree, JsonValue,
};
use crate::names::{entries_map, NameMap};
use crate::sets::{collect, elements, lemma_take_one_more};
use std::collections::HashSet;
use vstd::prelude::*;

verus! {

broadcast use vstd::std_specs::hash::group_hash_axioms;

/// The fields of the object that stands for a topology.
pub open spec fn topology_fields(topology: Map<Seq<char>, Seq<Seq<char>>>) -> Map<
    Seq<char>,
    JsonValue,
> {
    topology.map_values(|names: Seq<Seq<char>>| names_tree(names))
}

/// The neighbours that the fields of an object give each node, where every
/// field holds a list of names.
pub open spec fn topology_in(inner: Map<Seq<char>, JsonValue>) -> Option<
    Map<Seq<char>, Seq<Seq<char>>>,
> {
    if forall|k: Seq<char>| inner.contains_key(k) ==> names_in(#[trigger] inner[k]) is Some {
        Some(inner.map_values(|tree: JsonValue| names_in(tree)->Some_0))
    } else {
        None
    }
}

/// The topology under `key`, where the fields hold one there.
pub open spec fn topology_at(fields: Map<Seq<char>, JsonValue>, key: Seq<char>) -> Option<
    Map<Seq<char>, Seq<Seq<char>>>,
> {
    match object_at(fields, key) {
        Some(inner) => topology_in(inner),
        None => None,
    }
}

/// Whether `tag` is one of the kinds of message of the protocol.
pub open spec fn known_kind(tag: Seq<char>) -> bool {
    ||| tag == "broadcast"@
    ||| tag == "broadcast_ok"@
    ||| tag == "read"@
    ||| tag == "read_ok"@
    ||| tag == "topology"@
    ||| tag == "topology_ok"@
    ||| tag == "gossip"@
}

/// The payload that the fields of a body stand for, if any.
pub open spec fn payload_in(fields: Map<Seq<char>, JsonValue>) -> Option<PayloadView> {
    match text_at(fields, "type"@) {
        Some(tag) => {
            if tag == "broadcast"@ {
                match number_at(fields, "message"@) {
                    Some(message) => Some(PayloadView::Broadcast { message }),
                    None => None,
                }
            } else if tag == "broadcast_ok"@ {
                Some(PayloadView::BroadcastOk)
            } else if tag == "read"@ {
                Some(PayloadView::Read)
            } else if tag == "read_ok"@ {
                match set_at(fields, "messages"@) {
                    Some(messages) => Some(PayloadView::ReadOk { messages }),
                    None => None,
                }
            } else if tag == "topology"@ {
                match topology_at(fields, "topology"@) {
                    Some(topology) => Some(PayloadView::Topology { topology }),
                    None => None,
                }
            } else if tag == "topology_ok"@ {
                Some(PayloadView::TopologyOk)
            } else if tag == "gossip"@ {
                match set_at(fields, "seen"@) {
                    Some(seen) => Some(PayloadView::Gossip { seen }),
                    None => None,
                }
            } else {
                None
            }
        },
        None => None,
    }
}

/// Whether `fields` are the fields that stand for `payload`.
pub open spec fn payload_fields(payload: PayloadView, fields: Map<Seq<char>, JsonValue>) -> bool {
    match payload {
        PayloadView::Broadcast { message } => fields == tagged("broadcast"@).insert(
            "message"@,
            JsonValue::Unsigned(message as u64),
        ),
        PayloadView::BroadcastOk => fields == tagged("broadcast_ok"@),
        PayloadView::Read => fields == tagged("read"@),
        PayloadView::ReadOk { messages } => {
            &&& fields.contains_key("messages"@)
            &&& fields == tagged("read_ok"@).insert("messages"@, fields["messages"@])
            &&& lists(fields["messages"@], messages)
        },
        PayloadView::Topology { topology } => fields == tagged("topology"@).insert(
            "topology"@,
            JsonValue::Object(topology_fields(topology)),
        ),
        PayloadView::TopologyOk => fields == tagged("topology_ok"@),
        PayloadView::Gossip { seen } => {
            &&& fields.contains_key("seen"@)
            &&& fields == tagged("gossip"@).insert("seen"@, fields["seen"@])
            &&& lists(fields["seen"@], seen)
        },
    }
}

/// The names of the kinds of message, and of the fields, are all different.
pub proof fn lemma_names_differ()
    ensures
        "broadcast"@.len() == 9,
        "broadcast_ok"@.len() == 12,
        "read"@.len() == 4,
        "read_ok"@.len() == 7,
        "topology"@.len() == 8,
        "topology_ok"@.len() == 11,
        "gossip"@.len() == 6,
        "type"@.len() == 4,
        "message"@.len() == 7,
        "messages"@.len() == 8,
        "seen"@.len() == 4,
        "msg_id"@.len() == 6,
        "in_reply_to"@.len() == 11,
        "type"@ != "seen"@,
        "messages"@ != "topology"@,
{
    reveal_strlit("broadcast");
    reveal_strlit("broadcast_ok");
    reveal_strlit("read");
    reveal_strlit("read_ok");
    reveal_strlit("topology");
    reveal_strlit("topology_ok");
    reveal_strlit("gossip");
    reveal_strlit("type");
    reveal_strlit("message");
    reveal_strlit("messages");
    reveal_strlit("seen");
    reveal_strlit("msg_id");
    reveal_strlit("in_reply_to");
    assert("type"@[0] != "seen"@[0]);
    assert("messages"@[0] != "topology"@[0]);
}

/// A topology is read back from the object that stands for it.
pub proof fn lemma_topology_back(topology: Map<Seq<char>, Seq<Seq<char>>>)
    ensures
        topology_in(topology_fields(topology)) == Some(topology),
{
    let inner = topology_fields(topology);
    assert forall|k: Seq<char>| inner.contains_key(k) implies names_in(#[trigger] inner[k])
        == Some(topology[k]) by {
        lemma_texts_back(topology[k]);
    }
    assert(topology_in(inner)->Some_0 =~= topology);
}

/// The set of numbers under `key`.
fn set_field_of(fields: &serde_json::Map<String, serde_json::Value>, key: &str) -> (found: Option<
    HashSet<usize>,
>)
    ensures
        match found {
            Some(set) => set_at(object_fields(*fields), key@) == Some(set@),
            None => set_at(object_fields(*fields), key@) is None,
        },
{
    match field(fields, key) {
        Some(v) => match v.as_array() {
            Some(items) => match numbers(items) {
                Some(found) => Some(collect(&found)),
                None => None,
            },
            None => None,
        },
        None => None,
    }
}

/// The topology that an object stands for.
fn topology_of(inner: &serde_json::Map<String, serde_json::Value>) -> (found: Option<
    NameMap<Vec<String>>,
>)
    ensures
        match found {
            Some(topology) => topology_in(object_fields(*inner)) == Some(
                topology_view(topology@),
            ),
            None => topology_in(object_fields(*inner)) is None,
        },
{
    let names = keys(inner);
    let ghost all = object_fields(*inner);
    let ghost listed = names.deep_view();
    let ghost read = all.map_values(|tree: JsonValue| names_in(tree)->Some_0);
    let mut built: NameMap<Vec<String>> = NameMap::new();
    let mut i: usize = 0;
    assert(topology_view(built@) =~= read.restrict(listed.take(0).to_set()));
    while i < names.len()
        invariant
            i <= names@.len(),
            all == object_fields(*inner),
            listed == names.deep_view(),
            listed.to_set() == all.dom(),
            read == all.map_values(|tree: JsonValue| names_in(tree)->Some_0),
            forall|k: Seq<char>|
                listed.take(i as int).to_set().contains(k) ==> names_in(#[trigger] all[k]) is Some,
            topology_view(built@) == read.restrict(listed.take(i as int).to_set()),
        decreases names@.len() - i,
    {
        let name = names[i].clone();
        assert(name@ == listed[i as int]);
        assert(listed.to_set().contains(listed[i as int]));
        let list = match field(inner, name.as_str()) {
            Some(v) => match v.as_array() {
                Some(items) => match texts(items) {
                    Some(list) => list,
                    None => {
                        return None;
                    },
                },
                None => {
                    return None;
                },
            },
            None => {
                return None;
            },
        };
        assert(names_in(all[name@]) == Some(list.deep_view()));
        let ghost before = built@;
        built.insert(name, list);
        proof {
            lemma_take_one_more(listed, i as int);
            assert(topology_view(built@) =~= topology_view(before).insert(
                listed[i as int],
                list.deep_view(),
            ));
            assert(topology_view(built@) =~= read.restrict(listed.take(i + 1).to_set()));
        }
        i += 1;
    }
    proof {
        assert(listed.take(listed.len() as int) =~= listed);
        assert(topology_view(built@) =~= read);
    }
    Some(built)
}

/// The object that stands for a topology.
fn topology_value(topology: &NameMap<Vec<String>>) -> (v: serde_json::Value)
    ensures
        value_tree(v) == JsonValue::Object(topology_fields(topology_view(topology@))),
{
    let mut inner = no_fields();
    let ghost entries = topology.entries@;
    let mut i: usize = topology.entries.len();
    assert(entries.subrange(i as int, entries.len() as int) =~= Seq::empty());
    assert(object_fields(inner) =~= topology_fields(
        topology_view(entries_map(entries.subrange(i as int, entries.len() as int))),
    ));
    while i > 0
        invariant
            i <= entries.len(),
            entries == topology.entries@,
            object_fields(inner) == topology_fields(
                topology_view(entries_map(entries.subrange(i as int, entries.len() as int))),
            ),
        decreases i,
    {
        i -= 1;
        let entry = &topology.entries[i];
        let ghost before = object_fields(inner);
        set_field(&mut inner, entry.0.clone(), text_array(&entry.1));
        proof {
            let longer = entries.subrange(i as int, entries.len() as int);
            let shorter = entries.subrange(i + 1, entries.len() as int);
            assert(longer.drop_first() =~= shorter);
            assert(longer[0] == entries[i as int]);
            assert(entries_map(longer) == entries_map(shorter).insert(
                entries[i as int].0@,
                entries[i as int].1,
            ));
            assert(object_fields(inner) =~= topology_fields(topology_view(entries_map(longer))));
        }
    }
    assert(entries.subrange(0, entries.len() as int) =~= entries);
    object(inner)
}

impl Wire for Payload {
    open spec fn encodes(payload: PayloadView, fields: Map<Seq<char>, JsonValue>) -> bool {
        payload_fields(payload, fields)
    }

    open spec fn decoded(fields: Map<Seq<char>, JsonValue>) -> Option<PayloadView> {
        payload_in(fields)
    }

    open spec fn is_kind(tag: Seq<char>) -> bool {
        known_kind(tag)
    }

    proof fn lemma_kind_needed(fields: Map<Seq<char>, JsonValue>) {
    }

    proof fn lemma_decodes(
        payload: PayloadView,
        fields: Map<Seq<char>, JsonValue>,
        id: JsonValue,
        in_reply_to: JsonValue,
    ) {
        lemma_names_differ();
        match payload {
            PayloadView::Topology { topology } => {
                lemma_topology_back(topology);
            },
            _ => {},
        }
    }

    fn to_fields(&self) -> (fields: serde_json::Map<String, serde_json::Value>) {
        proof {
            lemma_names_differ();
        }
        match self {
            Payload::Broadcast { message } => {
                let mut fields = tag_fields("broadcast");
                set_field(&mut fields, "message".to_owned(), number(*message as u64));
                fields
            },
            Payload::BroadcastOk => tag_fields("broadcast_ok"),
            Payload::Read => tag_fields("read"),
            Payload::ReadOk { messages } => {
                let mut fields = tag_fields("read_ok");
                let items = elements(messages);
                let listed = number_array(&items);
                proof {
                    lemma_numbers_back(items@);
                }
                set_field(&mut fields, "messages".to_owned(), listed);
                fields
            },
            Payload::Topology { topology } => {
                let mut fields = tag_fields("topology");
                set_field(&mut fields, "topology".to_owned(), topology_value(topology));
                fields
            },
            Payload::TopologyOk => tag_fields("topology_ok"),
            Payload::Gossip { seen } => {
                let mut fields = tag_fields("gossip");
                let items = elements(seen);
                let listed = number_array(&items);
                proof {
                    lemma_numbers_back(items@);
                }
                set_field(&mut fields, "seen".to_owned(), listed);
                fields
            },
        }
    }

    fn from_fields(fields: &serde_json::Map<String, serde_json::Value>) -> (payload: Option<Self>) {
        let tag = match text_field(fields, "type") {
            Some(tag) => tag,
            None => {
                return None;
            },
        };
        if is_named(&tag, "broadcast") {
            match field(fields, "message") {
                Some(v) => match as_number(v) {
                    Some(message) => Some(Payload::Broadcast { message }),
                    None => None,
                },
                None => None,
            }
        } else if is_named(&tag, "broadcast_ok") {
            Some(Payload::BroadcastOk)
        } else if is_named(&tag, "read") {
            Some(Payload::Read)
        } else if is_named(&tag, "read_ok") {
            match set_field_of(fields, "messages") {
                Some(messages) => Some(Payload::ReadOk { messages }),
                None => None,
            }
        } else if is_named(&tag, "topology") {
            match field(fields, "topology") {
                Some(v) => match v.as_object() {
                    Some(inner) => match topology_of(inner) {
                        Some(topology) => Some(Payload::Topology { topology }),
                        None => None,
                    },
                    None => None,
                },
                None => None,
            }
        } else if is_named(&tag, "topology_ok") {
            Some(Payload::TopologyOk)
        } else if is_named(&tag, "gossip") {
            match set_field_of(fields, "seen") {
                Some(seen) => Some(Payload::Gossip { seen }),
                None => None,
            }
        } else {
            None
        }
    }
}

} // verus!
