use std::collections::HashSet;
use whirlpool::gossip::Payload;
use whirlpool::codec::{
    append_line, as_number, is_named, number_array, numbers, tag_fields, text_array, text_field,
    texts,
};
use whirlpool::names::NameMap;
use whirlpool::{Body, EncodeError, MalformedEnvelope, Message};

fn set_of(items: &[usize]) -> HashSet<usize> {
    items.iter().copied().collect()
}

fn message(payload: Payload) -> Message<Payload> {
    Message {
        src: "n1".to_string(),
        dst: "c1".to_string(),
        body: Body { id: Some(2), in_reply_to: Some(1), payload },
    }
}

fn line_of(message: &Message<Payload>) -> String {
    let mut out: Vec<u8> = Vec::new();
    assert_eq!(message.send(&mut out), Ok::<(), EncodeError>(()));
    assert_eq!(out.last(), Some(&b'\n'));
    String::from_utf8(out).unwrap()
}

fn decode(line: &str) -> Result<Message<Payload>, MalformedEnvelope> {
    Message::<Payload>::decode(line)
}

#[test]
fn decodes_a_broadcast() {
    let m = decode(r#"{"src":"c1","dest":"n1","body":{"type":"broadcast","msg_id":7,"message":5}}"#)
        .unwrap();
    assert_eq!(m.src, "c1");
    assert_eq!(m.dst, "n1");
    assert_eq!(m.body.id, Some(7));
    assert_eq!(m.body.in_reply_to, None);
    assert!(matches!(m.body.payload, Payload::Broadcast { message: 5 }));
}

#[test]
fn decodes_every_kind_without_fields() {
    let read = decode(r#"{"src":"c1","dest":"n1","body":{"type":"read"}}"#).unwrap();
    assert!(matches!(read.body.payload, Payload::Read));
    let ok = decode(r#"{"src":"c1","dest":"n1","body":{"type":"broadcast_ok"}}"#).unwrap();
    assert!(matches!(ok.body.payload, Payload::BroadcastOk));
    let ok = decode(r#"{"src":"c1","dest":"n1","body":{"type":"topology_ok"}}"#).unwrap();
    assert!(matches!(ok.body.payload, Payload::TopologyOk));
}

#[test]
fn decodes_sets_with_repetition() {
    let m = decode(r#"{"src":"n2","dest":"n1","body":{"type":"gossip","seen":[3,1,3]}}"#).unwrap();
    match m.body.payload {
        Payload::Gossip { seen } => assert_eq!(seen, set_of(&[1, 3])),
        other => panic!("not gossip: {:?}", other),
    }
    let m = decode(r#"{"src":"n2","dest":"n1","body":{"type":"read_ok","messages":[]}}"#).unwrap();
    match m.body.payload {
        Payload::ReadOk { messages } => assert!(messages.is_empty()),
        other => panic!("not read_ok: {:?}", other),
    }
}

#[test]
fn decodes_a_topology() {
    let m = decode(
        r#"{"src":"c1","dest":"n1","body":{"type":"topology","msg_id":1,"topology":{"n1":["n2","n3"],"n2":["n1"],"n3":["n1"]}}}"#,
    )
    .unwrap();
    match m.body.payload {
        Payload::Topology { topology } => {
            assert_eq!(
                topology.get(&"n1".to_string()),
                Some(&vec!["n2".to_string(), "n3".to_string()])
            );
            assert_eq!(topology.get(&"n2".to_string()), Some(&vec!["n1".to_string()]));
            assert_eq!(topology.get(&"n3".to_string()), Some(&vec!["n1".to_string()]));
            assert_eq!(topology.get(&"n4".to_string()), None);
            assert_eq!(topology.entries.len(), 3);
        },
        other => panic!("not a topology: {:?}", other),
    }
}

#[test]
fn missing_and_null_ids_are_absent() {
    let m = decode(r#"{"src":"c1","dest":"n1","body":{"type":"read","msg_id":null}}"#).unwrap();
    assert_eq!(m.body.id, None);
    assert_eq!(m.body.in_reply_to, None);
    let m = decode(r#"{"src":"c1","dest":"n1","body":{"type":"read","in_reply_to":4}}"#).unwrap();
    assert_eq!(m.body.id, None);
    assert_eq!(m.body.in_reply_to, Some(4));
}

#[test]
fn unknown_fields_are_passed_over() {
    let m = decode(
        r#"{"id":3,"src":"c1","dest":"n1","extra":[1],"body":{"type":"read","msg_id":1,"colour":"red"}}"#,
    )
    .unwrap();
    assert_eq!(m.body.id, Some(1));
    assert!(matches!(m.body.payload, Payload::Read));
}

#[test]
fn a_line_without_type_is_refused() {
    let r = decode(r#"{"src":"c1","dest":"n1","body":{"msg_id":1,"message":5}}"#);
    assert_eq!(r.err(), Some(MalformedEnvelope::Payload));
}

#[test]
fn an_unknown_type_is_refused() {
    let r = decode(r#"{"src":"c1","dest":"n1","body":{"type":"shout","msg_id":1}}"#);
    assert_eq!(r.err(), Some(MalformedEnvelope::Payload));
    let r = decode(r#"{"src":"c1","dest":"n1","body":{"type":"Broadcast","message":1}}"#);
    assert_eq!(r.err(), Some(MalformedEnvelope::Payload));
    let r = decode(r#"{"src":"c1","dest":"n1","body":{"type":7}}"#);
    assert_eq!(r.err(), Some(MalformedEnvelope::Payload));
}

#[test]
fn a_kind_without_its_fields_is_refused() {
    let r = decode(r#"{"src":"c1","dest":"n1","body":{"type":"broadcast"}}"#);
    assert_eq!(r.err(), Some(MalformedEnvelope::Payload));
    let r = decode(r#"{"src":"c1","dest":"n1","body":{"type":"broadcast","message":-1}}"#);
    assert_eq!(r.err(), Some(MalformedEnvelope::Payload));
    let r = decode(r#"{"src":"c1","dest":"n1","body":{"type":"broadcast","message":1.5}}"#);
    assert_eq!(r.err(), Some(MalformedEnvelope::Payload));
    let r = decode(r#"{"src":"c1","dest":"n1","body":{"type":"gossip","seen":[1,"x"]}}"#);
    assert_eq!(r.err(), Some(MalformedEnvelope::Payload));
    let r = decode(r#"{"src":"c1","dest":"n1","body":{"type":"gossip","seen":3}}"#);
    assert_eq!(r.err(), Some(MalformedEnvelope::Payload));
    let r = decode(r#"{"src":"c1","dest":"n1","body":{"type":"topology","topology":{"n1":"n2"}}}"#);
    assert_eq!(r.err(), Some(MalformedEnvelope::Payload));
    let r = decode(r#"{"src":"c1","dest":"n1","body":{"type":"topology","topology":{"n1":[1]}}}"#);
    assert_eq!(r.err(), Some(MalformedEnvelope::Payload));
    let r = decode(r#"{"src":"c1","dest":"n1","body":{"type":"topology","topology":[]}}"#);
    assert_eq!(r.err(), Some(MalformedEnvelope::Payload));
}

#[test]
fn text_that_is_not_json_is_refused() {
    assert_eq!(decode("").err(), Some(MalformedEnvelope::Json));
    assert_eq!(decode("{").err(), Some(MalformedEnvelope::Json));
    assert_eq!(decode("hello").err(), Some(MalformedEnvelope::Json));
    assert_eq!(
        decode(r#"{"src":"c1","dest":"n1","body":{"type":"read"}} x"#).err(),
        Some(MalformedEnvelope::Json)
    );
}

#[test]
fn json_that_is_no_envelope_is_refused() {
    assert_eq!(decode("[]").err(), Some(MalformedEnvelope::Envelope));
    assert_eq!(decode("3").err(), Some(MalformedEnvelope::Envelope));
    assert_eq!(
        decode(r#"{"dest":"n1","body":{"type":"read"}}"#).err(),
        Some(MalformedEnvelope::Envelope)
    );
    assert_eq!(
        decode(r#"{"src":"c1","dst":"n1","body":{"type":"read"}}"#).err(),
        Some(MalformedEnvelope::Envelope)
    );
    assert_eq!(decode(r#"{"src":"c1","dest":"n1"}"#).err(), Some(MalformedEnvelope::Envelope));
    assert_eq!(
        decode(r#"{"src":1,"dest":"n1","body":{"type":"read"}}"#).err(),
        Some(MalformedEnvelope::Envelope)
    );
    assert_eq!(
        decode(r#"{"src":"c1","dest":"n1","body":"read"}"#).err(),
        Some(MalformedEnvelope::Envelope)
    );
    assert_eq!(
        decode(r#"{"src":"c1","dest":"n1","body":{"type":"read","msg_id":"1"}}"#).err(),
        Some(MalformedEnvelope::Envelope)
    );
    assert_eq!(
        decode(r#"{"src":"c1","dest":"n1","body":{"type":"read","in_reply_to":-2}}"#).err(),
        Some(MalformedEnvelope::Envelope)
    );
}

#[test]
fn a_bad_envelope_is_told_before_a_bad_payload() {
    assert_eq!(
        decode(r#"{"src":"c1","dest":"n1","body":{"type":"shout","msg_id":"1"}}"#).err(),
        Some(MalformedEnvelope::Envelope)
    );
}

#[test]
fn send_writes_one_line_with_sorted_keys() {
    let line = line_of(&message(Payload::BroadcastOk));
    assert_eq!(
        line,
        "{\"body\":{\"in_reply_to\":1,\"msg_id\":2,\"type\":\"broadcast_ok\"},\"dest\":\"c1\",\"src\":\"n1\"}\n"
    );
}

#[test]
fn send_writes_absent_ids_as_null() {
    let m = Message {
        src: "n1".to_string(),
        dst: "n2".to_string(),
        body: Body { id: None, in_reply_to: None, payload: Payload::Gossip { seen: set_of(&[8]) } },
    };
    assert_eq!(
        line_of(&m),
        "{\"body\":{\"in_reply_to\":null,\"msg_id\":null,\"seen\":[8],\"type\":\"gossip\"},\"dest\":\"n2\",\"src\":\"n1\"}\n"
    );
}

#[test]
fn send_appends_to_what_is_there() {
    let mut out: Vec<u8> = b"first\n".to_vec();
    message(Payload::Read).send(&mut out).unwrap();
    message(Payload::TopologyOk).send(&mut out).unwrap();
    let text = String::from_utf8(out).unwrap();
    let lines: Vec<&str> = text.lines().collect();
    assert_eq!(lines.len(), 3);
    assert_eq!(lines[0], "first");
    assert!(matches!(decode(lines[1]).unwrap().body.payload, Payload::Read));
    assert!(matches!(decode(lines[2]).unwrap().body.payload, Payload::TopologyOk));
    assert!(text.ends_with('\n'));
}

#[test]
fn send_writes_a_broadcast_and_a_topology() {
    assert_eq!(
        line_of(&message(Payload::Broadcast { message: 1000 })),
        "{\"body\":{\"in_reply_to\":1,\"message\":1000,\"msg_id\":2,\"type\":\"broadcast\"},\"dest\":\"c1\",\"src\":\"n1\"}\n"
    );
    let mut topology: NameMap<Vec<String>> = NameMap::new();
    topology.insert("n2".to_string(), vec!["n1".to_string()]);
    topology.insert("n1".to_string(), vec!["n2".to_string(), "n3".to_string()]);
    assert_eq!(
        line_of(&message(Payload::Topology { topology })),
        "{\"body\":{\"in_reply_to\":1,\"msg_id\":2,\"topology\":{\"n1\":[\"n2\",\"n3\"],\"n2\":[\"n1\"]},\"type\":\"topology\"},\"dest\":\"c1\",\"src\":\"n1\"}\n"
    );
}

#[test]
fn what_is_written_is_read_back() {
    let mut topology: NameMap<Vec<String>> = NameMap::new();
    topology.insert("n1".to_string(), vec!["n2".to_string()]);
    topology.insert("n2".to_string(), vec![]);
    let payloads = vec![
        Payload::Broadcast { message: 0 },
        Payload::Broadcast { message: usize::MAX },
        Payload::BroadcastOk,
        Payload::Read,
        Payload::ReadOk { messages: set_of(&[1, 2, 3]) },
        Payload::ReadOk { messages: HashSet::new() },
        Payload::Topology { topology },
        Payload::TopologyOk,
        Payload::Gossip { seen: set_of(&[9, 4]) },
    ];
    for payload in payloads {
        let shown = format!("{:?}", payload);
        let line = line_of(&message(payload));
        let back = decode(line.trim_end()).unwrap();
        assert_eq!(back.src, "n1");
        assert_eq!(back.dst, "c1");
        assert_eq!(back.body.id, Some(2));
        assert_eq!(back.body.in_reply_to, Some(1));
        match (&back.body.payload, shown.as_str()) {
            (Payload::ReadOk { messages }, _) if shown.contains('1') => {
                assert_eq!(messages, &set_of(&[1, 2, 3]))
            },
            (Payload::Gossip { seen }, _) => assert_eq!(seen, &set_of(&[9, 4])),
            (Payload::Topology { topology }, _) => {
                assert_eq!(topology.get(&"n1".to_string()), Some(&vec!["n2".to_string()]));
                assert_eq!(topology.get(&"n2".to_string()), Some(&vec![]));
                assert_eq!(topology.entries.len(), 2);
            },
            (Payload::ReadOk { messages }, _) => assert!(messages.is_empty()),
            (other, _) => assert_eq!(format!("{:?}", other), shown),
        }
    }
}

#[test]
fn rewriting_a_line_keeps_its_content() {
    let line = r#"{"dest":"n1","body":{"seen":[2,1,2],"msg_id":null,"type":"gossip","note":"x"},"src":"n2"}"#;
    let first = decode(line).unwrap();
    let rewritten = line_of(&first);
    let second = decode(rewritten.trim_end()).unwrap();
    assert_eq!(second.src, first.src);
    assert_eq!(second.dst, first.dst);
    assert_eq!(second.body.id, first.body.id);
    assert_eq!(second.body.in_reply_to, first.body.in_reply_to);
    match (first.body.payload, second.body.payload) {
        (Payload::Gossip { seen: a }, Payload::Gossip { seen: b }) => {
            assert_eq!(a, b);
            assert_eq!(a, set_of(&[1, 2]));
        },
        other => panic!("not gossip twice: {:?}", other),
    }
}

#[test]
fn the_first_entry_of_a_repeated_name_is_written() {
    let topology = NameMap {
        entries: vec![
            ("n1".to_string(), vec!["n2".to_string()]),
            ("n1".to_string(), vec!["n3".to_string()]),
        ],
    };
    let line = line_of(&message(Payload::Topology { topology }));
    match decode(line.trim_end()).unwrap().body.payload {
        Payload::Topology { topology } => {
            assert_eq!(topology.get(&"n1".to_string()), Some(&vec!["n2".to_string()]));
            assert_eq!(topology.entries.len(), 1);
        },
        other => panic!("not a topology: {:?}", other),
    }
}

#[test]
fn from_value_reads_what_to_value_makes() {
    let value = message(Payload::Broadcast { message: 3 }).to_value();
    assert_eq!(value.get("src").and_then(|v| v.as_str()), Some("n1"));
    assert_eq!(value.get("dest").and_then(|v| v.as_str()), Some("c1"));
    let body = value.get("body").unwrap();
    assert_eq!(body.get("type").and_then(|v| v.as_str()), Some("broadcast"));
    assert_eq!(body.get("message").and_then(|v| v.as_u64()), Some(3));
    assert_eq!(body.get("msg_id").and_then(|v| v.as_u64()), Some(2));
    assert_eq!(body.get("in_reply_to").and_then(|v| v.as_u64()), Some(1));
    assert_eq!(value.as_object().unwrap().len(), 3);
    assert_eq!(body.as_object().unwrap().len(), 4);
    let back = Message::<Payload>::from_value(&value).unwrap();
    assert!(matches!(back.body.payload, Payload::Broadcast { message: 3 }));
    let null = serde_json::Value::Null;
    assert_eq!(
        Message::<Payload>::from_value(&null).err(),
        Some(MalformedEnvelope::Envelope)
    );
}

#[test]
fn list_helpers_read_and_write_arrays() {
    let value = number_array(&vec![3, 1, 3]);
    assert_eq!(value.to_string(), "[3,1,3]");
    assert_eq!(numbers(value.as_array().unwrap()), Some(vec![3, 1, 3]));
    let value = text_array(&vec!["a".to_string(), "".to_string()]);
    assert_eq!(value.to_string(), "[\"a\",\"\"]");
    assert_eq!(texts(value.as_array().unwrap()), Some(vec!["a".to_string(), "".to_string()]));
    assert_eq!(texts(number_array(&vec![1]).as_array().unwrap()), None);
    assert_eq!(numbers(text_array(&vec!["1".to_string()]).as_array().unwrap()), None);
    assert_eq!(number_array(&vec![]).to_string(), "[]");
}

#[test]
fn field_helpers_read_objects() {
    let value: serde_json::Value =
        serde_json::from_str(r#"{"a":"x","n":7,"neg":-7,"big":18446744073709551615}"#).unwrap();
    let fields = value.as_object().unwrap();
    assert_eq!(text_field(fields, "a"), Some("x".to_string()));
    assert_eq!(text_field(fields, "n"), None);
    assert_eq!(text_field(fields, "zz"), None);
    assert_eq!(as_number(fields.get("n").unwrap()), Some(7));
    assert_eq!(as_number(fields.get("neg").unwrap()), None);
    assert_eq!(as_number(fields.get("a").unwrap()), None);
    assert_eq!(as_number(fields.get("big").unwrap()), Some(usize::MAX));
    let tagged = tag_fields("read");
    assert_eq!(tagged.len(), 1);
    assert_eq!(tagged.get("type").and_then(|v| v.as_str()), Some("read"));
    assert!(is_named(&"read".to_string(), "read"));
    assert!(!is_named(&"read".to_string(), "read_ok"));
}

#[test]
fn a_text_is_added_as_one_line() {
    let mut out: Vec<u8> = b"a\n".to_vec();
    assert_eq!(append_line(&mut out, Ok(b"{}".to_vec())), Ok(()));
    assert_eq!(out, b"a\n{}\n".to_vec());
    assert_eq!(append_line(&mut out, Ok(Vec::new())), Ok(()));
    assert_eq!(out, b"a\n{}\n\n".to_vec());
}

#[test]
fn a_failure_to_write_adds_nothing() {
    let failure = serde_json::from_str::<serde_json::Value>("{").unwrap_err();
    let mut out: Vec<u8> = b"kept".to_vec();
    assert_eq!(append_line(&mut out, Err(failure)), Err(EncodeError));
    assert_eq!(out, b"kept".to_vec());
}

#[test]
fn every_protocol_refuses_a_line_without_a_known_type() {
    let missing = r#"{"src":"c1","dest":"n1","body":{"msg_id":2}}"#;
    let unknown = r#"{"src":"c1","dest":"n1","body":{"type":"frobnicate","msg_id":2}}"#;
    for line in [missing, unknown] {
        assert_eq!(Message::<Payload>::decode(line).err(), Some(MalformedEnvelope::Payload));
        assert_eq!(
            Message::<whirlpool::echo::Payload>::decode(line).err(),
            Some(MalformedEnvelope::Payload)
        );
        assert_eq!(
            Message::<whirlpool::unique::Payload>::decode(line).err(),
            Some(MalformedEnvelope::Payload)
        );
        assert_eq!(
            Message::<whirlpool::init::InitPayload>::decode(line).err(),
            Some(MalformedEnvelope::Payload)
        );
    }
}
