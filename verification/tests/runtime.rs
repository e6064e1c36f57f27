use std::collections::HashSet;
use whirlpool::gossip::{BroadcastNode, Payload};
use whirlpool::init::{handshake, HandshakeError, InitPayload};
use whirlpool::{
    dispatch, dispatch_line, start, Event, InjectedPayload, MalformedEnvelope, Message, NodeError,
    RuntimeError,
};

const INIT: &str =
    r#"{"src":"c1","dest":"n1","body":{"type":"init","msg_id":1,"node_id":"n1","node_ids":["n1","n2","n3"]}}"#;

fn set_of(items: &[usize]) -> HashSet<usize> {
    items.iter().copied().collect()
}

fn started(id: &str) -> BroadcastNode {
    let line = format!(
        r#"{{"src":"c0","dest":"{}","body":{{"type":"init","msg_id":1,"node_id":"{}","node_ids":["n1","n2","n3"]}}}}"#,
        id, id
    );
    let mut out = Vec::new();
    start::<(), BroadcastNode, Payload, InjectedPayload>((), &line, &mut out).unwrap()
}

fn feed(node: &mut BroadcastNode, line: &str) -> Vec<String> {
    let mut out = Vec::new();
    dispatch_line::<(), BroadcastNode, Payload, InjectedPayload>(node, line, &mut out).unwrap();
    lines(out)
}

fn tick(node: &mut BroadcastNode) -> Vec<String> {
    let mut out = Vec::new();
    dispatch::<(), BroadcastNode, Payload, InjectedPayload>(
        node,
        Event::Injected(InjectedPayload::Gossip),
        &mut out,
    )
    .unwrap();
    lines(out)
}

fn lines(out: Vec<u8>) -> Vec<String> {
    let text = String::from_utf8(out).unwrap();
    assert!(text.is_empty() || text.ends_with('\n'));
    text.lines().map(|l| l.to_string()).collect()
}

#[test]
fn handshake_reads_the_request_and_makes_the_answer() {
    let (init, reply) = handshake(INIT).unwrap();
    assert_eq!(init.node_id, "n1");
    assert_eq!(init.node_ids, vec!["n1".to_string(), "n2".to_string(), "n3".to_string()]);
    assert_eq!(reply.src, "n1");
    assert_eq!(reply.dst, "c1");
    assert_eq!(reply.body.id, Some(0));
    assert_eq!(reply.body.in_reply_to, Some(1));
    assert!(matches!(reply.body.payload, InitPayload::InitOk));
}

#[test]
fn handshake_refuses_anything_but_the_request() {
    assert_eq!(
        handshake(r#"{"src":"c1","dest":"n1","body":{"type":"init_ok","in_reply_to":1}}"#).err(),
        Some(HandshakeError::NotInit)
    );
    assert_eq!(
        handshake(r#"{"src":"c1","dest":"n1","body":{"type":"read","msg_id":1}}"#).err(),
        Some(HandshakeError::Malformed(MalformedEnvelope::Payload))
    );
    assert_eq!(
        handshake(r#"{"src":"c1","dest":"n1","body":{"type":"init","node_id":"n1"}}"#).err(),
        Some(HandshakeError::Malformed(MalformedEnvelope::Payload))
    );
    assert_eq!(
        handshake(r#"{"src":"c1","dest":"n1","body":{"type":"init","node_id":"n1","node_ids":[1]}}"#)
            .err(),
        Some(HandshakeError::Malformed(MalformedEnvelope::Payload))
    );
    assert_eq!(handshake("").err(), Some(HandshakeError::Malformed(MalformedEnvelope::Json)));
    assert_eq!(
        handshake(r#"{"src":"c1"}"#).err(),
        Some(HandshakeError::Malformed(MalformedEnvelope::Envelope))
    );
}

#[test]
fn the_handshake_is_written_and_read_back() {
    let (init, reply) = handshake(INIT).unwrap();
    let mut out = Vec::new();
    reply.send(&mut out).unwrap();
    assert_eq!(
        String::from_utf8(out).unwrap(),
        "{\"body\":{\"in_reply_to\":1,\"msg_id\":0,\"type\":\"init_ok\"},\"dest\":\"c1\",\"src\":\"n1\"}\n"
    );
    let request = Message {
        src: "c1".to_string(),
        dst: "n1".to_string(),
        body: whirlpool::Body { id: Some(1), in_reply_to: None, payload: InitPayload::Init(init) },
    };
    let mut out = Vec::new();
    request.send(&mut out).unwrap();
    let text = String::from_utf8(out).unwrap();
    assert_eq!(
        text,
        "{\"body\":{\"in_reply_to\":null,\"msg_id\":1,\"node_id\":\"n1\",\"node_ids\":[\"n1\",\"n2\",\"n3\"],\"type\":\"init\"},\"dest\":\"n1\",\"src\":\"c1\"}\n"
    );
    let (again, _) = handshake(text.trim_end()).unwrap();
    assert_eq!(again.node_id, "n1");
    assert_eq!(again.node_ids.len(), 3);
}

#[test]
fn start_answers_the_request_before_anything_else() {
    let mut out = Vec::new();
    let node = start::<(), BroadcastNode, Payload, InjectedPayload>((), INIT, &mut out).unwrap();
    assert_eq!(
        String::from_utf8(out).unwrap(),
        "{\"body\":{\"in_reply_to\":1,\"msg_id\":0,\"type\":\"init_ok\"},\"dest\":\"c1\",\"src\":\"n1\"}\n"
    );
    assert_eq!(node.node_id(), "n1");
    assert!(node.messages().is_empty());
    assert!(node.known(&"n3".to_string()).is_some());
}

#[test]
fn start_fails_on_any_other_first_line() {
    let mut out = b"kept".to_vec();
    let r = start::<(), BroadcastNode, Payload, InjectedPayload>(
        (),
        r#"{"src":"c1","dest":"n1","body":{"type":"broadcast","msg_id":1,"message":5}}"#,
        &mut out,
    );
    assert_eq!(
        r.err(),
        Some(RuntimeError::Handshake(HandshakeError::Malformed(MalformedEnvelope::Payload)))
    );
    assert_eq!(out, b"kept".to_vec());
    let r = start::<(), BroadcastNode, Payload, InjectedPayload>(
        (),
        r#"{"src":"c1","dest":"n1","body":{"type":"init_ok"}}"#,
        &mut out,
    );
    assert_eq!(r.err(), Some(RuntimeError::Handshake(HandshakeError::NotInit)));
    let r = start::<(), BroadcastNode, Payload, InjectedPayload>((), "not json", &mut out);
    assert_eq!(
        r.err(),
        Some(RuntimeError::Handshake(HandshakeError::Malformed(MalformedEnvelope::Json)))
    );
    assert_eq!(out, b"kept".to_vec());
}

#[test]
fn a_line_is_answered_with_a_line() {
    let mut node = started("n1");
    let out = feed(
        &mut node,
        r#"{"src":"c1","dest":"n1","body":{"type":"broadcast","msg_id":4,"message":5}}"#,
    );
    assert_eq!(
        out,
        vec![
            "{\"body\":{\"in_reply_to\":4,\"msg_id\":1,\"type\":\"broadcast_ok\"},\"dest\":\"c1\",\"src\":\"n1\"}"
                .to_string()
        ]
    );
    let out = feed(&mut node, r#"{"src":"c1","dest":"n1","body":{"type":"read","msg_id":5}}"#);
    assert_eq!(
        out,
        vec![
            "{\"body\":{\"in_reply_to\":5,\"messages\":[5],\"msg_id\":2,\"type\":\"read_ok\"},\"dest\":\"c1\",\"src\":\"n1\"}"
                .to_string()
        ]
    );
}

#[test]
fn a_malformed_line_changes_nothing() {
    let mut node = started("n1");
    feed(&mut node, r#"{"src":"c1","dest":"n1","body":{"type":"broadcast","message":5}}"#);
    let mut out = b"kept".to_vec();
    let r = dispatch_line::<(), BroadcastNode, Payload, InjectedPayload>(
        &mut node,
        r#"{"src":"c1","dest":"n1","body":{"message":6}}"#,
        &mut out,
    );
    assert_eq!(r, Err(RuntimeError::Malformed(MalformedEnvelope::Payload)));
    assert_eq!(out, b"kept".to_vec());
    assert_eq!(node.messages(), &set_of(&[5]));
    let r = dispatch_line::<(), BroadcastNode, Payload, InjectedPayload>(&mut node, "{", &mut out);
    assert_eq!(r, Err(RuntimeError::Malformed(MalformedEnvelope::Json)));
    let r = dispatch_line::<(), BroadcastNode, Payload, InjectedPayload>(
        &mut node,
        r#"{"src":"c1","dest":"n1","body":{"type":"init","node_id":"n1","node_ids":[]}}"#,
        &mut out,
    );
    assert_eq!(r, Err(RuntimeError::Malformed(MalformedEnvelope::Payload)));
}

#[test]
fn a_node_that_gives_up_ends_the_dispatch() {
    let mut node = started("n1");
    let mut out = Vec::new();
    let r = dispatch_line::<(), BroadcastNode, Payload, InjectedPayload>(
        &mut node,
        r#"{"src":"c1","dest":"n1","body":{"type":"topology","msg_id":1,"topology":{"n2":["n3"]}}}"#,
        &mut out,
    );
    assert_eq!(r, Err(RuntimeError::Node(NodeError::MissingTopology)));
    assert!(out.is_empty());
}

#[test]
fn the_end_of_input_is_an_event_like_any_other() {
    let mut node = started("n1");
    let mut out = Vec::new();
    let r = dispatch::<(), BroadcastNode, Payload, InjectedPayload>(&mut node, Event::EOF, &mut out);
    assert_eq!(r, Ok(()));
    assert!(out.is_empty());
    assert_eq!(
        feed(&mut node, r#"{"src":"c1","dest":"n1","body":{"type":"read","msg_id":1}}"#).len(),
        1
    );
}

#[test]
fn messages_are_written_in_the_order_sent() {
    let mut node = started("n1");
    feed(
        &mut node,
        r#"{"src":"c1","dest":"n1","body":{"type":"topology","msg_id":1,"topology":{"n1":["n3","n2"]}}}"#,
    );
    feed(&mut node, r#"{"src":"c1","dest":"n1","body":{"type":"broadcast","msg_id":2,"message":5}}"#);
    let out = tick(&mut node);
    assert_eq!(
        out,
        vec![
            "{\"body\":{\"in_reply_to\":null,\"msg_id\":null,\"seen\":[5],\"type\":\"gossip\"},\"dest\":\"n3\",\"src\":\"n1\"}"
                .to_string(),
            "{\"body\":{\"in_reply_to\":null,\"msg_id\":null,\"seen\":[5],\"type\":\"gossip\"},\"dest\":\"n2\",\"src\":\"n1\"}"
                .to_string(),
        ]
    );
}

fn deliver(nodes: &mut Vec<BroadcastNode>, lines: Vec<String>) {
    for line in lines {
        let to = Message::<Payload>::decode(&line).unwrap().dst;
        for node in nodes.iter_mut() {
            if node.node_id() == &to {
                assert!(feed(node, &line).is_empty());
            }
        }
    }
}

#[test]
fn a_value_crosses_a_line_of_three_nodes_in_two_rounds() {
    let mut nodes = vec![started("n1"), started("n2"), started("n3")];
    let topology = r#"{"n1":["n2"],"n2":["n1","n3"],"n3":["n2"]}"#;
    for node in nodes.iter_mut() {
        let line = format!(
            r#"{{"src":"c1","dest":"{}","body":{{"type":"topology","msg_id":1,"topology":{}}}}}"#,
            node.node_id(),
            topology
        );
        assert_eq!(feed(node, &line).len(), 1);
    }
    assert_eq!(nodes[1].neighbours(), &vec!["n1".to_string(), "n3".to_string()]);
    feed(
        &mut nodes[0],
        r#"{"src":"c1","dest":"n1","body":{"type":"broadcast","msg_id":2,"message":5}}"#,
    );
    for _round in 0..2 {
        let mut sent = Vec::new();
        for node in nodes.iter_mut() {
            sent.extend(tick(node));
        }
        deliver(&mut nodes, sent);
    }
    let out = feed(&mut nodes[2], r#"{"src":"c1","dest":"n3","body":{"type":"read","msg_id":3}}"#);
    assert_eq!(out.len(), 1);
    let reply = Message::<Payload>::decode(&out[0]).unwrap();
    assert_eq!(reply.dst, "c1");
    assert_eq!(reply.body.in_reply_to, Some(3));
    match reply.body.payload {
        Payload::ReadOk { messages } => assert_eq!(messages, set_of(&[5])),
        other => panic!("not read_ok: {:?}", other),
    }
    assert_eq!(nodes[0].messages(), &set_of(&[5]));
    assert_eq!(nodes[1].messages(), &set_of(&[5]));
}

#[test]
fn gossip_settles_on_every_value_at_every_node() {
    let mut nodes = vec![started("n1"), started("n2"), started("n3")];
    let topology = r#"{"n1":["n2"],"n2":["n1","n3"],"n3":["n2"]}"#;
    for node in nodes.iter_mut() {
        let line = format!(
            r#"{{"src":"c1","dest":"{}","body":{{"type":"topology","msg_id":1,"topology":{}}}}}"#,
            node.node_id(),
            topology
        );
        feed(node, &line);
    }
    feed(&mut nodes[0], r#"{"src":"c1","dest":"n1","body":{"type":"broadcast","message":1}}"#);
    feed(&mut nodes[2], r#"{"src":"c1","dest":"n3","body":{"type":"broadcast","message":2}}"#);
    feed(&mut nodes[1], r#"{"src":"c1","dest":"n2","body":{"type":"broadcast","message":3}}"#);
    let mut rounds = 0;
    loop {
        let before: Vec<HashSet<usize>> = nodes.iter().map(|n| n.messages().clone()).collect();
        let mut sent = Vec::new();
        for node in nodes.iter_mut().rev() {
            sent.extend(tick(node));
        }
        sent.reverse();
        let again = sent.clone();
        deliver(&mut nodes, sent);
        deliver(&mut nodes, again);
        let after: Vec<HashSet<usize>> = nodes.iter().map(|n| n.messages().clone()).collect();
        if before == after {
            break;
        }
        rounds += 1;
        assert!(rounds < 10);
    }
    for node in nodes.iter() {
        assert_eq!(node.messages(), &set_of(&[1, 2, 3]));
    }
    assert!(nodes[0].known(&"n2".to_string()).unwrap().contains(&2));
    assert!(nodes[0].known(&"n2".to_string()).unwrap().contains(&3));
}

#[test]
fn a_node_keeps_telling_what_it_was_not_told_back() {
    let mut nodes = vec![started("n1"), started("n2")];
    let topology = r#"{"n1":["n2"],"n2":["n1"]}"#;
    for node in nodes.iter_mut() {
        let line = format!(
            r#"{{"src":"c1","dest":"{}","body":{{"type":"topology","msg_id":1,"topology":{}}}}}"#,
            node.node_id(),
            topology
        );
        feed(node, &line);
    }
    feed(&mut nodes[0], r#"{"src":"c1","dest":"n1","body":{"type":"broadcast","message":1}}"#);
    for _round in 0..3 {
        let sent = tick(&mut nodes[0]);
        assert_eq!(sent.len(), 1);
        deliver(&mut nodes, sent);
        assert!(tick(&mut nodes[1]).is_empty());
    }
    assert_eq!(nodes[1].messages(), &set_of(&[1]));
    assert_eq!(nodes[1].known(&"n1".to_string()), Some(&set_of(&[1])));
    assert_eq!(nodes[0].known(&"n2".to_string()), Some(&HashSet::new()));
}

#[test]
fn a_topology_line_gives_the_node_its_neighbours() {
    let mut node = started("n1");
    let out = feed(
        &mut node,
        r#"{"src":"c1","dest":"n1","body":{"type":"topology","msg_id":1,"topology":{"n1": ["n2","n3"], "n2": ["n1"], "n3": ["n1"]}}}"#,
    );
    assert_eq!(node.neighbours(), &vec!["n2".to_string(), "n3".to_string()]);
    assert_eq!(
        out,
        vec![
            "{\"body\":{\"in_reply_to\":1,\"msg_id\":1,\"type\":\"topology_ok\"},\"dest\":\"c1\",\"src\":\"n1\"}"
                .to_string()
        ]
    );
}

#[test]
fn the_transport_makes_events_of_lines_and_of_the_end() {
    let event = whirlpool::transport_event::<Payload, InjectedPayload>(Some(
        r#"{"src":"c1","dest":"n1","body":{"type":"read","msg_id":1}}"#,
    ))
    .unwrap();
    match event {
        Event::Message(m) => {
            assert_eq!(m.src, "c1");
            assert!(matches!(m.body.payload, Payload::Read));
        },
        other => panic!("not a message: {:?}", other),
    }
    let end = whirlpool::transport_event::<Payload, InjectedPayload>(None).unwrap();
    assert!(matches!(end, Event::EOF));
    let bad = whirlpool::transport_event::<Payload, InjectedPayload>(Some("{}"));
    assert_eq!(bad.err(), Some(MalformedEnvelope::Envelope));
}
