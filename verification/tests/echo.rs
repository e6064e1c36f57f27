use whirlpool::echo::{EchoNode, Payload};
use whirlpool::{Body, Event, Init, Message, Node, NodeError};

fn node() -> EchoNode {
    EchoNode::from_init((), Init { node_id: "n1".to_string(), node_ids: vec!["n1".to_string()] })
        .unwrap()
}

fn echo(id: usize, text: &str) -> Event<Payload> {
    Event::Message(Message {
        src: "c1".to_string(),
        dst: "n1".to_string(),
        body: Body { id: Some(id), in_reply_to: None, payload: Payload::Echo { echo: text.to_string() } },
    })
}

#[test]
fn echo_is_answered_with_what_was_sent() {
    let mut n = node();
    assert!(n.timer().is_none());
    let mut out = Vec::new();
    n.step(echo(7, "hello"), &mut out).unwrap();
    assert_eq!(out.len(), 1);
    assert_eq!(out[0].src, "n1");
    assert_eq!(out[0].dst, "c1");
    assert_eq!(out[0].body.id, Some(1));
    assert_eq!(out[0].body.in_reply_to, Some(7));
    assert!(matches!(&out[0].body.payload, Payload::EchoOk { echo } if echo == "hello"));
    n.step(echo(8, ""), &mut out).unwrap();
    assert_eq!(out[1].body.id, Some(2));
}

#[test]
fn an_answer_is_not_answered_but_takes_an_id() {
    let mut n = node();
    let mut out = Vec::new();
    let answer = Event::Message(Message {
        src: "n2".to_string(),
        dst: "n1".to_string(),
        body: Body { id: None, in_reply_to: Some(1), payload: Payload::EchoOk { echo: "x".to_string() } },
    });
    n.step(answer, &mut out).unwrap();
    assert!(out.is_empty());
    n.step(echo(1, "y"), &mut out).unwrap();
    assert_eq!(out[0].body.id, Some(2));
}

#[test]
fn an_echo_node_takes_messages_only() {
    let mut n = node();
    let mut out = Vec::new();
    assert_eq!(n.step(Event::EOF, &mut out), Err(NodeError::UnexpectedEvent));
    assert_eq!(n.step(Event::Injected(()), &mut out), Err(NodeError::UnexpectedEvent));
    assert!(out.is_empty());
}

#[test]
fn echo_on_the_wire() {
    let m =
        Message::<Payload>::decode(r#"{"src":"c1","dest":"n1","body":{"type":"echo","msg_id":1,"echo":"hi"}}"#)
            .unwrap();
    assert!(matches!(&m.body.payload, Payload::Echo { echo } if echo == "hi"));
    let mut n = node();
    let mut out = Vec::new();
    n.step(Event::Message(m), &mut out).unwrap();
    let mut bytes = Vec::new();
    out[0].send(&mut bytes).unwrap();
    assert_eq!(
        String::from_utf8(bytes).unwrap(),
        "{\"body\":{\"echo\":\"hi\",\"in_reply_to\":1,\"msg_id\":1,\"type\":\"echo_ok\"},\"dest\":\"c1\",\"src\":\"n1\"}\n"
    );
    assert!(Message::<Payload>::decode(r#"{"src":"c1","dest":"n1","body":{"type":"echo"}}"#).is_err());
    assert!(
        Message::<Payload>::decode(r#"{"src":"c1","dest":"n1","body":{"type":"read","echo":"x"}}"#)
            .is_err()
    );
}
