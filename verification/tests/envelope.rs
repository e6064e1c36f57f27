use whirlpool::envelope::{Body, Message};

fn request(id: Option<usize>) -> Message<u8> {
    Message {
        src: "c1".to_string(),
        dst: "n1".to_string(),
        body: Body { id, in_reply_to: None, payload: 7 },
    }
}

#[test]
fn reply_swaps_ends_and_takes_the_counter() {
    let mut counter: usize = 4;
    let reply = request(Some(9)).into_reply(Some(&mut counter));
    assert_eq!(reply.src, "n1");
    assert_eq!(reply.dst, "c1");
    assert_eq!(reply.body.id, Some(4));
    assert_eq!(reply.body.in_reply_to, Some(9));
    assert_eq!(reply.body.payload, 7);
    assert_eq!(counter, 5);
}

#[test]
fn reply_without_counter_has_no_id() {
    let reply = request(None).into_reply(None);
    assert_eq!(reply.body.id, None);
    assert_eq!(reply.body.in_reply_to, None);
}
