use distributed_system_challenges::decimal::push_decimal;
use distributed_system_challenges::message::{handshake, Body, Init, InitPayload, Message};

fn init_message() -> Message<InitPayload> {
    Message {
        src: String::from("c0"),
        dst: String::from("n3"),
        body: Body {
            id: Some(17),
            in_reply_to: None,
            payload: InitPayload::Init(Init {
                node_id: String::from("n3"),
                node_ids: vec![String::from("n1"), String::from("n2"), String::from("n3")],
            }),
        },
    }
}

#[test]
fn into_reply_swaps_ends_and_takes_the_next_id() {
    let msg = Message {
        src: String::from("c1"),
        dst: String::from("n1"),
        body: Body { id: Some(4), in_reply_to: None, payload: 99usize },
    };
    let mut next = 10usize;
    let reply = msg.into_reply(&mut next);
    assert_eq!(reply.src, "n1");
    assert_eq!(reply.dst, "c1");
    assert_eq!(reply.body.id, Some(10));
    assert_eq!(reply.body.in_reply_to, Some(4));
    assert_eq!(reply.body.payload, 99);
    assert_eq!(next, 11);
}

#[test]
fn handshake_answers_init_with_init_ok() {
    let (init, reply) = handshake(init_message()).expect("an init message");
    assert_eq!(init.node_id, "n3");
    assert_eq!(init.node_ids, vec!["n1", "n2", "n3"]);
    assert_eq!(reply.src, "n3");
    assert_eq!(reply.dst, "c0");
    assert_eq!(reply.body.id, Some(0));
    assert_eq!(reply.body.in_reply_to, Some(17));
    assert_eq!(reply.body.payload, InitPayload::InitOk);
}

#[test]
fn handshake_refuses_anything_but_init() {
    let mut msg = init_message();
    msg.body.payload = InitPayload::InitOk;
    assert!(handshake(msg).is_none());
}

#[test]
fn decimal_numerals() {
    let cases: [(usize, &str); 6] =
        [(0, "0"), (7, "7"), (10, "10"), (42, "42"), (1000, "1000"), (usize::MAX, "18446744073709551615")];
    for (n, text) in cases {
        if n == usize::MAX && usize::BITS != 64 {
            continue;
        }
        let mut s = String::from("x");
        push_decimal(&mut s, n);
        assert_eq!(s, format!("x{}", text));
    }
}
