use distributed_system_challenges::echo::{EchoNode, Payload};
use distributed_system_challenges::message::{Body, Init, Message};
use distributed_system_challenges::standalone;
use distributed_system_challenges::message::NodeError;

fn msg(payload: Payload) -> Message<Payload> {
    Message {
        src: String::from("c1"),
        dst: String::from("n1"),
        body: Body { id: Some(1), in_reply_to: None, payload },
    }
}

#[test]
fn echo_node_starts_at_one() {
    let node = EchoNode::from_init((), Init { node_id: String::from("n1"), node_ids: vec![] });
    assert_eq!(node.id, 1);
}

#[test]
fn echo_is_answered_with_the_same_text() {
    let mut node = EchoNode { id: 1 };
    let reply = node.step(msg(Payload::Echo { echo: String::from("Please echo 35") })).expect("a reply");
    assert_eq!(reply.src, "n1");
    assert_eq!(reply.dst, "c1");
    assert_eq!(reply.body.id, Some(1));
    assert_eq!(reply.body.in_reply_to, Some(1));
    assert_eq!(reply.body.payload, Payload::EchoOk { echo: String::from("Please echo 35") });
    assert_eq!(node.id, 2);
    let again = node.step(msg(Payload::Echo { echo: String::from("x") })).expect("a reply");
    assert_eq!(again.body.id, Some(2));
    assert_eq!(node.id, 3);
}

#[test]
fn echo_ok_is_ignored() {
    let mut node = EchoNode { id: 5 };
    assert!(node.step(msg(Payload::EchoOk { echo: String::from("x") })).is_none());
    assert_eq!(node.id, 5);
}

fn smsg(payload: standalone::Payload) -> standalone::Message {
    standalone::Message {
        src: String::from("c2"),
        dst: String::from("n2"),
        body: standalone::Body { id: Some(8), in_reply_to: None, payload },
    }
}

#[test]
fn standalone_node_answers_init_and_echo() {
    let mut node = standalone::EchoNode { id: 0 };
    let init = standalone::Payload::Init { node_id: String::from("n2"), node_ids: vec![String::from("n2")] };
    let reply = node.step(smsg(init)).expect("accepted").expect("a reply");
    assert_eq!(reply.src, "n2");
    assert_eq!(reply.dst, "c2");
    assert_eq!(reply.body.id, Some(0));
    assert_eq!(reply.body.in_reply_to, Some(8));
    assert_eq!(reply.body.payload, standalone::Payload::InitOk);
    let reply = node.step(smsg(standalone::Payload::Echo { echo: String::from("hi") })).expect("accepted").expect("a reply");
    assert_eq!(reply.body.id, Some(1));
    assert_eq!(reply.body.payload, standalone::Payload::EchoOk { echo: String::from("hi") });
    assert_eq!(node.id, 2);
}

#[test]
fn standalone_node_ignores_echo_ok() {
    let mut node = standalone::EchoNode { id: 3 };
    let out = node.step(smsg(standalone::Payload::EchoOk { echo: String::from("hi") })).expect("accepted");
    assert!(out.is_none());
    assert_eq!(node.id, 3);
}

#[test]
fn standalone_node_refuses_init_ok_and_error() {
    let mut node = standalone::EchoNode { id: 3 };
    assert_eq!(
        node.step(smsg(standalone::Payload::InitOk)),
        Err(NodeError::UnexpectedInitOk { from: String::from("c2") })
    );
    assert_eq!(
        node.step(smsg(standalone::Payload::Error { error: String::from("boom") })),
        Err(NodeError::UnexpectedError { from: String::from("c2") })
    );
    assert_eq!(node.id, 3);
}

#[test]
fn echo_ids_count_from_one_after_init() {
    let mut node = EchoNode::from_init((), Init { node_id: String::from("n1"), node_ids: vec![] });
    for k in 1..=5usize {
        let reply = node.step(msg(Payload::Echo { echo: format!("{}", k) })).expect("a reply");
        assert_eq!(reply.body.id, Some(k));
    }
}
