use distributed_system_challenges::message::{Body, Event, Init, Message, NodeError};
use distributed_system_challenges::uniq_ids::{unique_id, Payload, UniqueNode};
use std::collections::HashSet;

fn generate(id: usize) -> Event<Payload, ()> {
    Event::Message(Message {
        src: String::from("c1"),
        dst: String::from("n7"),
        body: Body { id: Some(id), in_reply_to: None, payload: Payload::Generate },
    })
}

#[test]
fn unique_node_starts_at_one() {
    let node = UniqueNode::from_init((), Init { node_id: String::from("n7"), node_ids: vec![] });
    assert_eq!(node.id, 1);
    assert_eq!(node.node_id, "n7");
}

#[test]
fn generate_hands_out_node_and_counter() {
    let mut node = UniqueNode { id: 1, node_id: String::from("n7") };
    let reply = node.step(generate(4)).expect("accepted").expect("a reply");
    assert_eq!(reply.src, "n7");
    assert_eq!(reply.dst, "c1");
    assert_eq!(reply.body.id, Some(1));
    assert_eq!(reply.body.in_reply_to, Some(4));
    assert_eq!(reply.body.payload, Payload::GenerateOk { guid: String::from("n7-1") });
    assert_eq!(node.id, 2);
}

#[test]
fn ids_never_repeat() {
    let mut seen = HashSet::new();
    for node_id in ["n1", "n1-1", "n11", "n"] {
        let mut node = UniqueNode { id: 1, node_id: String::from(node_id) };
        for i in 0..120 {
            let reply = node.step(generate(i)).expect("accepted").expect("a reply");
            match reply.body.payload {
                Payload::GenerateOk { guid } => assert!(seen.insert(guid)),
                Payload::Generate => panic!("wrong payload"),
            }
        }
    }
    assert_eq!(seen.len(), 480);
}

#[test]
fn unique_id_text() {
    assert_eq!(unique_id(&String::from("n1"), 0), "n1-0");
    assert_eq!(unique_id(&String::from("n1"), 12345), "n1-12345");
    assert_eq!(unique_id(&String::new(), 9), "-9");
}

#[test]
fn generate_ok_is_ignored() {
    let mut node = UniqueNode { id: 3, node_id: String::from("n7") };
    let ev = Event::Message(Message {
        src: String::from("n2"),
        dst: String::from("n7"),
        body: Body { id: None, in_reply_to: Some(1), payload: Payload::GenerateOk { guid: String::from("x") } },
    });
    assert_eq!(node.step(ev), Ok(None));
    assert_eq!(node.id, 3);
}

#[test]
fn other_events_are_refused() {
    let mut node = UniqueNode { id: 3, node_id: String::from("n7") };
    assert_eq!(node.step(Event::EOF), Err(NodeError::UnexpectedEvent));
    assert_eq!(node.step(Event::Injected(())), Err(NodeError::UnexpectedEvent));
    assert_eq!(node.id, 3);
}
