use distributed_system_challenges::message::{Body, Init, Message};
use distributed_system_challenges::single_node_broadcast::{BroadcastNode, Payload};

fn msg(id: usize, payload: Payload) -> Message<Payload> {
    Message {
        src: String::from("c1"),
        dst: String::from("n1"),
        body: Body { id: Some(id), in_reply_to: None, payload },
    }
}

fn fresh() -> BroadcastNode {
    BroadcastNode::from_init((), Init { node_id: String::from("n1"), node_ids: vec![String::from("n1")] })
}

#[test]
fn single_node_starts_empty() {
    let node = fresh();
    assert_eq!(node.id, 1);
    assert!(node.received_msgs.is_empty());
    assert!(node.topology.is_empty());
    assert_eq!(node.node_id, "n1");
}

#[test]
fn broadcast_then_read_returns_the_values() {
    let mut node = fresh();
    let ok = node.step(msg(5, Payload::Broadcast { message: 1000 })).expect("a reply");
    assert_eq!(ok.src, "n1");
    assert_eq!(ok.dst, "c1");
    assert_eq!(ok.body.id, Some(1));
    assert_eq!(ok.body.in_reply_to, Some(5));
    assert_eq!(ok.body.payload, Payload::BroadcastOk);
    assert_eq!(node.id, 3);
    node.step(msg(6, Payload::Broadcast { message: 7 })).expect("a reply");
    let read = node.step(msg(7, Payload::Read)).expect("a reply");
    assert_eq!(read.body.id, Some(5));
    assert_eq!(read.body.in_reply_to, Some(7));
    assert_eq!(read.body.payload, Payload::ReadOk { messages: vec![1000, 7] });
    assert_eq!(node.id, 7);
}

#[test]
fn topology_is_kept_and_acknowledged() {
    let mut node = fresh();
    let topology = vec![(String::from("n1"), vec![String::from("n2")]), (String::from("n2"), vec![String::from("n1")])];
    let ok = node.step(msg(2, Payload::Topology { topology: topology.clone() })).expect("a reply");
    assert_eq!(ok.body.payload, Payload::TopologyOk);
    assert_eq!(node.topology, topology);
}

#[test]
fn acknowledgements_are_ignored_but_use_an_id() {
    let mut node = fresh();
    assert!(node.step(msg(2, Payload::BroadcastOk)).is_none());
    assert!(node.step(msg(3, Payload::ReadOk { messages: vec![1] })).is_none());
    assert!(node.step(msg(4, Payload::TopologyOk)).is_none());
    assert_eq!(node.id, 4);
    assert!(node.received_msgs.is_empty());
}
