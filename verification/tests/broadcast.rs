use distributed_system_challenges::broadcast::{gossip_notice, gossip_odds, BroadcastNode, InjectedPayload, Payload};
use distributed_system_challenges::message::{Body, Event, Init, Message, NodeError};
use std::collections::HashSet;

fn msg(src: &str, id: usize, payload: Payload) -> Event<Payload, InjectedPayload> {
    Event::Message(Message {
        src: String::from(src),
        dst: String::from("n1"),
        body: Body { id: Some(id), in_reply_to: None, payload },
    })
}

fn fresh() -> BroadcastNode {
    BroadcastNode::from_init(
        (),
        Init {
            node_id: String::from("n1"),
            node_ids: vec![String::from("n1"), String::from("n2"), String::from("n3")],
        },
    )
}

fn set(v: &[usize]) -> HashSet<usize> {
    v.iter().copied().collect()
}

#[test]
fn broadcast_node_starts_knowing_every_node() {
    let node = fresh();
    assert_eq!(node.id, 1);
    assert!(node.messages.is_empty());
    assert!(node.neighbors.is_empty());
    assert_eq!(node.known.len(), 3);
    assert_eq!(node.known[1].0, "n2");
    assert!(node.known.iter().all(|(_, s)| s.is_empty()));
}

#[test]
fn broadcast_read_round_trip() {
    let mut node = fresh();
    let out = node.step(msg("c1", 3, Payload::Broadcast { message: 42 })).expect("accepted");
    assert_eq!(out.len(), 1);
    assert_eq!(out[0].src, "n1");
    assert_eq!(out[0].dst, "c1");
    assert_eq!(out[0].body.id, Some(1));
    assert_eq!(out[0].body.in_reply_to, Some(3));
    assert_eq!(out[0].body.payload, Payload::BroadcastOk);
    assert_eq!(node.id, 3);
    let out = node.step(msg("c1", 4, Payload::Read)).expect("accepted");
    assert_eq!(out[0].body.payload, Payload::ReadOk { messages: vec![42] });
    assert_eq!(out[0].body.id, Some(3));
}

#[test]
fn topology_sets_the_neighbours() {
    let mut node = fresh();
    let topology = vec![
        (String::from("n2"), vec![String::from("n1")]),
        (String::from("n1"), vec![String::from("n2"), String::from("n3")]),
    ];
    let out = node.step(msg("c1", 1, Payload::Topology { topology })).expect("accepted");
    assert_eq!(out[0].body.payload, Payload::TopologyOk);
    assert_eq!(node.neighbors, vec!["n2", "n3"]);
    assert_eq!(node.id, 3);
}

#[test]
fn topology_without_this_node_is_refused() {
    let mut node = fresh();
    let topology = vec![(String::from("n2"), vec![String::from("n1")])];
    assert_eq!(
        node.step(msg("c1", 1, Payload::Topology { topology })),
        Err(NodeError::NoTopology { node: String::from("n1") })
    );
    assert!(node.neighbors.is_empty());
}

#[test]
fn gossip_is_recorded() {
    let mut node = fresh();
    let out = node.step(msg("n2", 9, Payload::Gossip { seen: vec![4, 5] })).expect("accepted");
    assert!(out.is_empty());
    assert_eq!(node.messages, vec![4, 5]);
    assert_eq!(set(&node.known[1].1), set(&[4, 5]));
    node.step(msg("n2", 10, Payload::Gossip { seen: vec![5, 6] })).expect("accepted");
    assert_eq!(node.messages, vec![4, 5, 5, 6]);
    assert_eq!(set(&node.known[1].1), set(&[4, 5, 6]));
    assert_eq!(node.known[1].1.len(), 3);
    assert!(node.known[0].1.is_empty());
    assert_eq!(node.id, 3);
}

#[test]
fn gossip_from_a_stranger_is_refused() {
    let mut node = fresh();
    assert_eq!(
        node.step(msg("n9", 9, Payload::Gossip { seen: vec![4] })),
        Err(NodeError::UnknownPeer { node: String::from("n9") })
    );
    assert!(node.messages.is_empty());
}

#[test]
fn a_gossip_round_messages_every_neighbour() {
    let mut node = fresh();
    node.neighbors = vec![String::from("n2"), String::from("n3")];
    node.messages = vec![1, 2, 3, 2];
    node.known[1].1 = vec![2];
    let out = node.step(Event::Injected(InjectedPayload::Gossip)).expect("accepted");
    assert_eq!(out.len(), 2);
    for (m, peer) in out.iter().zip(["n2", "n3"]) {
        assert_eq!(m.src, "n1");
        assert_eq!(m.dst, peer);
        assert_eq!(m.body.id, None);
        assert_eq!(m.body.in_reply_to, None);
        match &m.body.payload {
            Payload::Gossip { seen } => {
                assert_eq!(seen.len(), 3);
                assert_eq!(set(seen), set(&[1, 2, 3]));
            }
            other => panic!("unexpected payload {:?}", other),
        }
    }
    assert_eq!(node.id, 3);
}

#[test]
fn a_gossip_round_fails_on_an_unknown_neighbour() {
    let mut node = fresh();
    node.neighbors = vec![String::from("n2"), String::from("n8")];
    assert_eq!(
        node.step(Event::Injected(InjectedPayload::Gossip)),
        Err(NodeError::UnknownPeer { node: String::from("n8") })
    );
}

#[test]
fn end_of_input_changes_nothing() {
    let mut node = fresh();
    assert_eq!(node.step(Event::EOF), Ok(vec![]));
    assert_eq!(node.id, 1);
}

#[test]
fn gossip_carries_all_when_few_are_unknown() {
    let messages: Vec<usize> = (0..15).collect();
    let known: Vec<usize> = (0..5).collect();
    let seen = gossip_notice(&messages, &known);
    assert_eq!(set(&seen), set(&messages));
    assert_eq!(seen.len(), 15);
}

#[test]
fn gossip_always_carries_what_the_peer_knows() {
    let messages: Vec<usize> = (0..100).chain(0..100).collect();
    let known: Vec<usize> = (0..50).collect();
    for _ in 0..20 {
        let seen = gossip_notice(&messages, &known);
        let s = set(&seen);
        assert_eq!(s.len(), seen.len());
        assert!(known.iter().all(|x| s.contains(x)));
        assert!(s.iter().all(|x| *x < 100));
    }
}

#[test]
fn can_step_reports_the_limits() {
    let mut node = fresh();
    assert!(node.can_step(&Event::EOF));
    node.id = usize::MAX - 1;
    assert!(!node.can_step(&msg("c1", 1, Payload::Read)));
    assert!(node.can_step(&msg("c1", 1, Payload::ReadOk { messages: vec![] })));
    node.neighbors = vec![String::from("n2"), String::from("n3")];
    assert!(!node.can_step(&Event::Injected(InjectedPayload::Gossip)));
}

#[test]
fn repeated_node_ids_are_known_once() {
    let node = BroadcastNode::from_init(
        (),
        Init {
            node_id: String::from("n1"),
            node_ids: vec![String::from("n1"), String::from("n2"), String::from("n1")],
        },
    );
    assert_eq!(node.known.len(), 2);
    assert_eq!(node.known[0].0, "n1");
    assert_eq!(node.known[1].0, "n2");
}

#[test]
fn gossip_values_are_taken_once_each() {
    let mut node = fresh();
    node.step(msg("n3", 1, Payload::Gossip { seen: vec![8, 9, 8] })).expect("accepted");
    assert_eq!(node.messages, vec![8, 9]);
    assert_eq!(node.known[2].1, vec![8, 9]);
}

#[test]
fn gossip_odds_are_at_most_ten_in_the_count() {
    assert_eq!(gossip_odds(1), (1, 1));
    assert_eq!(gossip_odds(10), (10, 10));
    assert_eq!(gossip_odds(11), (10, 11));
    assert_eq!(gossip_odds(250), (10, 250));
}

#[test]
fn read_after_many_steps_still_holds_the_broadcast() {
    let mut node = fresh();
    node.step(msg("c1", 1, Payload::Broadcast { message: 77 })).expect("accepted");
    node.step(msg("n2", 2, Payload::Gossip { seen: vec![1, 2] })).expect("accepted");
    node.step(Event::EOF).expect("accepted");
    node.step(msg("c1", 3, Payload::BroadcastOk)).expect("accepted");
    let out = node.step(msg("c1", 4, Payload::Read)).expect("accepted");
    assert_eq!(out[0].body.payload, Payload::ReadOk { messages: vec![77, 1, 2] });
}
