use vstd::prelude::*;
use crate::message::{Message, Body, Init, answers};

verus! {

/// The payloads of the single-node broadcast workload.
#[derive(Debug, PartialEq, Eq)]
pub enum Payload {
    /// A value to record.
    Broadcast { message: usize },
    BroadcastOk,
    /// A request for every value recorded so far.
    Read,
    ReadOk { messages: Vec<usize> },
    /// The cluster's layout: for each node, its neighbours.
    Topology { topology: Vec<(String, Vec<String>)> },
    TopologyOk,
}

/// A node that records the values broadcast to it and reports them on request.
#[derive(Debug, PartialEq, Eq)]
pub struct BroadcastNode {
    /// The id of the next message this node sends.
    pub id: usize,
    /// Every value broadcast to this node, in the order they arrived.
    pub received_msgs: Vec<usize>,
    /// The last topology this node was told of.
    pub topology: Vec<(String, Vec<String>)>,
    pub node_id: String,
}

impl BroadcastNode {
    /// Whether a message with `payload` is answered (as opposed to ignored).
    pub open spec fn replies_to(payload: Payload) -> bool {
        payload is Broadcast || payload is Read || payload is Topology
    }

    /// How many message ids handling a message with `payload` uses up: one
    /// for the reply that every message is turned into, and one more for a
    /// reply that is sent.
    pub open spec fn ids_used(payload: Payload) -> nat {
        if Self::replies_to(payload) { 2 } else { 1 }
    }

    /// What handling `input` does: `new` is the node after it and `out` the
    /// message it sends. A `broadcast` is recorded and answered, a `read` is
    /// answered with every value recorded, a `topology` is kept and
    /// answered; the answers take the id that the reply skeleton took, and
    /// the `_ok` payloads are ignored. Recorded values are never lost.
    pub open spec fn step_spec(old: BroadcastNode, input: Message<Payload>, new: BroadcastNode, out: Option<Message<Payload>>) -> bool {
        &&& new.id == old.id + Self::ids_used(input.body.payload)
        &&& new.node_id == old.node_id
        &&& old.received_msgs@.is_prefix_of(new.received_msgs@)
        &&& match input.body.payload {
            Payload::Broadcast { message } => {
                &&& new.received_msgs@ == old.received_msgs@.push(message)
                &&& new.topology == old.topology
                &&& out matches Some(r)
                &&& answers(r, input, Some(old.id))
                &&& r.body.payload == Payload::BroadcastOk
            },
            Payload::Read => {
                &&& new.received_msgs == old.received_msgs
                &&& new.topology == old.topology
                &&& out matches Some(r)
                &&& answers(r, input, Some(old.id))
                &&& r.body.payload matches Payload::ReadOk { messages }
                &&& messages@ == old.received_msgs@
            },
            Payload::Topology { topology } => {
                &&& new.received_msgs == old.received_msgs
                &&& new.topology == topology
                &&& out matches Some(r)
                &&& answers(r, input, Some(old.id))
                &&& r.body.payload == Payload::TopologyOk
            },
            _ => {
                &&& new.received_msgs == old.received_msgs
                &&& new.topology == old.topology
                &&& out is None
            },
        }
    }

    /// The node as the handshake leaves it: nothing recorded, no topology,
    /// next message id 1.
    pub fn from_init(_state: (), init: Init) -> (node: Self)
        ensures
            node.id == 1,
            node.received_msgs@ == Seq::<usize>::empty(),
            node.topology@ == Seq::<(String, Vec<String>)>::empty(),
            node.node_id == init.node_id,
    {
        BroadcastNode { id: 1, received_msgs: Vec::new(), topology: Vec::new(), node_id: init.node_id }
    }

    /// Handles one message, as [`BroadcastNode::step_spec`] says.
    pub fn step(&mut self, input: Message<Payload>) -> (out: Option<Message<Payload>>)
        requires
            old(self).id + Self::ids_used(input.body.payload) <= usize::MAX,
        ensures
            Self::step_spec(*old(self), input, *final(self), out),
    {
        let reply = input.into_reply(&mut self.id);
        let Message { src, dst, body } = reply;
        let Body { id, in_reply_to, payload } = body;
        match payload {
            Payload::Broadcast { message } => {
                self.received_msgs.push(message);
                let answer = Message {
                    src,
                    dst,
                    body: Body { id, in_reply_to, payload: Payload::BroadcastOk },
                };
                self.id = self.id + 1;
                Some(answer)
            },
            Payload::Read => {
                let messages = self.received_msgs.clone();
                assert(messages@ =~= self.received_msgs@);
                let answer = Message {
                    src,
                    dst,
                    body: Body { id, in_reply_to, payload: Payload::ReadOk { messages } },
                };
                self.id = self.id + 1;
                Some(answer)
            },
            Payload::Topology { topology } => {
                self.topology = topology;
                let answer = Message {
                    src,
                    dst,
                    body: Body { id, in_reply_to, payload: Payload::TopologyOk },
                };
                self.id = self.id + 1;
                Some(answer)
            },
            _ => None,
        }
    }
}

/// A value broadcast to the node is returned by every later read: after a
/// `broadcast` of `m` and any steps that keep the recorded values (every
/// step does), a `read` answers with a list that holds `m`.
pub proof fn lemma_read_returns_broadcast(
    n0: BroadcastNode,
    b: Message<Payload>,
    n1: BroadcastNode,
    o1: Option<Message<Payload>>,
    n2: BroadcastNode,
    r: Message<Payload>,
    n3: BroadcastNode,
    o3: Option<Message<Payload>>,
    m: usize,
)
    requires
        b.body.payload == (Payload::Broadcast { message: m }),
        BroadcastNode::step_spec(n0, b, n1, o1),
        n1.received_msgs@.is_prefix_of(n2.received_msgs@),
        r.body.payload == Payload::Read,
        BroadcastNode::step_spec(n2, r, n3, o3),
    ensures
        o3 matches Some(reply) && reply.body.payload matches Payload::ReadOk { messages } && messages@.contains(m),
{
    let k = n0.received_msgs@.len() as int;
    assert(n1.received_msgs@[k] == m);
    assert(n2.received_msgs@[k] == m);
    let reply = o3->Some_0;
    let messages = reply.body.payload->ReadOk_messages;
    assert(messages@[k] == m);
}

/// Message ids never repeat: an answer sent while handling one message
/// carries a smaller id than any answer sent later (the node's counter
/// only grows between the two steps).
pub proof fn lemma_answer_ids_increase(
    n0: BroadcastNode,
    a: Message<Payload>,
    n1: BroadcastNode,
    o1: Option<Message<Payload>>,
    n2: BroadcastNode,
    b: Message<Payload>,
    n3: BroadcastNode,
    o3: Option<Message<Payload>>,
)
    requires
        BroadcastNode::step_spec(n0, a, n1, o1),
        n1.id <= n2.id,
        BroadcastNode::step_spec(n2, b, n3, o3),
        o1 is Some,
        o3 is Some,
    ensures
        o1->Some_0.body.id matches Some(x) && o3->Some_0.body.id matches Some(y) && x < y,
{
}

/// `nodes[0]` handled `inputs` one after another: `nodes[i + 1]` is the
/// node after the `i`-th input, and `outs[i]` what that step sent.
pub open spec fn is_run(nodes: Seq<BroadcastNode>, inputs: Seq<Message<Payload>>, outs: Seq<Option<Message<Payload>>>) -> bool {
    &&& nodes.len() == inputs.len() + 1
    &&& outs.len() == inputs.len()
    &&& forall|i: int| #![trigger inputs[i]] 0 <= i < inputs.len() ==> BroadcastNode::step_spec(nodes[i], inputs[i], nodes[i + 1], outs[i])
}

/// The values that the `broadcast` messages among `inputs` carry, in order.
pub open spec fn broadcast_values(inputs: Seq<Message<Payload>>) -> Seq<usize>
    decreases inputs.len(),
{
    if inputs.len() == 0 {
        Seq::empty()
    } else {
        let rest = broadcast_values(inputs.drop_last());
        match inputs.last().body.payload {
            Payload::Broadcast { message } => rest.push(message),
            _ => rest,
        }
    }
}

/// From a node that has recorded nothing, the node after the first `k`
/// inputs has recorded exactly the values those inputs broadcast, in order.
pub proof fn lemma_run_records_broadcasts(nodes: Seq<BroadcastNode>, inputs: Seq<Message<Payload>>, outs: Seq<Option<Message<Payload>>>, k: int)
    requires
        is_run(nodes, inputs, outs),
        nodes[0].received_msgs@.len() == 0,
        0 <= k < nodes.len(),
    ensures
        nodes[k].received_msgs@ == broadcast_values(inputs.take(k)),
    decreases k,
{
    if k == 0 {
        assert(inputs.take(0) =~= Seq::<Message<Payload>>::empty());
        assert(nodes[0].received_msgs@ =~= Seq::<usize>::empty());
    } else {
        lemma_run_records_broadcasts(nodes, inputs, outs, k - 1);
        assert(inputs.take(k).drop_last() =~= inputs.take(k - 1));
        assert(inputs.take(k).last() == inputs[k - 1]);
        assert(BroadcastNode::step_spec(nodes[k - 1], inputs[k - 1], nodes[k], outs[k - 1]));
    }
}

/// A `read` after the handshake answers with every value broadcast to the
/// node before it, in the order they arrived, repeats kept.
pub proof fn lemma_read_returns_all_broadcasts(nodes: Seq<BroadcastNode>, inputs: Seq<Message<Payload>>, outs: Seq<Option<Message<Payload>>>, k: int)
    requires
        is_run(nodes, inputs, outs),
        nodes[0].received_msgs@.len() == 0,
        0 <= k < inputs.len(),
        inputs[k].body.payload == Payload::Read,
    ensures
        ({
            &&& outs[k] matches Some(r)
            &&& answers(r, inputs[k], Some(nodes[k].id))
            &&& r.body.payload matches Payload::ReadOk { messages }
            &&& messages@ == broadcast_values(inputs.take(k))
        }),
{
    lemma_run_records_broadcasts(nodes, inputs, outs, k);
    assert(BroadcastNode::step_spec(nodes[k], inputs[k], nodes[k + 1], outs[k]));
}

} // verus!
