use vstd::prelude::*;
use crate::message::{Message, Body, Init, answers};

verus! {

/// The payloads of the echo workload.
#[derive(Debug, PartialEq, Eq)]
pub enum Payload {
    /// A request to send `echo` back.
    Echo { echo: String },
    /// The answer, carrying the text of the request.
    EchoOk { echo: String },
}

/// A node that answers every echo request with the text it was sent.
#[derive(Debug, PartialEq, Eq)]
pub struct EchoNode {
    /// The id of the next message this node sends.
    pub id: usize,
}

impl EchoNode {
    /// What handling `input` does: `new` is the node after it and `out`
    /// the message it sends. An `echo` is answered with an `echo_ok` that
    /// carries the same text and the node's next message id, which then
    /// moves on by one; an `echo_ok` is ignored.
    pub open spec fn step_spec(old: EchoNode, input: Message<Payload>, new: EchoNode, out: Option<Message<Payload>>) -> bool {
        match input.body.payload {
            Payload::Echo { echo } => {
                &&& out matches Some(r)
                &&& answers(r, input, Some(old.id))
                &&& r.body.payload == (Payload::EchoOk { echo })
                &&& new.id == old.id + 1
            },
            Payload::EchoOk { .. } => out is None && new == old,
        }
    }

    /// The node as the handshake leaves it: its next message id is 1.
    pub fn from_init(_state: (), _init: Init) -> (node: Self)
        ensures
            node.id == 1,
    {
        EchoNode { id: 1 }
    }

    /// Handles one message, as [`EchoNode::step_spec`] says.
    pub fn step(&mut self, input: Message<Payload>) -> (out: Option<Message<Payload>>)
        requires
            input.body.payload is Echo ==> old(self).id < usize::MAX,
        ensures
            Self::step_spec(*old(self), input, *final(self), out),
    {
        let Message { src, dst, body } = input;
        match body.payload {
            Payload::Echo { echo } => {
                let reply = Message {
                    src: dst,
                    dst: src,
                    body: Body {
                        id: Some(self.id),
                        in_reply_to: body.id,
                        payload: Payload::EchoOk { echo },
                    },
                };
                self.id = self.id + 1;
                Some(reply)
            },
            Payload::EchoOk { .. } => None,
        }
    }
}

/// `nodes[0]` handled `inputs` one after another: `nodes[i + 1]` is the
/// node after the `i`-th input, and `outs[i]` what that step sent.
pub open spec fn is_run(nodes: Seq<EchoNode>, inputs: Seq<Message<Payload>>, outs: Seq<Option<Message<Payload>>>) -> bool {
    &&& nodes.len() == inputs.len() + 1
    &&& outs.len() == inputs.len()
    &&& forall|i: int| #![trigger inputs[i]] 0 <= i < inputs.len() ==> EchoNode::step_spec(nodes[i], inputs[i], nodes[i + 1], outs[i])
}

/// Along a run the id counter never goes back.
proof fn lemma_run_ids_grow(nodes: Seq<EchoNode>, inputs: Seq<Message<Payload>>, outs: Seq<Option<Message<Payload>>>, a: int, b: int)
    requires
        is_run(nodes, inputs, outs),
        0 <= a <= b < nodes.len(),
    ensures
        nodes[a].id <= nodes[b].id,
    decreases b - a,
{
    if a < b {
        lemma_run_ids_grow(nodes, inputs, outs, a, b - 1);
        assert(EchoNode::step_spec(nodes[b - 1], inputs[b - 1], nodes[b], outs[b - 1]));
    }
}

/// The replies of one echo node carry ids that grow strictly, so no two
/// are the same.
pub proof fn lemma_reply_ids_increase(nodes: Seq<EchoNode>, inputs: Seq<Message<Payload>>, outs: Seq<Option<Message<Payload>>>, i: int, j: int)
    requires
        is_run(nodes, inputs, outs),
        0 <= i < j < inputs.len(),
        outs[i] is Some,
        outs[j] is Some,
    ensures
        outs[i]->Some_0.body.id matches Some(x) && outs[j]->Some_0.body.id matches Some(y) && x < y,
{
    assert(EchoNode::step_spec(nodes[i], inputs[i], nodes[i + 1], outs[i]));
    assert(EchoNode::step_spec(nodes[j], inputs[j], nodes[j + 1], outs[j]));
    lemma_run_ids_grow(nodes, inputs, outs, i + 1, j);
}

/// After the handshake (counter at 1), the replies to `k` echo requests
/// carry the ids 1, 2, ..., k in order.
pub proof fn lemma_echo_ids_count_from_one(nodes: Seq<EchoNode>, inputs: Seq<Message<Payload>>, outs: Seq<Option<Message<Payload>>>)
    requires
        is_run(nodes, inputs, outs),
        nodes[0].id == 1,
        forall|i: int| 0 <= i < inputs.len() ==> (#[trigger] inputs[i]).body.payload is Echo,
    ensures
        forall|i: int| 0 <= i < outs.len() ==> ((#[trigger] outs[i]) matches Some(r) && r.body.id == Some((i + 1) as usize)),
{
    assert forall|i: int| 0 <= i < outs.len() implies ((#[trigger] outs[i]) matches Some(r) && r.body.id == Some((i + 1) as usize)) by {
        lemma_run_counter(nodes, inputs, outs, i);
        assert(EchoNode::step_spec(nodes[i], inputs[i], nodes[i + 1], outs[i]));
    }
}

/// On a run of echo requests from counter 1, the `i`-th node's counter is `i + 1`.
proof fn lemma_run_counter(nodes: Seq<EchoNode>, inputs: Seq<Message<Payload>>, outs: Seq<Option<Message<Payload>>>, i: int)
    requires
        is_run(nodes, inputs, outs),
        nodes[0].id == 1,
        forall|k: int| 0 <= k < inputs.len() ==> (#[trigger] inputs[k]).body.payload is Echo,
        0 <= i < nodes.len(),
    ensures
        nodes[i].id == i + 1,
    decreases i,
{
    if i > 0 {
        lemma_run_counter(nodes, inputs, outs, i - 1);
        assert(inputs[i - 1].body.payload is Echo);
        assert(EchoNode::step_spec(nodes[i - 1], inputs[i - 1], nodes[i], outs[i - 1]));
    }
}

} // verus!
