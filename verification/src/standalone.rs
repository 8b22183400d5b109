use vstd::prelude::*;
use crate::message::NodeError;

verus! {

/// A message of the self-contained echo node, whose payloads include the
/// handshake.
#[derive(Debug, PartialEq, Eq)]
pub struct Message {
    pub src: String,
    pub dst: String,
    pub body: Body,
}

/// The body of a [`Message`]: its id, the id it answers, and its payload.
#[derive(Debug, PartialEq, Eq)]
pub struct Body {
    pub id: Option<usize>,
    pub in_reply_to: Option<usize>,
    pub payload: Payload,
}

/// What the handshake tells a node: its own id and the ids of every node.
#[derive(Debug, PartialEq, Eq)]
pub struct Init {
    pub node_id: String,
    pub node_ids: Vec<String>,
}

/// Every payload the self-contained echo node sees.
#[derive(Debug, PartialEq, Eq)]
pub enum Payload {
    Echo { echo: String },
    EchoOk { echo: String },
    Error { error: String },
    Init { node_id: String, node_ids: Vec<String> },
    InitOk,
}

/// An echo node that also answers the handshake itself.
#[derive(Debug, PartialEq, Eq)]
pub struct EchoNode {
    /// The id of the next message this node sends.
    pub id: usize,
}

/// Whether `reply` answers `msg` under the id `id` (source and destination
/// swapped, `in_reply_to` naming `msg`'s id).
pub open spec fn answers(reply: Message, msg: Message, id: Option<usize>) -> bool {
    &&& reply.src == msg.dst
    &&& reply.dst == msg.src
    &&& reply.body.id == id
    &&& reply.body.in_reply_to == msg.body.id
}

impl EchoNode {
    /// Whether handling a message with `payload` makes the node send a
    /// reply (and so use up a message id).
    pub open spec fn replies_to(payload: Payload) -> bool {
        payload is Init || payload is Echo
    }

    /// What handling `input` does: `new` is the node after it and `res`
    /// the message it sends, or why it refused. `init` is answered with
    /// `init_ok` and `echo` with an `echo_ok` carrying the same text; either
    /// reply takes the node's next message id, which then moves on by one.
    /// An `echo_ok` is ignored. An `init_ok` or an `error` is refused,
    /// naming its sender.
    pub open spec fn step_spec(old: EchoNode, input: Message, new: EchoNode, res: Result<Option<Message>, NodeError>) -> bool {
        match input.body.payload {
            Payload::Init { .. } => {
                &&& res matches Ok(Some(r))
                &&& answers(r, input, Some(old.id))
                &&& r.body.payload == Payload::InitOk
                &&& new.id == old.id + 1
            },
            Payload::Echo { echo } => {
                &&& res matches Ok(Some(r))
                &&& answers(r, input, Some(old.id))
                &&& r.body.payload == (Payload::EchoOk { echo })
                &&& new.id == old.id + 1
            },
            Payload::InitOk => {
                &&& res == Err::<Option<Message>, NodeError>(NodeError::UnexpectedInitOk { from: input.src })
                &&& new == old
            },
            Payload::EchoOk { .. } => {
                &&& res == Ok::<Option<Message>, NodeError>(None)
                &&& new == old
            },
            Payload::Error { .. } => {
                &&& res == Err::<Option<Message>, NodeError>(NodeError::UnexpectedError { from: input.src })
                &&& new == old
            },
        }
    }

    /// Handles one message, as [`EchoNode::step_spec`] says.
    pub fn step(&mut self, input: Message) -> (res: Result<Option<Message>, NodeError>)
        requires
            Self::replies_to(input.body.payload) ==> old(self).id < usize::MAX,
        ensures
            Self::step_spec(*old(self), input, *final(self), res),
    {
        let Message { src, dst, body } = input;
        match body.payload {
            Payload::Init { .. } => {
                let reply = Message {
                    src: dst,
                    dst: src,
                    body: Body { id: Some(self.id), in_reply_to: body.id, payload: Payload::InitOk },
                };
                self.id = self.id + 1;
                Ok(Some(reply))
            },
            Payload::Echo { echo } => {
                let reply = Message {
                    src: dst,
                    dst: src,
                    body: Body {
                        id: Some(self.id),
                        in_reply_to: body.id,
                        payload: Payload::EchoOk { echo },
                    },
                };
                self.id = self.id + 1;
                Ok(Some(reply))
            },
            Payload::InitOk => Err(NodeError::UnexpectedInitOk { from: src }),
            Payload::EchoOk { .. } => Ok(None),
            Payload::Error { .. } => Err(NodeError::UnexpectedError { from: src }),
        }
    }
}

/// `nodes[0]` handled `inputs` one after another: `nodes[i + 1]` is the
/// node after the `i`-th input, and `results[i]` what that step gave.
pub open spec fn is_run(nodes: Seq<EchoNode>, inputs: Seq<Message>, results: Seq<Result<Option<Message>, NodeError>>) -> bool {
    &&& nodes.len() == inputs.len() + 1
    &&& results.len() == inputs.len()
    &&& forall|i: int| #![trigger inputs[i]] 0 <= i < inputs.len() ==> EchoNode::step_spec(nodes[i], inputs[i], nodes[i + 1], results[i])
}

/// Along a run the id counter never goes back.
proof fn lemma_run_ids_grow(nodes: Seq<EchoNode>, inputs: Seq<Message>, results: Seq<Result<Option<Message>, NodeError>>, a: int, b: int)
    requires
        is_run(nodes, inputs, results),
        0 <= a <= b < nodes.len(),
    ensures
        nodes[a].id <= nodes[b].id,
    decreases b - a,
{
    if a < b {
        lemma_run_ids_grow(nodes, inputs, results, a, b - 1);
        assert(EchoNode::step_spec(nodes[b - 1], inputs[b - 1], nodes[b], results[b - 1]));
    }
}

/// The replies of one node carry ids that grow strictly, so no two are the
/// same.
pub proof fn lemma_reply_ids_increase(nodes: Seq<EchoNode>, inputs: Seq<Message>, results: Seq<Result<Option<Message>, NodeError>>, i: int, j: int)
    requires
        is_run(nodes, inputs, results),
        0 <= i < j < inputs.len(),
        results[i] matches Ok(Some(_)),
        results[j] matches Ok(Some(_)),
    ensures
        ({
            &&& results[i] matches Ok(Some(a))
            &&& results[j] matches Ok(Some(b))
            &&& a.body.id matches Some(x)
            &&& b.body.id matches Some(y)
            &&& x < y
        }),
{
    assert(EchoNode::step_spec(nodes[i], inputs[i], nodes[i + 1], results[i]));
    assert(EchoNode::step_spec(nodes[j], inputs[j], nodes[j + 1], results[j]));
    lemma_run_ids_grow(nodes, inputs, results, i + 1, j);
}

} // verus!
