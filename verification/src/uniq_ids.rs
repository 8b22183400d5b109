use vstd::prelude::*;
use crate::decimal::{decimal, push_decimal, lemma_decimal_shape, lemma_decimal_injective, is_digit};
use crate::message::{Message, Body, Init, Event, NodeError, answers};

verus! {

/// The payloads of the unique-id workload.
#[derive(Debug, PartialEq, Eq)]
pub enum Payload {
    /// A request for a fresh id.
    Generate,
    /// The answer: an id that no other request, to this or any other node,
    /// is ever given.
    GenerateOk { guid: String },
}

/// A node that hands out ids made of its own node id and a counter.
#[derive(Debug, PartialEq, Eq)]
pub struct UniqueNode {
    /// The id of the next message this node sends; also the counter that
    /// goes into the ids it hands out.
    pub id: usize,
    pub node_id: String,
}

/// The id that node `node` hands out when its counter stands at `counter`:
/// the node id, a hyphen, and the counter in decimal.
pub open spec fn unique_id_text(node: Seq<char>, counter: nat) -> Seq<char> {
    node + seq!['-'] + decimal(counter)
}

/// Builds the id that `node_id` hands out at counter `counter`.
pub fn unique_id(node_id: &String, counter: usize) -> (guid: String)
    ensures
        guid@ == unique_id_text(node_id@, counter as nat),
{
    let mut s = node_id.clone();
    proof { reveal_strlit("-"); }
    s.append("-");
    push_decimal(&mut s, counter);
    assert(s@ =~= unique_id_text(node_id@, counter as nat));
    s
}

/// Ids are unique: two (node, counter) pairs give the same id only if they
/// are the same pair. So a node never hands out one id twice (its counter
/// only grows), and nodes with different node ids never hand out the same id.
pub proof fn lemma_unique_ids_distinct(n1: Seq<char>, c1: nat, n2: Seq<char>, c2: nat)
    ensures
        unique_id_text(n1, c1) == unique_id_text(n2, c2) ==> n1 == n2 && c1 == c2,
{
    let s1 = unique_id_text(n1, c1);
    let s2 = unique_id_text(n2, c2);
    let d1 = decimal(c1);
    let d2 = decimal(c2);
    lemma_decimal_shape(c1);
    lemma_decimal_shape(c2);
    if s1 == s2 {
        if d1.len() < d2.len() {
            let p = s1.len() - d1.len() - 1;
            assert(s1[p] == '-');
            assert(s2[p] == d2[p - n2.len() - 1]);
            assert(is_digit(d2[p - n2.len() - 1]));
            assert(false);
        } else if d2.len() < d1.len() {
            let p = s2.len() - d2.len() - 1;
            assert(s2[p] == '-');
            assert(s1[p] == d1[p - n1.len() - 1]);
            assert(is_digit(d1[p - n1.len() - 1]));
            assert(false);
        }
        assert(n1.len() == n2.len());
        assert(n1 =~= s1.subrange(0, n1.len() as int));
        assert(n2 =~= s2.subrange(0, n2.len() as int));
        assert(d1 =~= s1.subrange(n1.len() as int + 1, s1.len() as int));
        assert(d2 =~= s2.subrange(n2.len() as int + 1, s2.len() as int));
        lemma_decimal_injective(c1, c2);
    }
}

impl UniqueNode {
    /// Whether handling `input` makes the node hand out an id (and so
    /// advance its counter).
    pub open spec fn generates(input: Event<Payload, ()>) -> bool {
        input matches Event::Message(m) && m.body.payload is Generate
    }

    /// The node as the handshake leaves it: its counter at 1.
    pub fn from_init(_state: (), init: Init) -> (node: Self)
        ensures
            node.id == 1,
            node.node_id == init.node_id,
    {
        UniqueNode { node_id: init.node_id, id: 1 }
    }

    /// What handling `input` does: `new` is the node after it and `res` the
    /// message it sends, or why it refused. A `generate` request is
    /// answered with the id made of this node's id and its counter, and the
    /// counter moves on by one; a `generate_ok` is ignored; anything but a
    /// network message is refused.
    pub open spec fn step_spec(old: UniqueNode, input: Event<Payload, ()>, new: UniqueNode, res: Result<Option<Message<Payload>>, NodeError>) -> bool {
        match input {
            Event::Message(m) => match m.body.payload {
                Payload::Generate => {
                    &&& res matches Ok(Some(r))
                    &&& answers(r, m, Some(old.id))
                    &&& r.body.payload matches Payload::GenerateOk { guid }
                    &&& guid@ == unique_id_text(old.node_id@, old.id as nat)
                    &&& new.id == old.id + 1
                    &&& new.node_id == old.node_id
                },
                Payload::GenerateOk { .. } => res == Ok::<Option<Message<Payload>>, NodeError>(None) && new == old,
            },
            _ => res == Err::<Option<Message<Payload>>, NodeError>(NodeError::UnexpectedEvent) && new == old,
        }
    }

    /// Handles one input, as [`UniqueNode::step_spec`] says.
    pub fn step(&mut self, input: Event<Payload, ()>) -> (res: Result<Option<Message<Payload>>, NodeError>)
        requires
            Self::generates(input) ==> old(self).id < usize::MAX,
        ensures
            Self::step_spec(*old(self), input, *final(self), res),
    {
        match input {
            Event::Message(input) => {
                let Message { src, dst, body } = input;
                match body.payload {
                    Payload::Generate => {
                        let guid = unique_id(&self.node_id, self.id);
                        let reply = Message {
                            src: dst,
                            dst: src,
                            body: Body {
                                id: Some(self.id),
                                in_reply_to: body.id,
                                payload: Payload::GenerateOk { guid },
                            },
                        };
                        self.id = self.id + 1;
                        Ok(Some(reply))
                    },
                    Payload::GenerateOk { .. } => Ok(None),
                }
            },
            _ => Err(NodeError::UnexpectedEvent),
        }
    }
}

/// `nodes[0]` handled `inputs` one after another: `nodes[i + 1]` is the
/// node after the `i`-th input, and `results[i]` what that step gave.
pub open spec fn is_run(nodes: Seq<UniqueNode>, inputs: Seq<Event<Payload, ()>>, results: Seq<Result<Option<Message<Payload>>, NodeError>>) -> bool {
    &&& nodes.len() == inputs.len() + 1
    &&& results.len() == inputs.len()
    &&& forall|i: int| #![trigger inputs[i]] 0 <= i < inputs.len() ==> UniqueNode::step_spec(nodes[i], inputs[i], nodes[i + 1], results[i])
}

/// Along a run the node keeps its node id and its counter never goes back.
proof fn lemma_run_counter_grows(nodes: Seq<UniqueNode>, inputs: Seq<Event<Payload, ()>>, results: Seq<Result<Option<Message<Payload>>, NodeError>>, a: int, b: int)
    requires
        is_run(nodes, inputs, results),
        0 <= a <= b < nodes.len(),
    ensures
        nodes[a].id <= nodes[b].id,
        nodes[a].node_id == nodes[b].node_id,
    decreases b - a,
{
    if a < b {
        lemma_run_counter_grows(nodes, inputs, results, a, b - 1);
        assert(UniqueNode::step_spec(nodes[b - 1], inputs[b - 1], nodes[b], results[b - 1]));
    }
}

/// One node never hands out the same id twice: the ids it gives two
/// `generate` requests, one after the other, differ.
pub proof fn lemma_node_never_repeats_an_id(nodes: Seq<UniqueNode>, inputs: Seq<Event<Payload, ()>>, results: Seq<Result<Option<Message<Payload>>, NodeError>>, i: int, j: int)
    requires
        is_run(nodes, inputs, results),
        0 <= i < j < inputs.len(),
        UniqueNode::generates(inputs[i]),
        UniqueNode::generates(inputs[j]),
    ensures
        ({
            &&& results[i] matches Ok(Some(a))
            &&& results[j] matches Ok(Some(b))
            &&& a.body.payload matches Payload::GenerateOk { guid: g1 }
            &&& b.body.payload matches Payload::GenerateOk { guid: g2 }
            &&& g1@ != g2@
        }),
{
    assert(UniqueNode::step_spec(nodes[i], inputs[i], nodes[i + 1], results[i]));
    assert(UniqueNode::step_spec(nodes[j], inputs[j], nodes[j + 1], results[j]));
    lemma_run_counter_grows(nodes, inputs, results, i + 1, j);
    lemma_unique_ids_distinct(nodes[i].node_id@, nodes[i].id as nat, nodes[j].node_id@, nodes[j].id as nat);
}

/// Two nodes with different node ids never hand out the same id.
pub proof fn lemma_nodes_never_share_an_id(
    a0: UniqueNode,
    ea: Event<Payload, ()>,
    a1: UniqueNode,
    ra: Result<Option<Message<Payload>>, NodeError>,
    b0: UniqueNode,
    eb: Event<Payload, ()>,
    b1: UniqueNode,
    rb: Result<Option<Message<Payload>>, NodeError>,
)
    requires
        a0.node_id@ != b0.node_id@,
        UniqueNode::generates(ea),
        UniqueNode::generates(eb),
        UniqueNode::step_spec(a0, ea, a1, ra),
        UniqueNode::step_spec(b0, eb, b1, rb),
    ensures
        ({
            &&& ra matches Ok(Some(a))
            &&& rb matches Ok(Some(b))
            &&& a.body.payload matches Payload::GenerateOk { guid: g1 }
            &&& b.body.payload matches Payload::GenerateOk { guid: g2 }
            &&& g1@ != g2@
        }),
{
    lemma_unique_ids_distinct(a0.node_id@, a0.id as nat, b0.node_id@, b0.id as nat);
}

} // verus!
