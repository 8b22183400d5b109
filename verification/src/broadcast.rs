use vstd::prelude::*;
use rand::Rng;
use crate::collections::{
    split_by_knowledge, keep_picked, select, lemma_select, find_key, first_match, has_key, insert_all,
    distinct, first_occurrences, lemma_first_occurrences, part_by_knowledge, lemma_part_by_knowledge,
    lemma_select_member,
};
use crate::message::{Message, Body, Init, Event, NodeError, answers};

verus! {

/// Draws `true` with probability `numerator / denominator`, from the
/// thread's random number generator.
///
/// Calls `rand::Rng::gen_ratio` on `rand::thread_rng()`. As that function's
/// documentation and source show, it panics unless `0 < denominator` and
/// `numerator <= denominator`, returns `true` for certain when the two are
/// equal and `false` for certain when `numerator` is 0. Any other outcome
/// rests on chance and is left unstated.
#[verifier::external_body]
fn chance(numerator: u32, denominator: u32) -> (hit: bool)
    requires
        0 < denominator,
        numerator <= denominator,
    ensures
        numerator == denominator ==> hit,
        numerator == 0 ==> !hit,
{
    rand::thread_rng().gen_ratio(numerator, denominator)
}

/// The values of `messages` (taken as a set) that `known` lacks.
pub open spec fn unknown_to(messages: Seq<usize>, known: Seq<usize>) -> Set<usize> {
    messages.to_set().filter(|x: usize| !known.contains(x))
}

/// What every gossip payload `seen`, sent by a node holding `messages` to
/// a peer believed to know `known`, satisfies: it lists values of
/// `messages`, each once, among them every value the peer is believed to
/// know; where at most ten of `messages` are unknown to the peer, it lists
/// all of `messages`. (The values unknown to the peer are each included
/// with probability min(10, u)/u, where u is how many there are.)
pub open spec fn gossip_fits(seen: Seq<usize>, messages: Seq<usize>, known: Seq<usize>) -> bool {
    &&& seen.no_duplicates()
    &&& forall|x: usize| seen.contains(x) ==> messages.contains(x)
    &&& forall|x: usize| messages.contains(x) && known.contains(x) ==> seen.contains(x)
    &&& unknown_to(messages, known).len() <= 10 ==> forall|x: usize| messages.contains(x) ==> seen.contains(x)
}

/// Two lists without repeats and without common values joined together
/// have no repeats.
proof fn lemma_concat_no_duplicates(a: Seq<usize>, b: Seq<usize>)
    requires
        a.no_duplicates(),
        b.no_duplicates(),
        forall|x: usize| a.contains(x) ==> !b.contains(x),
    ensures
        (a + b).no_duplicates(),
{
    let c = a + b;
    assert forall|i: int, j: int| 0 <= i < c.len() && 0 <= j < c.len() && i != j implies c[i] != c[j] by {
        if i < a.len() && j >= a.len() {
            assert(a.contains(c[i]));
            assert(b[j - a.len()] == c[j]);
        } else if j < a.len() && i >= a.len() {
            assert(a.contains(c[j]));
            assert(b[i - a.len()] == c[i]);
        } else if i >= a.len() && j >= a.len() {
            assert(b[i - a.len()] == c[i]);
            assert(b[j - a.len()] == c[j]);
        }
    }
}

/// `seen` is a gossip payload made with the draws `picks`: the values of
/// `messages` that the peer is believed to know (once each, in the order
/// they first occur), followed by those it is not believed to know whose
/// draw (same position in `picks`, one draw per such value) came up
/// `true`. Where at most ten are unknown to the peer every draw comes up
/// `true`, as odds of min(10, u) in u make certain.
pub open spec fn drawn_payload(seen: Seq<usize>, messages: Seq<usize>, known: Seq<usize>, picks: Seq<bool>) -> bool {
    let unknown = part_by_knowledge(messages, known, false);
    &&& picks.len() == unknown.len()
    &&& unknown.len() <= 10 ==> forall|j: int| 0 <= j < picks.len() ==> picks[j]
    &&& seen == part_by_knowledge(messages, known, true) + select(unknown, picks)
}

/// The odds with which each of `unknown` values unknown to a peer is put
/// into a gossip message: min(10, unknown) in `unknown`.
pub fn gossip_odds(unknown: usize) -> (odds: (u32, u32))
    requires
        0 < unknown <= u32::MAX,
    ensures
        odds.0 == (if unknown < 10 { unknown } else { 10 }),
        odds.1 == unknown,
{
    let numerator: u32 = if unknown < 10 { unknown as u32 } else { 10 };
    (numerator, unknown as u32)
}

/// The payload of one gossip message to a peer believed to know `known`:
/// every value of `messages` that the peer is believed to know, and each
/// value it is not believed to know with probability min(10, u)/u, where
/// u is how many of those there are.
pub fn gossip_notice(messages: &Vec<usize>, known: &Vec<usize>) -> (seen: Vec<usize>)
    requires
        messages@.len() <= u32::MAX,
    ensures
        gossip_fits(seen@, messages@, known@),
        exists|picks: Seq<bool>| #[trigger] drawn_payload(seen@, messages@, known@, picks),
{
    let (unknown, shared) = split_by_knowledge(messages, known);
    let n = unknown.len();
    proof {
        assert(unknown@.to_set() =~= unknown_to(messages@, known@));
        unknown@.unique_seq_to_set();
        assert(unknown_to(messages@, known@).subset_of(messages@.to_set()));
        vstd::set_lib::lemma_len_subset(unknown_to(messages@, known@), messages@.to_set());
        messages@.lemma_cardinality_of_set();
    }
    let mut picks: Vec<bool> = Vec::new();
    if n > 0 {
        let (numerator, denominator) = gossip_odds(n);
        let mut i: usize = 0;
        while i < n
            invariant
                i <= n,
                picks@.len() == i,
                0 < denominator,
                numerator <= denominator,
                numerator == denominator ==> forall|j: int| 0 <= j < i ==> picks@[j],
            decreases n - i,
        {
            let hit = chance(numerator, denominator);
            picks.push(hit);
            i = i + 1;
        }
        assert(n <= 10 ==> numerator == denominator);
    }
    let seen = keep_picked(&shared, &unknown, &picks);
    assert(drawn_payload(seen@, messages@, known@, picks@));
    proof {
        lemma_select(unknown@, picks@);
        let chosen = select(unknown@, picks@);
        assert forall|x: usize| shared@.contains(x) implies !chosen.contains(x) by {
            assert(known@.contains(x));
            if chosen.contains(x) {
                assert(unknown@.contains(x));
                assert(!known@.contains(x));
            }
        }
        lemma_concat_no_duplicates(shared@, chosen);
        assert forall|x: usize| seen@.contains(x) implies messages@.contains(x) by {
            let k = choose|k: int| 0 <= k < seen@.len() && seen@[k] == x;
            if k < shared@.len() {
                assert(shared@[k] == x);
            } else {
                assert(chosen[k - shared@.len()] == x);
            }
        }
        assert forall|x: usize| messages@.contains(x) && known@.contains(x) implies seen@.contains(x) by {
            let k = choose|k: int| 0 <= k < shared@.len() && shared@[k] == x;
            assert(seen@[k] == x);
        }
        if unknown_to(messages@, known@).len() <= 10 {
            assert(chosen == unknown@);
            assert forall|x: usize| messages@.contains(x) implies seen@.contains(x) by {
                if known@.contains(x) {
                    let k = choose|k: int| 0 <= k < shared@.len() && shared@[k] == x;
                    assert(seen@[k] == x);
                } else {
                    let k = choose|k: int| 0 <= k < unknown@.len() && unknown@[k] == x;
                    assert(seen@[shared@.len() + k] == x);
                }
            }
        }
    }
    seen
}

/// The payloads of the multi-node broadcast workload.
#[derive(Debug, PartialEq, Eq)]
pub enum Payload {
    /// A value to record (and to spread to the other nodes).
    Broadcast { message: usize },
    BroadcastOk,
    /// A request for every value this node holds.
    Read,
    ReadOk { messages: Vec<usize> },
    /// The cluster's layout: for each node, its neighbours.
    Topology { topology: Vec<(String, Vec<String>)> },
    TopologyOk,
    /// Values that one node tells a neighbour about.
    Gossip { seen: Vec<usize> },
}

/// The events a broadcast node arranges for itself.
#[derive(Debug, PartialEq, Eq)]
pub enum InjectedPayload {
    /// Time to gossip with the neighbours.
    Gossip,
}

/// A node that records broadcast values and spreads them to its neighbours
/// by periodic gossip.
#[derive(Debug, PartialEq, Eq)]
pub struct BroadcastNode {
    /// The id of the next message this node sends.
    pub id: usize,
    /// The values this node holds: every value broadcast to it or gossiped
    /// to it, in the order they arrived (a value may recur).
    pub messages: Vec<usize>,
    /// This node's neighbours, as the last topology said.
    pub neighbors: Vec<String>,
    pub node_id: String,
    /// For each node of the cluster, the values it is known to hold.
    pub known: Vec<(String, Vec<usize>)>,
    /// Kept from the handshake on and never consulted.
    pub msg_communicated: Vec<(usize, Vec<usize>)>,
}

/// The request that a message with `payload` makes this node answer.
pub open spec fn answered(payload: Payload) -> bool {
    payload is Broadcast || payload is Read || payload is Topology
}

/// `msg` is the gossip message that `node` sends to `peer` in a round: from
/// the node to the peer, with no id of its own, answering nothing, and
/// carrying a payload made, with one draw per value unknown to the peer,
/// from what the node holds and what the peer is known to hold.
pub open spec fn gossip_to(node: BroadcastNode, peer: String, msg: Message<Payload>) -> bool {
    &&& msg.src == node.node_id
    &&& msg.dst == peer
    &&& msg.body.id is None
    &&& msg.body.in_reply_to is None
    &&& msg.body.payload matches Payload::Gossip { seen }
    &&& exists|k: int| #[trigger] first_match(node.known@, peer@, k) && {
        &&& gossip_fits(seen@, node.messages@, node.known@[k].1@)
        &&& exists|picks: Seq<bool>| #[trigger] drawn_payload(seen@, node.messages@, node.known@[k].1@, picks)
    }
}

/// `new` is `old` with the values of `seen` added to the set of entry `k`,
/// which keeps its name, its values in front, and has no other values.
pub open spec fn learned(old: Seq<(String, Vec<usize>)>, new: Seq<(String, Vec<usize>)>, k: int, seen: Seq<usize>) -> bool {
    &&& new.len() == old.len()
    &&& forall|j: int| 0 <= j < old.len() && j != k ==> new[j] == old[j]
    &&& new[k].0 == old[k].0
    &&& old[k].1@.is_prefix_of(new[k].1@)
    &&& forall|x: usize| new[k].1@.contains(x) <==> (old[k].1@.contains(x) || seen.contains(x))
    &&& old[k].1@.no_duplicates() ==> new[k].1@.no_duplicates()
}

/// A gossip round: `old` sends one gossip message to each neighbour, in
/// order, each using up one message id. It fails, naming the neighbour,
/// at the first neighbour that is not among the nodes the node knows of.
pub open spec fn gossip_round(old: BroadcastNode, new: BroadcastNode, res: Result<Vec<Message<Payload>>, NodeError>) -> bool {
    &&& new.messages == old.messages
    &&& new.neighbors == old.neighbors
    &&& new.node_id == old.node_id
    &&& new.known == old.known
    &&& new.msg_communicated == old.msg_communicated
    &&& match res {
        Ok(out) => {
            &&& forall|i: int| 0 <= i < old.neighbors@.len() ==> has_key(old.known@, #[trigger] old.neighbors@[i]@)
            &&& out@.len() == old.neighbors@.len()
            &&& forall|i: int| 0 <= i < out@.len() ==> gossip_to(old, old.neighbors@[i], #[trigger] out@[i])
            &&& new.id == old.id + old.neighbors@.len()
        },
        Err(e) => exists|i: int| {
            &&& 0 <= i < old.neighbors@.len()
            &&& !has_key(old.known@, #[trigger] old.neighbors@[i]@)
            &&& forall|j: int| 0 <= j < i ==> has_key(old.known@, #[trigger] old.neighbors@[j]@)
            &&& e == NodeError::UnknownPeer { node: old.neighbors@[i] }
            &&& new.id == old.id + i
        },
    }
}

/// Handling the network message `input`. Every message is first turned
/// into a reply skeleton, which uses up one message id. Then: `gossip`
/// from a known node adds its values to what that node is known to hold
/// and appends them, each once, to this node's values, and is not answered (from an unknown node it
/// is refused); `broadcast` records the value and is answered; `read` is
/// answered with every value held; `topology` sets the neighbours to the
/// list it gives this node and is answered (if it gives none it is
/// refused); the `_ok` payloads are ignored. Answers take the id the
/// skeleton took plus one more. Held values are never lost.
pub open spec fn handle_message(old: BroadcastNode, input: Message<Payload>, new: BroadcastNode, res: Result<Vec<Message<Payload>>, NodeError>) -> bool {
    &&& new.node_id == old.node_id
    &&& new.msg_communicated == old.msg_communicated
    &&& old.messages@.is_prefix_of(new.messages@)
    &&& match input.body.payload {
        Payload::Gossip { seen } => {
            &&& new.id == old.id + 1
            &&& new.neighbors == old.neighbors
            &&& if has_key(old.known@, input.src@) {
                &&& res matches Ok(out) && out@.len() == 0
                &&& new.messages@ == old.messages@ + first_occurrences(seen@)
                &&& exists|k: int| #[trigger] first_match(old.known@, input.src@, k) && learned(old.known@, new.known@, k, seen@)
            } else {
                &&& res == Err::<Vec<Message<Payload>>, NodeError>(NodeError::UnknownPeer { node: input.src })
                &&& new.messages == old.messages
                &&& new.known == old.known
            }
        },
        Payload::Broadcast { message } => {
            &&& new.id == old.id + 2
            &&& new.messages@ == old.messages@.push(message)
            &&& new.neighbors == old.neighbors
            &&& new.known == old.known
            &&& res matches Ok(out)
            &&& out@.len() == 1
            &&& answers(out@[0], input, Some(old.id))
            &&& out@[0].body.payload == Payload::BroadcastOk
        },
        Payload::Read => {
            &&& new.id == old.id + 2
            &&& new.messages == old.messages
            &&& new.neighbors == old.neighbors
            &&& new.known == old.known
            &&& res matches Ok(out)
            &&& out@.len() == 1
            &&& answers(out@[0], input, Some(old.id))
            &&& out@[0].body.payload matches Payload::ReadOk { messages }
            &&& messages@ == old.messages@
        },
        Payload::Topology { topology } => {
            &&& new.messages == old.messages
            &&& new.known == old.known
            &&& if has_key(topology@, old.node_id@) {
                &&& new.id == old.id + 2
                &&& exists|k: int| #[trigger] first_match(topology@, old.node_id@, k) && new.neighbors == topology@[k].1
                &&& res matches Ok(out)
            &&& out@.len() == 1
                &&& answers(out@[0], input, Some(old.id))
                &&& out@[0].body.payload == Payload::TopologyOk
            } else {
                &&& new.id == old.id + 1
                &&& new.neighbors == old.neighbors
                &&& res == Err::<Vec<Message<Payload>>, NodeError>(NodeError::NoTopology { node: old.node_id })
            }
        },
        _ => {
            &&& new.id == old.id + 1
            &&& new.messages == old.messages
            &&& new.neighbors == old.neighbors
            &&& new.known == old.known
            &&& res matches Ok(out) && out@.len() == 0
        },
    }
}

impl BroadcastNode {
    /// The node knows of each node under one name only (so the first entry
    /// of a name is its only entry), and lists what each holds without
    /// repeats, as a set.
    pub open spec fn well_formed(self) -> bool {
        &&& forall|i: int, j: int| 0 <= i < j < self.known@.len() ==> (#[trigger] self.known@[i]).0@ != (#[trigger] self.known@[j]).0@
        &&& forall|i: int| 0 <= i < self.known@.len() ==> (#[trigger] self.known@[i]).1@.no_duplicates()
    }

    /// Whether handling `event` stays within the machine's limits: the
    /// message ids it uses up fit in a `usize`, and (for a gossip round)
    /// the number of values held fits in a `u32`, as the random draw needs.
    pub open spec fn step_fits(&self, event: Event<Payload, InjectedPayload>) -> bool {
        match event {
            Event::Message(m) => self.id + (if answered(m.body.payload) { 2int } else { 1int }) <= usize::MAX,
            Event::Injected(_) => {
                &&& self.id + self.neighbors@.len() <= usize::MAX
                &&& self.messages@.len() <= u32::MAX
            },
            Event::EOF => true,
        }
    }

    /// What handling `event` does: `new` is the node after it and `res`
    /// the messages it sends, in order, or why it refused. The end of
    /// input changes nothing and sends nothing.
    pub open spec fn step_spec(old: BroadcastNode, event: Event<Payload, InjectedPayload>, new: BroadcastNode, res: Result<Vec<Message<Payload>>, NodeError>) -> bool {
        match event {
            Event::Message(m) => handle_message(old, m, new, res),
            Event::Injected(_) => gossip_round(old, new, res),
            Event::EOF => new == old && (res matches Ok(out) && out@.len() == 0),
        }
    }

    /// Tells whether `step_fits` holds.
    pub fn can_step(&self, event: &Event<Payload, InjectedPayload>) -> (ok: bool)
        ensures
            ok == self.step_fits(*event),
    {
        match event {
            Event::Message(m) => {
                let need: usize = match m.body.payload {
                    Payload::Broadcast { .. } => 2,
                    Payload::Read => 2,
                    Payload::Topology { .. } => 2,
                    _ => 1,
                };
                self.id <= usize::MAX - need
            },
            Event::Injected(_) => self.id <= usize::MAX - self.neighbors.len() && self.messages.len() <= 4294967295usize,
            Event::EOF => true,
        }
    }

    /// The node as the handshake leaves it: no values, no neighbours, next
    /// message id 1, and every node of the cluster known (once, under its
    /// name) to hold nothing.
    pub fn from_init(_state: (), init: Init) -> (node: Self)
        ensures
            node.id == 1,
            node.messages@.len() == 0,
            node.neighbors@.len() == 0,
            node.node_id == init.node_id,
            node.msg_communicated@.len() == 0,
            node.well_formed(),
            forall|i: int| 0 <= i < init.node_ids@.len() ==> has_key(node.known@, (#[trigger] init.node_ids@[i])@),
            forall|k: int| 0 <= k < node.known@.len() ==> {
                &&& exists|i: int| 0 <= i < init.node_ids@.len() && init.node_ids@[i] == (#[trigger] node.known@[k]).0
                &&& node.known@[k].1@.len() == 0
            },
    {
        let Init { node_id, node_ids } = init;
        let mut known: Vec<(String, Vec<usize>)> = Vec::new();
        let mut i: usize = 0;
        while i < node_ids.len()
            invariant
                i <= node_ids@.len(),
                forall|a: int, b: int| 0 <= a < b < known@.len() ==> (#[trigger] known@[a]).0@ != (#[trigger] known@[b]).0@,
                forall|j: int| 0 <= j < i ==> has_key(known@, (#[trigger] node_ids@[j])@),
                forall|k: int| 0 <= k < known@.len() ==> {
                    &&& exists|j: int| 0 <= j < i && node_ids@[j] == (#[trigger] known@[k]).0
                    &&& known@[k].1@.len() == 0
                },
            decreases node_ids@.len() - i,
        {
            let ghost before = known@;
            if find_key(&known, &node_ids[i]).is_none() {
                known.push((node_ids[i].clone(), Vec::new()));
                assert(known@[before.len() as int].0 == node_ids@[i as int]);
            }
            assert forall|j: int| 0 <= j <= i implies has_key(known@, (#[trigger] node_ids@[j])@) by {
                if j < i {
                    let k = choose|k: int| 0 <= k < before.len() && before[k].0@ == node_ids@[j]@;
                    assert(known@[k] == before[k]);
                } else if known@.len() > before.len() {
                    assert(known@[before.len() as int].0@ == node_ids@[j]@);
                }
            }
            assert forall|k: int| 0 <= k < known@.len() implies {
                &&& exists|j: int| 0 <= j < i + 1 && node_ids@[j] == (#[trigger] known@[k]).0
                &&& known@[k].1@.len() == 0
            } by {
                if k < before.len() {
                    assert(known@[k] == before[k]);
                    let j = choose|j: int| 0 <= j < i && node_ids@[j] == before[k].0;
                    assert(node_ids@[j] == known@[k].0);
                } else {
                    assert(node_ids@[i as int] == known@[k].0);
                }
            }
            i = i + 1;
        }
        let node = BroadcastNode {
            node_id,
            id: 1,
            messages: Vec::new(),
            neighbors: Vec::new(),
            known,
            msg_communicated: Vec::new(),
        };
        assert forall|k: int| 0 <= k < node.known@.len() implies (#[trigger] node.known@[k]).1@.no_duplicates() by {
            assert(node.known@[k].1@.len() == 0);
        }
        node
    }

    /// One gossip round, as [`gossip_round`] says.
    fn gossip(&mut self) -> (res: Result<Vec<Message<Payload>>, NodeError>)
        requires
            old(self).id + old(self).neighbors@.len() <= usize::MAX,
            old(self).messages@.len() <= u32::MAX,
        ensures
            gossip_round(*old(self), *final(self), res),
    {
        let ghost start = *self;
        let mut out: Vec<Message<Payload>> = Vec::new();
        let mut missing: Option<String> = None;
        let mut i: usize = 0;
        while i < self.neighbors.len()
            invariant_except_break
                missing is None,
            invariant
                self.messages == start.messages,
                self.neighbors == start.neighbors,
                self.node_id == start.node_id,
                self.known == start.known,
                self.msg_communicated == start.msg_communicated,
                i <= self.neighbors@.len(),
                self.id == start.id + i,
                start.id + start.neighbors@.len() <= usize::MAX,
                start.messages@.len() <= u32::MAX,
                out@.len() == i,
                forall|j: int| 0 <= j < i ==> has_key(start.known@, #[trigger] start.neighbors@[j]@),
                forall|j: int| 0 <= j < i ==> gossip_to(start, start.neighbors@[j], #[trigger] out@[j]),
            ensures
                missing matches Some(node) ==> {
                    &&& i < start.neighbors@.len()
                    &&& !has_key(start.known@, start.neighbors@[i as int]@)
                    &&& node == start.neighbors@[i as int]
                },
                missing is None ==> i == start.neighbors@.len(),
            decreases self.neighbors@.len() - i,
        {
            let peer = &self.neighbors[i];
            match find_key(&self.known, peer) {
                None => {
                    missing = Some(peer.clone());
                    break;
                },
                Some(k) => {
                    let seen = gossip_notice(&self.messages, &self.known[k].1);
                    let msg = Message {
                        src: self.node_id.clone(),
                        dst: peer.clone(),
                        body: Body { id: None, in_reply_to: None, payload: Payload::Gossip { seen } },
                    };
                    assert(first_match(start.known@, start.neighbors@[i as int]@, k as int));
                    assert(gossip_to(start, start.neighbors@[i as int], msg));
                    out.push(msg);
                    self.id = self.id + 1;
                },
            }
            i = i + 1;
        }
        match missing {
            Some(node) => Err(NodeError::UnknownPeer { node }),
            None => Ok(out),
        }
    }

    /// Handles one event, as [`BroadcastNode::step_spec`] says.
    pub fn step(&mut self, event: Event<Payload, InjectedPayload>) -> (res: Result<Vec<Message<Payload>>, NodeError>)
        requires
            old(self).step_fits(event),
        ensures
            Self::step_spec(*old(self), event, *final(self), res),
    {
        match event {
            Event::EOF => Ok(Vec::new()),
            Event::Injected(InjectedPayload::Gossip) => self.gossip(),
            Event::Message(input) => {
                let reply = input.into_reply(&mut self.id);
                let Message { src, dst, body } = reply;
                let Body { id, in_reply_to, payload } = body;
                match payload {
                    Payload::Gossip { seen } => {
                        match find_key(&self.known, &dst) {
                            None => Err(NodeError::UnknownPeer { node: dst }),
                            Some(k) => {
                                let mut set = self.known[k].1.clone();
                                assert(set@ =~= self.known@[k as int].1@);
                                insert_all(&mut set, &seen);
                                let name = self.known[k].0.clone();
                                let ghost before = self.known@;
                                self.known.set(k, (name, set));
                                assert(learned(before, self.known@, k as int, seen@));
                                let mut fresh = distinct(&seen);
                                self.messages.append(&mut fresh);
                                Ok(Vec::new())
                            },
                        }
                    },
                    Payload::Broadcast { message } => {
                        self.messages.push(message);
                        let answer = Message {
                            src,
                            dst,
                            body: Body { id, in_reply_to, payload: Payload::BroadcastOk },
                        };
                        self.id = self.id + 1;
                        let mut out = Vec::new();
                        out.push(answer);
                        Ok(out)
                    },
                    Payload::Read => {
                        let messages = self.messages.clone();
                        assert(messages@ =~= self.messages@);
                        let answer = Message {
                            src,
                            dst,
                            body: Body { id, in_reply_to, payload: Payload::ReadOk { messages } },
                        };
                        self.id = self.id + 1;
                        let mut out = Vec::new();
                        out.push(answer);
                        Ok(out)
                    },
                    Payload::Topology { topology } => {
                        let mut topology = topology;
                        match find_key(&topology, &self.node_id) {
                            None => Err(NodeError::NoTopology { node: self.node_id.clone() }),
                            Some(k) => {
                                let entry = topology.swap_remove(k);
                                self.neighbors = entry.1;
                                let answer = Message {
                                    src,
                                    dst,
                                    body: Body { id, in_reply_to, payload: Payload::TopologyOk },
                                };
                                self.id = self.id + 1;
                                let mut out = Vec::new();
                                out.push(answer);
                                Ok(out)
                            },
                        }
                    },
                    _ => Ok(Vec::new()),
                }
            },
        }
    }
}

/// A value broadcast to the node is returned by every later read: after a
/// `broadcast` of `m` and any steps that keep the held values (every step
/// does), a `read` answers with a list that holds `m`.
pub proof fn lemma_read_returns_broadcast(
    n0: BroadcastNode,
    b: Message<Payload>,
    n1: BroadcastNode,
    r1: Result<Vec<Message<Payload>>, NodeError>,
    n2: BroadcastNode,
    r: Message<Payload>,
    n3: BroadcastNode,
    r3: Result<Vec<Message<Payload>>, NodeError>,
    m: usize,
)
    requires
        b.body.payload == (Payload::Broadcast { message: m }),
        BroadcastNode::step_spec(n0, Event::Message(b), n1, r1),
        n1.messages@.is_prefix_of(n2.messages@),
        r.body.payload == Payload::Read,
        BroadcastNode::step_spec(n2, Event::Message(r), n3, r3),
    ensures
        ({
            &&& r3 matches Ok(out)
            &&& out@.len() == 1
            &&& out@[0].body.payload matches Payload::ReadOk { messages }
            &&& messages@.contains(m)
        }),
{
    let k = n0.messages@.len() as int;
    assert(n1.messages@[k] == m);
    assert(n2.messages@[k] == m);
    let out = r3->Ok_0;
    let messages = out@[0].body.payload->ReadOk_messages;
    assert(messages@[k] == m);
}

/// What a payload made with draws says of each value: a value the peer is
/// believed to know is always in it; a value the peer is not believed to
/// know is in it exactly when its own draw came up `true`; nothing else is
/// in it, and nothing twice.
pub proof fn lemma_drawn_payload_membership(seen: Seq<usize>, messages: Seq<usize>, known: Seq<usize>, picks: Seq<bool>)
    requires
        drawn_payload(seen, messages, known, picks),
    ensures
        seen.no_duplicates(),
        forall|x: usize| messages.contains(x) && known.contains(x) ==> seen.contains(x),
        forall|j: int| 0 <= j < picks.len() ==> (seen.contains(#[trigger] part_by_knowledge(messages, known, false)[j]) <==> picks[j]),
        forall|x: usize| seen.contains(x) ==> messages.contains(x),
{
    let unknown = part_by_knowledge(messages, known, false);
    let shared = part_by_knowledge(messages, known, true);
    lemma_part_by_knowledge(messages, known, false);
    lemma_part_by_knowledge(messages, known, true);
    lemma_select(unknown, picks);
    let chosen = select(unknown, picks);
    assert forall|x: usize| shared.contains(x) implies !chosen.contains(x) by {
        assert(part_by_knowledge(messages, known, true).contains(x));
        assert(known.contains(x));
        if chosen.contains(x) {
            assert(unknown.contains(x));
            assert(part_by_knowledge(messages, known, false).contains(x));
            assert(!known.contains(x));
        }
    }
    lemma_concat_no_duplicates(shared, chosen);
    assert forall|x: usize| messages.contains(x) && known.contains(x) implies seen.contains(x) by {
        let k = choose|k: int| 0 <= k < shared.len() && shared[k] == x;
        assert(seen[k] == x);
    }
    assert forall|j: int| 0 <= j < picks.len() implies (seen.contains(#[trigger] unknown[j]) <==> picks[j]) by {
        lemma_select_member(unknown, picks, j);
        let x = unknown[j];
        assert(unknown.contains(x));
        assert(part_by_knowledge(messages, known, false).contains(x));
        assert(!known.contains(x));
        if shared.contains(x) {
            assert(part_by_knowledge(messages, known, true).contains(x));
        }
        assert(!shared.contains(x));
        if chosen.contains(x) {
            let k = choose|k: int| 0 <= k < chosen.len() && chosen[k] == x;
            assert(seen[shared.len() + k] == x);
        }
        if seen.contains(x) {
            let k = choose|k: int| 0 <= k < seen.len() && seen[k] == x;
            if k < shared.len() {
                assert(shared[k] == x);
            } else {
                assert(chosen[k - shared.len()] == x);
            }
        }
    }
    assert forall|x: usize| seen.contains(x) implies messages.contains(x) by {
        let k = choose|k: int| 0 <= k < seen.len() && seen[k] == x;
        if k < shared.len() {
            assert(shared[k] == x);
        } else {
            assert(chosen[k - shared.len()] == x);
            assert(unknown.contains(x));
        }
    }
}

/// Whether handling `e` brings in the value `x`: a `broadcast` of `x`, or
/// a `gossip` that carries `x`.
pub open spec fn brings(e: Event<Payload, InjectedPayload>, x: usize) -> bool {
    match e {
        Event::Message(m) => match m.body.payload {
            Payload::Broadcast { message } => message == x,
            Payload::Gossip { seen } => seen@.contains(x),
            _ => false,
        },
        _ => false,
    }
}

/// Nothing held is ever lost: after any step that is not refused, the node
/// holds exactly what it held before and what the step brought in; it
/// knows of the same nodes, in the same places, and what each is known to
/// hold only grows.
pub proof fn lemma_step_keeps_and_adds(
    n0: BroadcastNode,
    e: Event<Payload, InjectedPayload>,
    n1: BroadcastNode,
    r: Result<Vec<Message<Payload>>, NodeError>,
)
    requires
        BroadcastNode::step_spec(n0, e, n1, r),
        r is Ok,
    ensures
        forall|x: usize| n1.messages@.contains(x) <==> (n0.messages@.contains(x) || brings(e, x)),
        n1.node_id == n0.node_id,
        n1.known@.len() == n0.known@.len(),
        forall|i: int| 0 <= i < n0.known@.len() ==> (#[trigger] n1.known@[i]).0 == n0.known@[i].0,
        forall|i: int, x: usize| 0 <= i < n0.known@.len() && #[trigger] n0.known@[i].1@.contains(x) ==> n1.known@[i].1@.contains(x),
{
    match e {
        Event::Message(m) => {
            match m.body.payload {
                Payload::Gossip { seen } => {
                    lemma_first_occurrences(seen@);
                    let f = first_occurrences(seen@);
                    let k = choose|k: int| #[trigger] first_match(n0.known@, m.src@, k) && learned(n0.known@, n1.known@, k, seen@);
                    assert forall|x: usize| n1.messages@.contains(x) <==> (n0.messages@.contains(x) || brings(e, x)) by {
                        if n0.messages@.contains(x) {
                            let j = choose|j: int| 0 <= j < n0.messages@.len() && n0.messages@[j] == x;
                            assert(n1.messages@[j] == x);
                        }
                        if f.contains(x) {
                            let j = choose|j: int| 0 <= j < f.len() && f[j] == x;
                            assert(n1.messages@[n0.messages@.len() + j] == x);
                        }
                        if n1.messages@.contains(x) {
                            let j = choose|j: int| 0 <= j < n1.messages@.len() && n1.messages@[j] == x;
                            if j < n0.messages@.len() {
                                assert(n0.messages@[j] == x);
                            } else {
                                assert(f[j - n0.messages@.len()] == x);
                            }
                        }
                    }
                    assert forall|i: int, x: usize| 0 <= i < n0.known@.len() && #[trigger] n0.known@[i].1@.contains(x) implies n1.known@[i].1@.contains(x) by {
                        if i != k {
                            assert(n1.known@[i] == n0.known@[i]);
                        }
                    }
                },
                Payload::Broadcast { message } => {
                    assert forall|x: usize| n1.messages@.contains(x) <==> (n0.messages@.contains(x) || brings(e, x)) by {
                        if n0.messages@.contains(x) {
                            let j = choose|j: int| 0 <= j < n0.messages@.len() && n0.messages@[j] == x;
                            assert(n1.messages@[j] == x);
                        }
                        if x == message {
                            assert(n1.messages@[n0.messages@.len() as int] == x);
                        }
                        if n1.messages@.contains(x) {
                            let j = choose|j: int| 0 <= j < n1.messages@.len() && n1.messages@[j] == x;
                            if j < n0.messages@.len() {
                                assert(n0.messages@[j] == x);
                            }
                        }
                    }
                },
                _ => {},
            }
        },
        _ => {},
    }
}

/// Gossip is never lost on arrival: after a `gossip` from a known node,
/// the node holds every value it carried and records that the sender holds
/// them too.
pub proof fn lemma_gossip_received(
    n0: BroadcastNode,
    g: Message<Payload>,
    n1: BroadcastNode,
    r1: Result<Vec<Message<Payload>>, NodeError>,
    seen: Vec<usize>,
    x: usize,
)
    requires
        g.body.payload == (Payload::Gossip { seen }),
        has_key(n0.known@, g.src@),
        BroadcastNode::step_spec(n0, Event::Message(g), n1, r1),
        seen@.contains(x),
    ensures
        n1.messages@.contains(x),
        exists|k: int| #[trigger] first_match(n1.known@, g.src@, k) && n1.known@[k].1@.contains(x),
{
    lemma_step_keeps_and_adds(n0, Event::Message(g), n1, r1);
    assert(brings(Event::Message(g), x));
    let k = choose|k: int| #[trigger] first_match(n0.known@, g.src@, k) && learned(n0.known@, n1.known@, k, seen@);
    assert(first_match(n1.known@, g.src@, k));
}

/// Well-formedness is kept by every step: the node knows of each node
/// under one name only, and lists what each holds without repeats.
pub proof fn lemma_step_keeps_well_formed(
    n0: BroadcastNode,
    e: Event<Payload, InjectedPayload>,
    n1: BroadcastNode,
    r: Result<Vec<Message<Payload>>, NodeError>,
)
    requires
        BroadcastNode::step_spec(n0, e, n1, r),
        n0.well_formed(),
    ensures
        n1.well_formed(),
{
    if let Event::Message(m) = e {
        if let Payload::Gossip { seen } = m.body.payload {
            if has_key(n0.known@, m.src@) {
                let k = choose|k: int| #[trigger] first_match(n0.known@, m.src@, k) && learned(n0.known@, n1.known@, k, seen@);
                assert forall|i: int, j: int| 0 <= i < j < n1.known@.len() implies (#[trigger] n1.known@[i]).0@ != (#[trigger] n1.known@[j]).0@ by {
                    assert(n1.known@[i].0 == n0.known@[i].0);
                    assert(n1.known@[j].0 == n0.known@[j].0);
                }
                assert forall|i: int| 0 <= i < n1.known@.len() implies (#[trigger] n1.known@[i]).1@.no_duplicates() by {
                    if i != k {
                        assert(n1.known@[i] == n0.known@[i]);
                    }
                }
            }
        }
    }
}

/// `nodes[0]` handled `events` one after another: `nodes[i + 1]` is the
/// node after the `i`-th event, and `results[i]` what that step gave.
pub open spec fn is_run(
    nodes: Seq<BroadcastNode>,
    events: Seq<Event<Payload, InjectedPayload>>,
    results: Seq<Result<Vec<Message<Payload>>, NodeError>>,
) -> bool {
    &&& nodes.len() == events.len() + 1
    &&& results.len() == events.len()
    &&& forall|i: int| #![trigger events[i]] 0 <= i < events.len() ==> BroadcastNode::step_spec(nodes[i], events[i], nodes[i + 1], results[i])
}

/// Along a run, what the node holds at one point it still holds (in the
/// same places) at every later point.
pub proof fn lemma_run_keeps_messages(
    nodes: Seq<BroadcastNode>,
    events: Seq<Event<Payload, InjectedPayload>>,
    results: Seq<Result<Vec<Message<Payload>>, NodeError>>,
    a: int,
    b: int,
)
    requires
        is_run(nodes, events, results),
        0 <= a <= b < nodes.len(),
    ensures
        nodes[a].messages@.is_prefix_of(nodes[b].messages@),
    decreases b - a,
{
    if a < b {
        lemma_run_keeps_messages(nodes, events, results, a, b - 1);
        assert(BroadcastNode::step_spec(nodes[b - 1], events[b - 1], nodes[b], results[b - 1]));
    }
}

/// Along a run, a `read` answers with a list that holds every value
/// broadcast to the node earlier in the run, whatever happened in between.
pub proof fn lemma_run_read_returns_broadcast(
    nodes: Seq<BroadcastNode>,
    events: Seq<Event<Payload, InjectedPayload>>,
    results: Seq<Result<Vec<Message<Payload>>, NodeError>>,
    i: int,
    k: int,
    v: usize,
)
    requires
        is_run(nodes, events, results),
        0 <= i < k < events.len(),
        events[i] matches Event::Message(b) && b.body.payload == (Payload::Broadcast { message: v }),
        events[k] matches Event::Message(r) && r.body.payload == Payload::Read,
    ensures
        ({
            &&& results[k] matches Ok(out)
            &&& out@.len() == 1
            &&& out@[0].body.payload matches Payload::ReadOk { messages }
            &&& messages@.contains(v)
        }),
{
    assert(BroadcastNode::step_spec(nodes[i], events[i], nodes[i + 1], results[i]));
    assert(BroadcastNode::step_spec(nodes[k], events[k], nodes[k + 1], results[k]));
    lemma_run_keeps_messages(nodes, events, results, i + 1, k);
    let j = nodes[i].messages@.len() as int;
    assert(nodes[i + 1].messages@[j] == v);
    assert(nodes[k].messages@[j] == v);
    let out = results[k]->Ok_0;
    let messages = out@[0].body.payload->ReadOk_messages;
    assert(messages@[j] == v);
}

/// The message-id counter never goes back, whatever the node handles.
pub proof fn lemma_id_never_decreases(
    n0: BroadcastNode,
    e: Event<Payload, InjectedPayload>,
    n1: BroadcastNode,
    r: Result<Vec<Message<Payload>>, NodeError>,
)
    requires
        BroadcastNode::step_spec(n0, e, n1, r),
    ensures
        n0.id <= n1.id,
{
}

/// Message ids never repeat: an answer sent while handling one network
/// message carries a smaller id than any answer sent while handling a later
/// one (the counter only grows between the two steps).
pub proof fn lemma_answer_ids_increase(
    n0: BroadcastNode,
    a: Message<Payload>,
    n1: BroadcastNode,
    r1: Result<Vec<Message<Payload>>, NodeError>,
    n2: BroadcastNode,
    b: Message<Payload>,
    n3: BroadcastNode,
    r3: Result<Vec<Message<Payload>>, NodeError>,
)
    requires
        BroadcastNode::step_spec(n0, Event::Message(a), n1, r1),
        n1.id <= n2.id,
        BroadcastNode::step_spec(n2, Event::Message(b), n3, r3),
        r1 matches Ok(out) && out@.len() > 0,
        r3 matches Ok(out) && out@.len() > 0,
    ensures
        ({
            &&& r1 matches Ok(out1)
            &&& r3 matches Ok(out3)
            &&& out1@[0].body.id matches Some(x)
            &&& out3@[0].body.id matches Some(y)
            &&& x < y
        }),
{
}

} // verus!
