use vstd::prelude::*;

verus! {

/// A message between two nodes of a Maelstrom cluster: who sent it, who it
/// is for, and its body.
#[derive(Debug, PartialEq, Eq)]
pub struct Message<P> {
    pub src: String,
    pub dst: String,
    pub body: Body<P>,
}

/// The body of a message: its own id (if it has one), the id of the message
/// it answers (if any), and its payload.
#[derive(Debug, PartialEq, Eq)]
pub struct Body<P> {
    pub id: Option<usize>,
    pub in_reply_to: Option<usize>,
    pub payload: P,
}

/// The payloads of the handshake with which Maelstrom starts every node.
#[derive(Debug, PartialEq, Eq)]
pub enum InitPayload {
    Init(Init),
    InitOk,
}

/// What the handshake tells a node: its own id and the ids of every node
/// of the cluster.
#[derive(Debug, PartialEq, Eq)]
pub struct Init {
    pub node_id: String,
    pub node_ids: Vec<String>,
}

/// What a node reacts to: a message from the network, an event that the
/// node arranged to receive itself (such as a timer tick), or the end of
/// its input.
#[derive(Debug, PartialEq, Eq)]
pub enum Event<P, I> {
    Message(Message<P>),
    Injected(I),
    EOF,
}

/// Why a node refused an input.
#[derive(Debug, PartialEq, Eq)]
pub enum NodeError {
    /// An `init_ok` arrived; only Maelstrom answers `init`, never a node.
    UnexpectedInitOk { from: String },
    /// An `error` message arrived from the given node.
    UnexpectedError { from: String },
    /// The node was handed something other than a network message.
    UnexpectedEvent,
    /// A node that the node must know of (a neighbour, or the sender of a
    /// gossip message) is not among the nodes it was initialised with.
    UnknownPeer { node: String },
    /// A topology arrived that lists no neighbours for this node.
    NoTopology { node: String },
}

/// The reply to `msg` that carries `id` and `payload`: it goes back from
/// the receiver to the sender and names the message it answers.
pub open spec fn reply_with<P, Q>(msg: Message<P>, id: Option<usize>, payload: Q) -> Message<Q> {
    Message {
        src: msg.dst,
        dst: msg.src,
        body: Body { id: id, in_reply_to: msg.body.id, payload: payload },
    }
}

/// Whether `reply` answers `msg` under the id `id`: it goes back from the
/// receiver of `msg` to its sender and names `msg`'s id as the one it
/// answers. Says nothing of the payload.
pub open spec fn answers<P, Q>(reply: Message<Q>, msg: Message<P>, id: Option<usize>) -> bool {
    &&& reply.src == msg.dst
    &&& reply.dst == msg.src
    &&& reply.body.id == id
    &&& reply.body.in_reply_to == msg.body.id
}

impl<P> Message<P> {
    /// Turns a received message into the skeleton of its reply: source and
    /// destination swap, the reply answers the message's id and keeps its
    /// payload (for the caller to replace), and it takes its own id from
    /// `next_id`, which then moves on by one.
    pub fn into_reply(self, next_id: &mut usize) -> (reply: Self)
        requires
            *old(next_id) < usize::MAX,
        ensures
            reply == reply_with(self, Some(*old(next_id)), self.body.payload),
            *final(next_id) == *old(next_id) + 1,
    {
        let mid = *next_id;
        *next_id = mid + 1;
        Message {
            src: self.dst,
            dst: self.src,
            body: Body { id: Some(mid), in_reply_to: self.body.id, payload: self.body.payload },
        }
    }
}

/// The first step of every node: the first message must be an `init`.
/// Returns what it announces and the `init_ok` reply (which carries id 0),
/// or `None` where the message is anything else.
pub fn handshake(init_msg: Message<InitPayload>) -> (res: Option<(Init, Message<InitPayload>)>)
    ensures
        match init_msg.body.payload {
            InitPayload::Init(init) => res == Some(
                (init, reply_with(init_msg, Some(0usize), InitPayload::InitOk)),
            ),
            InitPayload::InitOk => res is None,
        },
{
    let Message { src, dst, body } = init_msg;
    let Body { id, in_reply_to, payload } = body;
    match payload {
        InitPayload::Init(init) => {
            let reply = Message {
                src: dst,
                dst: src,
                body: Body { id: Some(0), in_reply_to: id, payload: InitPayload::InitOk },
            };
            Some((init, reply))
        },
        InitPayload::InitOk => None,
    }
}

} // verus!
