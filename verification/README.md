# distributed_system_challenges

Nodes for the Maelstrom distributed-systems workbench, written in Verus.

- `src/` is the verified library. Each node (`standalone`, `echo`,
  `uniq_ids`, `single_node_broadcast`, `broadcast`) is a state and a `step`
  from an input to the next state and the messages to send, with a contract.
  `message` holds the envelope types, the reply skeleton and the init
  handshake; `decimal` and `collections` hold the numeral, list and set
  helpers the nodes use; `animals` and `ownership` are two small examples.
- `app/` is the program around it: reading JSON lines, the input loop,
  the gossip timer thread, and writing replies. Its first argument picks
  the node (`echo-standalone`, `echo`, `unique-ids`,
  `single-node-broadcast`, `broadcast`).
- `tests/` runs the library on concrete inputs.
