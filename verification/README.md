# raft

A small Raft node, verified with Verus.

- `src/message.rs`, `src/message/`: the messages nodes exchange.
- `src/node.rs`: the node, its peers, the typestate builder, and the
  election timeout.
- `src/step.rs`: what a node decides on each event (`next`), and
  `Node::step`, which follows it exactly.
- `src/safety.rs`: properties every step keeps (terms never go back, one
  vote per term, a leader was a candidate whose granted votes exceed half
  its peer count rounded down, ...).
- `src/frame.rs`: length-delimited framing of encoded messages.
- `src/parser.rs`: reading `id@address` peers from the command line.
- `app/`: the program around the library: command-line parsing, protobuf
  encoding, UDP I/O, timers and the event loop.
