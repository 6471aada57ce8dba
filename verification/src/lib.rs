//! A small Raft node: the messages it exchanges, the builder that assembles
//! it, the decisions it takes on each timer tick or incoming message, the
//! length-delimited framing of its datagrams and the parsing of its
//! command-line peer list.
pub mod frame;
pub mod message;
pub mod node;
pub mod parser;
pub mod safety;
pub mod step;
