//! Message-passing nodes for a simulated cluster: the envelope and the reply
//! builder, the handshake, and three reactive state machines (gossip
//! broadcast, grow-only counter, unique-id minting), each a function from
//! state and event to next state and outbound envelopes.

pub mod broadcast;
pub mod cluster;
pub mod counter;
pub mod decimal;
pub mod error;
pub mod gossip;
pub mod known;
pub mod message;
pub mod tally;
pub mod unique_ids;
