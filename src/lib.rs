//! A peer-to-peer node network: framing of logical streams over one byte
//! channel, the command codec, and the peer registry that drives the
//! introduction handshake.
//!
//! The transports themselves (sockets, tasks, queues) stay with the program
//! that uses this library; it hands the library bytes and events, and
//! carries out the actions that the library decides.
pub mod accounting;
pub mod bytes;
pub mod channel;
pub mod chunking;
pub mod cli;
pub mod multiplex;
pub mod protocol;
pub mod release;
pub mod route;
pub mod types;
pub mod version;
pub mod wire;
pub mod worker;
