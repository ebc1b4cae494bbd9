//! A user-space TCP endpoint for a point-to-point tunnel that carries raw
//! IPv4 datagrams.
//!
//! The crate holds the protocol logic only: the sequence-number arithmetic
//! ([`seqnum`]), the Internet checksum ([`checksum`]), the header layout
//! ([`wire`]), the per-connection state machine ([`tcp`]) and the table that
//! maps datagrams to connections and listeners ([`iface`]). Every function
//! takes plain values and returns plain values; reading from and writing to
//! the tunnel, locking and waiting are left to the caller.

pub mod checksum;
pub mod iface;
pub mod seqnum;
pub mod tcp;
pub mod wire;

pub use iface::{Interface, TcpListener, TcpStream};
