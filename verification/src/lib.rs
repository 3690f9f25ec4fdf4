/// Arrays of 32 and 64 bytes: equality, and reading them out of byte strings.
pub mod arrays;
/// The authority: the states of its shards, and how orders, cross-shard updates and
/// certificates change them.
pub mod authority;
/// Keys, signatures, identifiers and the transfer, with its canonical bytes.
pub mod base_types;
/// The committee: voting rights and thresholds.
pub mod committee;
/// Descriptors: keys in hexadecimal, the committee of a descriptor, ports of shards.
pub mod config;
/// SHA-512 and Ed25519, as the outside crates compute them.
pub mod crypto;
/// The errors of the bridge and their text on the wire.
pub mod error;
/// Finite maps and sets keyed by 32-byte identifiers.
pub mod id_map;
/// The highest value that a quorum of authorities supports.
pub mod majority;
/// Orders, votes and certificates; the aggregation of votes and the check of a
/// certificate.
pub mod message;
/// What the answer of an authority means to a client.
pub mod network;
/// The decisions of the relayer: pending transfers, votes, certificates, timeouts.
pub mod relayer;
/// The wire format of the messages, and its inverse.
pub mod serialization;
/// How an authority serves one datagram.
pub mod server;
/// Decimal numerals.
pub mod text;
