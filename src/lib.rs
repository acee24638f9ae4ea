//! Bootstrap layer of a peer-to-peer protocol: session tokens, the wire
//! messages and their binary codec, the connection handshake decision and
//! the formatting and filtering rules of the log sinks.
pub mod wire;
pub mod handshake;
pub mod token;
pub mod loggers;
