//! The first exchange on a new connection: the peer must open with a
//! `Connect` request, which establishes who it is.
//!
//! Two questions stay open in this protocol. No reply is sent to the peer
//! either way: `Response::Connected` is defined but nothing transmits it yet.
//! And the handshake has no timeout: a peer that never completes its first
//! frame keeps its connection waiting until it closes the stream.
use vstd::prelude::*;
use crate::wire::{parse_request, DecodeError, PeerKey, Request, RequestView, MAX_FRAME_SIZE};

verus! {

/// The network address of a host.
#[derive(Clone, Copy, PartialEq, Eq, Structural, Debug)]
pub enum IpAddress {
    V4(u32),
    V6(u128),
}

/// A socket endpoint: an address and a port.
#[derive(Clone, Copy, PartialEq, Eq, Structural, Debug)]
pub struct Endpoint {
    pub ip: IpAddress,
    pub port: u16,
}

/// A peer whose handshake succeeded.
pub struct Fur {
    /// Name of the program working this connection.
    pub agent: String,
    /// Where the connection comes from, where the transport could tell.
    pub address: Option<Endpoint>,
    /// Key needed to encrypt messages targeting this peer.
    pub key: PeerKey,
}

/// Why a handshake was refused.
#[derive(Clone, Copy, PartialEq, Eq, Structural, Debug)]
pub enum Rejection {
    /// The first frame does not form a request.
    Malformed,
    /// The first frame reaches past the size limit.
    FrameTooLarge,
    /// The stream ended before the first frame did.
    StreamClosed,
    /// The first request is not a `Connect`.
    ProtocolViolation,
}

/// Where a handshake stands.
pub enum Handshake {
    /// More bytes are needed before the first request can be read.
    AwaitingFirstMessage,
    /// The peer opened with `Connect`.
    Established(Fur),
    /// The connection is refused; nothing more is read from it.
    Rejected(Rejection),
}

impl Fur {
    /// Decides the handshake from the bytes received so far on a connection
    /// from `address`; `closed` says whether the stream has ended.
    pub fn handshake(address: Option<Endpoint>, received: &[u8], closed: bool) -> (r: Handshake)
        ensures
            match parse_request(received@, MAX_FRAME_SIZE as nat) {
                Ok((RequestView::Connect { agent, key }, _)) => r matches Handshake::Established(f)
                    && f.agent@ == agent && f.key@ == key && f.address == address,
                Ok((RequestView::Login, _)) => r matches Handshake::Rejected(
                    Rejection::ProtocolViolation,
                ),
                Err(DecodeError::Incomplete) => if closed {
                    r matches Handshake::Rejected(Rejection::StreamClosed)
                } else {
                    r matches Handshake::AwaitingFirstMessage
                },
                Err(DecodeError::FrameTooLarge) => r matches Handshake::Rejected(
                    Rejection::FrameTooLarge,
                ),
                Err(DecodeError::Malformed) => r matches Handshake::Rejected(Rejection::Malformed),
            },
    {
        match Request::decode(received, MAX_FRAME_SIZE) {
            Ok((Request::Connect { agent, key }, _)) => Handshake::Established(
                Fur { agent, address, key },
            ),
            Ok((Request::Login, _)) => Handshake::Rejected(Rejection::ProtocolViolation),
            Err(DecodeError::Incomplete) => if closed {
                Handshake::Rejected(Rejection::StreamClosed)
            } else {
                Handshake::AwaitingFirstMessage
            },
            Err(DecodeError::FrameTooLarge) => Handshake::Rejected(Rejection::FrameTooLarge),
            Err(DecodeError::Malformed) => Handshake::Rejected(Rejection::Malformed),
        }
    }
}

} // verus!
