//! Messages and their envelopes.
use vstd::prelude::*;

use crate::addr::SocketAddr;
use crate::net::Segment;

verus! {

/// A host at one of its versions.
#[derive(Debug, Clone, Copy, PartialEq, Eq, Hash, Structural)]
pub struct Dot {
    pub host: SocketAddr,
    pub version: u64,
}

/// What one host sends another: a segment of a stream, or a datagram, which
/// host software gives a meaning.
pub enum Message<M> {
    Segment(Segment),
    Datagram(M),
}

/// A message under way.
pub struct Envelope<M> {
    /// Who sent the message
    pub src: Dot,
    /// Message value
    pub message: Message<M>,
}

/// A message for the network to carry from `src` to `dst`. Delivery is
/// asynchronous and not guaranteed.
pub struct Outgoing<M> {
    pub src: SocketAddr,
    pub dst: SocketAddr,
    pub message: Message<M>,
}

/// What is logged of a message that a host receives.
pub struct RecvRecord {
    /// The host that received it, at its version from then on
    pub dot: Dot,
    /// How long the host had been executing for, in nanoseconds
    pub elapsed: u128,
    /// Who sent the message
    pub src: Dot,
}

} // verus!
