//! The stream side of the simulated network: segments and connections.
use bytes::Bytes;
use std::rc::Rc;
use tokio::sync::Semaphore;
use vstd::prelude::*;

use crate::addr::SocketAddr;
use crate::handshake::{Ack, AckSender};
use crate::table::{Key, TableKey};

verus! {

/// The byte string `bytes::Bytes`.
#[verifier::external_type_specification]
#[verifier::external_body]
pub struct ExBytes(Bytes);

/// (Local, Remote)
#[derive(Debug, Clone, Copy, PartialEq, Eq, Hash, Structural)]
pub struct SocketPair(pub SocketAddr, pub SocketAddr);

impl SocketPair {
    /// Pairs two sockets; a socket is not connected to itself.
    pub fn new(local: SocketAddr, remote: SocketAddr) -> (pair: Self)
        requires
            local != remote,
        ensures
            pair == SocketPair(local, remote),
    {
        SocketPair(local, remote)
    }
}

impl TableKey for SocketPair {
    open spec fn spec_key(self) -> Key {
        (self.0.spec_endpoint(), self.1.spec_endpoint())
    }

    open spec fn spec_from_key(key: Key) -> Self {
        SocketPair(SocketAddr::spec_from_endpoint(key.0), SocketAddr::spec_from_endpoint(key.1))
    }

    proof fn lemma_key(self) {
    }

    fn key(&self) -> (key: Key) {
        (self.0.endpoint(), self.1.endpoint())
    }

    fn from_key(key: Key) -> (value: Self) {
        SocketPair(SocketAddr::from_endpoint(key.0), SocketAddr::from_endpoint(key.1))
    }
}

/// TCP message types.
///
/// This is a parody of the encapsulation TCP does. Padding, checksums and
/// sequencing are left out, and what is there is not faithful either. The
/// point is to simulate real world interactions with just enough control over
/// delivery.
pub enum Segment {
    /// Message used to initiate a new connection with a host.
    Syn(Syn),
    /// Message that carries bytes over a connection.
    Data(Data),
}

/// The request for a connection.
pub struct Syn {
    /// The server socket. Links only deal in IP addresses, so the request
    /// carries the socket for the receiving host to route it by.
    pub dst: SocketAddr,
    /// Notify the peer that the connection has been accepted.
    ///
    /// To connect, only one message is sent; the rest of the handshake is
    /// instantaneous. Delaying that one message is enough to simulate all
    /// three steps.
    pub notify: AckSender,
}

/// Bytes for one end of a connection.
pub struct Data {
    /// The connection, as the receiving host sees it.
    pub pair: SocketPair,
    /// The bytes.
    pub bytes: Bytes,
}

impl Segment {
    /// The name under which the segment is logged.
    pub open spec fn spec_name(self) -> Seq<char> {
        match self {
            Segment::Syn(_) => "Syn"@,
            Segment::Data(_) => "Data"@,
        }
    }

    /// Returns the name under which the segment is logged.
    pub fn name(&self) -> (name: &'static str)
        ensures
            name@ == self.spec_name(),
    {
        match self {
            Segment::Syn(_) => "Syn",
            Segment::Data(_) => "Data",
        }
    }
}

/// One end of a connection.
pub struct TcpStream {
    pair: SocketPair,
    notify: Rc<Semaphore>,
    acknowledged: Ghost<Option<int>>,
}

/// The sockets of a stream, the semaphore by which it waits for segments, and,
/// for the accepting end, the channel over which the peer was told.
pub struct TcpStreamView {
    pub pair: SocketPair,
    pub notify: Rc<Semaphore>,
    pub acknowledged: Option<int>,
}

impl View for TcpStream {
    type V = TcpStreamView;

    closed spec fn view(&self) -> TcpStreamView {
        TcpStreamView {
            pair: self.pair,
            notify: self.notify,
            acknowledged: self.acknowledged@,
        }
    }
}

impl TcpStream {
    /// Creates the end of the connection `pair` that waits by `notify`.
    pub fn new(pair: SocketPair, notify: Rc<Semaphore>) -> (stream: Self)
        ensures
            stream@ == (TcpStreamView { pair, notify, acknowledged: None }),
    {
        TcpStream { pair, notify, acknowledged: Ghost(None) }
    }

    /// Creates the accepting end of the connection `pair`, of which the peer
    /// was told by `ack`.
    pub fn accepted(pair: SocketPair, notify: Rc<Semaphore>, ack: Ack) -> (stream: Self)
        requires
            ack.spec_told(),
        ensures
            stream@ == (TcpStreamView { pair, notify, acknowledged: Some(ack.channel()) }),
    {
        TcpStream { pair, notify, acknowledged: Ghost(Some(ack.channel())) }
    }

    /// Returns the sockets that the stream connects.
    pub fn pair(&self) -> (pair: SocketPair)
        ensures
            pair == self@.pair,
    {
        self.pair
    }

    /// Returns the semaphore that gets a permit for each segment that arrives.
    pub fn notify(&self) -> (notify: Rc<Semaphore>)
        ensures
            notify == self@.notify,
    {
        self.notify.clone()
    }
}

} // verus!
