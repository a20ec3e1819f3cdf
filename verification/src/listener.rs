//! A simulated socket server.
use std::rc::Rc;
use tokio::sync::Semaphore;
use vstd::prelude::*;

use crate::addr::{SocketAddr, ANY};
use crate::net::TcpStream;
use crate::tcp::AddrInUse;
use crate::world::World;

verus! {

/// A simulated socket server, listening for connections.
///
/// All methods must be called from a host within a simulation.
pub struct TcpListener {
    addr: SocketAddr,
    notify: Rc<Semaphore>,
}

/// The address of a server and the semaphore by which it waits for
/// connections.
pub struct TcpListenerView {
    pub addr: SocketAddr,
    pub notify: Rc<Semaphore>,
}

impl View for TcpListener {
    type V = TcpListenerView;

    closed spec fn view(&self) -> TcpListenerView {
        TcpListenerView { addr: self.addr, notify: self.notify }
    }
}

impl TcpListener {
    /// A server can be bound to `addr`: only IPv4 0.0.0.0 is supported.
    pub open spec fn spec_supports(addr: SocketAddr) -> bool {
        addr matches SocketAddr::V4 { ip, .. } && ip == ANY
    }

    /// Tells whether a server can be bound to `addr`.
    pub fn supports(addr: SocketAddr) -> (supported: bool)
        ensures
            supported == TcpListener::spec_supports(addr),
    {
        match addr {
            SocketAddr::V4 { ip, .. } => ip == ANY,
            SocketAddr::V6 { .. } => false,
        }
    }

    /// Creates a new TcpListener on the currently executing host, which will be
    /// bound to the specified address.
    ///
    /// The returned listener is ready for accepting connections.
    ///
    /// Currently, only IPv4 0.0.0.0 is supported.
    pub fn bind<M>(world: &mut World<M>, addr: SocketAddr) -> (result: Result<Self, AddrInUse>)
        requires
            old(world).wf(),
            old(world)@.has_current(),
            TcpListener::spec_supports(addr),
        ensures
            final(world).wf(),
            ({
                let here = old(world)@.here();
                match result {
                    Ok(listener) => {
                        &&& !here.tcp.binds.has(addr.spec_port())
                        &&& listener@.addr == addr
                        &&& !old(world)@.made.contains(listener@.notify)
                        &&& final(world)@ == old(world)@.bind(addr.spec_port(), listener@.notify)
                    },
                    Err(error) => {
                        &&& here.tcp.binds.has(addr.spec_port())
                        &&& error.addr == addr
                        &&& final(world)@ == old(world)@
                    },
                }
            }),
    {
        match world.bind(addr) {
            Ok(notify) => Ok(TcpListener { addr, notify }),
            Err(error) => Err(error),
        }
    }

    /// Accepts a new incoming connection from this listener, if one waits whose
    /// peer is still there. Where there is none, the listener has to wait for a
    /// permit of its semaphore and look again.
    pub fn accept<M>(&self, world: &mut World<M>) -> (result: Option<(TcpStream, SocketAddr)>)
        requires
            old(world).wf(),
            old(world)@.can_accept(self@.addr),
        ensures
            final(world).wf(),
            old(world)@.accepted(self@.addr, result, final(world)@),
    {
        world.accept(self.addr)
    }

    /// Returns the address that the listener is bound to.
    pub fn addr(&self) -> (addr: SocketAddr)
        ensures
            addr == self@.addr,
    {
        self.addr
    }

    /// Returns the semaphore that gets a permit for each connection that is
    /// asked for.
    pub fn notify(&self) -> (notify: Rc<Semaphore>)
        ensures
            notify == self@.notify,
    {
        self.notify.clone()
    }
}

} // verus!
