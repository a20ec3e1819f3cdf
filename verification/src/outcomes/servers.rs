//! The socket server.
use std::rc::Rc;
use tokio::sync::Semaphore;
use vstd::prelude::*;

use crate::addr::SocketAddr;
use crate::listener::TcpListener;
use crate::net::{SocketPair, TcpStream};
use crate::tcp::AddrInUse;
use crate::world::World;

verus! {

/// Every port of the IPv4 address 0.0.0.0 is supported; no port of another IPv4
/// address is, and no IPv6 address is.
pub proof fn law_supported_addresses(addr: SocketAddr, supported: bool)
    requires
        call_ensures(TcpListener::supports, (addr,), supported),
    ensures
        addr matches SocketAddr::V4 { ip, .. } ==> (supported <==> ip == 0),
        addr is V6 ==> !supported,
        call_requires(TcpListener::supports, (addr,)),
{
}

/// Whether an address is supported does not depend on its port.
pub proof fn law_all_ports_are_alike(ip: u32, p: u16, q: u16, first: bool, second: bool)
    requires
        call_ensures(TcpListener::supports, (SocketAddr::V4 { ip, port: p },), first),
        call_ensures(TcpListener::supports, (SocketAddr::V4 { ip, port: q },), second),
    ensures
        first == second,
{
}

/// Every port of 0.0.0.0 can be bound on the host that is being executed, and
/// that succeeds exactly if the port is free there. The listener has the address
/// that it was bound to and waits by the semaphore of the new server socket,
/// which is none of those that were made. Nothing else changes.
pub proof fn law_binding_a_server<M>(
    world: &mut World<M>,
    at: SocketAddr,
    port: u16,
    result: Result<TcpListener, AddrInUse>,
)
    requires
        old(world).wf(),
        old(world)@.executes(at),
        call_ensures(
            TcpListener::bind::<M>,
            (world, SocketAddr::V4 { ip: 0, port }),
            result,
        ),
    ensures
        final(world).wf(),
        call_requires(TcpListener::bind::<M>, (world, SocketAddr::V4 { ip: 0, port })),
        result is Ok <==> !old(world)@.hosts[at].tcp.binds.has(port),
        result matches Err(error) ==> {
            &&& error.addr == (SocketAddr::V4 { ip: 0, port })
            &&& final(world)@ == old(world)@
        },
        result matches Ok(listener) ==> {
            &&& listener@.addr == (SocketAddr::V4 { ip: 0, port })
            &&& !old(world)@.made.contains(listener@.notify)
            &&& crate::outcomes::worlds::bound(
                old(world)@,
                at,
                port,
                listener@.notify,
                final(world)@,
            )
        },
{
    old(world).lemma_wf();
    if let Ok(listener) = result {
        crate::outcomes::worlds::lemma_bound(old(world)@, at, port, listener@.notify);
    }
}

/// A listener answers the first request that waits at its own port.
pub proof fn law_accepting_at_a_server<M>(
    listener: &TcpListener,
    world: &mut World<M>,
    at: SocketAddr,
    result: Option<(TcpStream, SocketAddr)>,
)
    requires
        old(world).wf(),
        old(world)@.executes(at),
        old(world)@.hosts[at].tcp.binds.has(listener@.addr.spec_port()),
        ({
            let host = old(world)@.hosts[at];
            let pending = host.tcp.binds[listener@.addr.spec_port()].items;
            pending.len() > 0 ==> host.version < u64::MAX && !host.tcp.connections.has(
                SocketPair(listener@.addr, pending[0].src),
            )
        }),
        call_ensures(TcpListener::accept::<M>, (listener, world), result),
    ensures
        final(world).wf(),
        call_requires(TcpListener::accept::<M>, (listener, world)),
        crate::outcomes::worlds::answered(
            old(world)@,
            at,
            listener@.addr,
            Ok(result),
            final(world)@,
        ),
{
    old(world).lemma_wf();
    crate::outcomes::worlds::law_a_request_is_answered(
        old(world)@,
        at,
        listener@.addr,
        Ok(result),
        final(world)@,
    );
}

/// What a listener tells of itself is the address that it was bound to and the
/// semaphore that it waits by.
pub proof fn law_asking_a_server(
    listener: &TcpListener,
    addr: SocketAddr,
    notify: Rc<Semaphore>,
)
    requires
        call_ensures(TcpListener::addr, (listener,), addr),
        call_ensures(TcpListener::notify, (listener,), notify),
    ensures
        addr == listener@.addr,
        notify == listener@.notify,
{
}

} // verus!
