//! Addresses, instants, wake-ups and acknowledgements.
use std::rc::Rc;
use tokio::sync::{oneshot, Semaphore};
use vstd::prelude::*;

use crate::addr::{IpAddr, SocketAddr};
use crate::handshake::{Ack, AckReceiver, AckSender};
use crate::net::{Segment, SocketPair, TcpStream};
use crate::signal::{Signal, Signals};
use crate::table::EndpointKey;
use crate::time::Instant;

verus! {

/// The IP address and the port of a socket address are the bits and the port
/// that it holds.
pub proof fn law_parts_of_an_address(addr: SocketAddr)
    ensures
        addr matches SocketAddr::V4 { ip, port } ==> addr.spec_ip() == IpAddr::V4(ip)
            && addr.spec_port() == port,
        addr matches SocketAddr::V6 { ip, port, .. } ==> addr.spec_ip() == IpAddr::V6(ip)
            && addr.spec_port() == port,
{
}

/// Asking a socket address for its IP address and its port gives the bits and
/// the port that it holds.
pub proof fn law_asking_an_address(addr: SocketAddr, ip: IpAddr, port: u16)
    requires
        call_ensures(SocketAddr::ip, (&addr,), ip),
        call_ensures(SocketAddr::port, (&addr,), port),
    ensures
        addr matches SocketAddr::V4 { ip: bits, port: p } ==> ip == IpAddr::V4(bits) && port == p,
        addr matches SocketAddr::V6 { ip: bits, port: p, .. } ==> ip == IpAddr::V6(bits) && port
            == p,
{
}

/// A socket address that is made of an IP address and a port holds them, and
/// neither flow information nor a scope.
pub proof fn law_making_an_address(ip: IpAddr, port: u16, addr: SocketAddr)
    requires
        call_ensures(SocketAddr::new, (ip, port), addr),
    ensures
        ip matches IpAddr::V4(bits) ==> addr == (SocketAddr::V4 { ip: bits, port }),
        ip matches IpAddr::V6(bits) ==> addr == (SocketAddr::V6 {
            ip: bits,
            port,
            flowinfo: 0,
            scope_id: 0,
        }),
{
}

/// A socket address is told from its endpoint.
pub proof fn law_endpoints_stand_for_addresses(
    addr: SocketAddr,
    endpoint: EndpointKey,
    back: SocketAddr,
)
    requires
        call_ensures(SocketAddr::endpoint, (&addr,), endpoint),
        call_ensures(SocketAddr::from_endpoint, (endpoint,), back),
    ensures
        back == addr,
{
}

/// The time from one instant to a later one is the difference of the two; to an
/// earlier one there is none.
pub proof fn law_time_between_instants(now: Instant, earlier: Instant, nanos: u128)
    requires
        call_ensures(Instant::since, (&now, earlier), nanos),
    ensures
        earlier.nanos <= now.nanos ==> earlier.nanos + nanos == now.nanos,
        earlier.nanos > now.nanos ==> nanos == 0,
{
}

/// Segments are logged as `Syn` and `Data`.
pub proof fn law_names_of_segments(segment: Segment, name: &'static str)
    requires
        call_ensures(Segment::name, (&segment,), name),
    ensures
        segment is Syn ==> name@ == seq!['S', 'y', 'n'],
        segment is Data ==> name@ == seq!['D', 'a', 't', 'a'],
{
    reveal_strlit("Syn");
    reveal_strlit("Data");
    assert(segment is Syn ==> name@ =~= seq!['S', 'y', 'n']);
    assert(segment is Data ==> name@ =~= seq!['D', 'a', 't', 'a']);
}

/// Two different sockets can be paired, the local one first.
pub proof fn law_pairing_sockets(local: SocketAddr, remote: SocketAddr, pair: SocketPair)
    ensures
        local != remote ==> call_requires(SocketPair::new, (local, remote)),
        call_ensures(SocketPair::new, (local, remote), pair) ==> pair.0 == local && pair.1
            == remote,
{
}

/// A stream keeps its sockets and its semaphore, and tells them when asked.
pub proof fn law_a_stream_keeps_its_parts(
    pair: SocketPair,
    notify: Rc<Semaphore>,
    ack: Ack,
    stream: TcpStream,
    told_pair: SocketPair,
    told_notify: Rc<Semaphore>,
)
    requires
        call_ensures(TcpStream::new, (pair, notify), stream) || call_ensures(
            TcpStream::accepted,
            (pair, notify, ack),
            stream,
        ),
        call_ensures(TcpStream::pair, (&stream,), told_pair),
        call_ensures(TcpStream::notify, (&stream,), told_notify),
    ensures
        told_pair == pair,
        told_notify == notify,
        stream@.pair == pair,
        stream@.notify == notify,
{
}

/// A new semaphore has no permits.
pub proof fn law_a_new_signal_has_no_permits(notify: Signal, handle: Rc<Semaphore>)
    requires
        call_ensures(Signal::new, (), notify),
        call_ensures(Signal::handle, (&notify,), handle),
    ensures
        notify@.granted == 0,
        handle == notify@.semaphore,
{
}

/// Permits go into the same semaphore, as many as were put in, as long as it can
/// hold them.
pub proof fn law_putting_permits_in(notify: &mut Signal, permits: usize)
    requires
        call_ensures(Signal::add_permits, (notify, permits), ()),
    ensures
        final(notify)@.granted == old(notify)@.granted + permits,
        final(notify)@.semaphore == old(notify)@.semaphore,
        old(notify)@.granted + permits <= usize::MAX / 8 ==> call_requires(
            Signal::add_permits,
            (notify, permits),
        ),
{
}

/// Each semaphore that is made is none of those before it and stands behind
/// them.
pub proof fn law_making_semaphores(signals: &mut Signals, notify: Signal, i: int)
    requires
        call_ensures(Signals::make, (signals,), notify),
        0 <= i < old(signals)@.len(),
    ensures
        notify@.granted == 0,
        notify@.semaphore != old(signals)@[i],
        final(signals)@.len() == old(signals)@.len() + 1,
        final(signals)@[i] == old(signals)@[i],
        final(signals)@.last() == notify@.semaphore,
{
    assert(old(signals)@.contains(old(signals)@[i]));
}

/// A semaphore that was made elsewhere is kept behind those that were made.
pub proof fn law_keeping_a_semaphore(signals: &mut Signals, notify: &Signal)
    requires
        call_ensures(Signals::record, (signals, notify), ()),
    ensures
        final(signals)@ == old(signals)@ + seq![notify@.semaphore],
{
    assert(final(signals)@ =~= old(signals)@ + seq![notify@.semaphore]);
}

/// Nothing was made at first.
pub proof fn law_no_semaphores_at_first(signals: Signals)
    requires
        call_ensures(Signals::new, (), signals),
    ensures
        signals@.len() == 0,
{
}

/// An acknowledgement is sent by the very half that it is asked of, and the peer
/// counts as told exactly if that succeeded.
pub proof fn law_acknowledging(sender: AckSender, ack: Ack, told: bool)
    requires
        call_ensures(AckSender::send, (sender,), ack),
        call_ensures(Ack::told, (&ack,), told),
    ensures
        exists|result: Result<(), ()>|
            {
                &&& #[trigger] call_ensures(
                    oneshot::Sender::<()>::send,
                    (sender.inner(), ()),
                    result,
                )
                &&& told == (result is Ok)
            },
        ack.spec_told() == told,
        ack.channel() == sender.channel(),
{
}

/// What sending gives tells whether the peer was told.
pub proof fn law_what_sending_gives(result: Result<(), ()>, told: bool)
    requires
        call_ensures(Ack::is_told, (&result,), told),
    ensures
        result == Ok::<(), ()>(()) ==> told,
        result == Err::<(), ()>(()) ==> !told,
{
}

/// The receiving half is the one of the channel.
pub proof fn law_the_receiving_half(half: AckReceiver, receiver: oneshot::Receiver<()>)
    requires
        call_ensures(AckReceiver::into_inner, (half,), receiver),
    ensures
        receiver == half.inner(),
{
}

} // verus!
