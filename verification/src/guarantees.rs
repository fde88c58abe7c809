//! What callers can count on, said of the functions they call.

use vstd::prelude::*;

use crate::addr::Ipv4Addr;
use crate::bytes::{be32, be32_at, le32_at, lemma_be32_read_back};
use crate::link::inbound::{
    broadcasts, delivered, lemma_delivered_concat, lemma_delivered_from,
    links_start_by_discovering, transfers_are_delivered_in_full, tunnel_traffic,
};
use crate::link::outbound::{flushing_hands_over_one_transfer, hands_over, submissions};
use crate::link::rx::{actions_of, started, ActionView, Rx, RxAction, RxEvent};
use crate::link::sink::{IpSink, SwitchableSink};
use crate::link::timer::DhcpTimer;
use crate::link::tx::{flushed, plausible, within_limits, Tx, TxEvent, TxLimits, TxStep};
use crate::netstack::arp::{
    asking_finds_the_owner, is_arp_frame, mappings_last_five_minutes,
    requests_ask_for_the_address, Arp, ArpState,
};
use crate::netstack::dhcp;
use crate::netstack::dhcp::{reply_in, DhcpClient, Lease, State};
use crate::netstack::dhcp_wire::{
    decline_is_on_the_wire, discover_is_on_the_wire, is_client_message,
    offers_that_echo_the_discover_are_taken_up, renewal_and_release_are_on_the_wire, type_option,
};
use crate::netstack::error::Result as NetResult;
use crate::netstack::ethernet;
use crate::netstack::ethernet::{built_frame_round_trips, Frame, MacAddr};
use crate::netstack::ipv4;
use crate::netstack::ipv4::{built_datagram_round_trips, UdpDatagram};
use crate::rndis::channel::{ControlTransport, Event};
use crate::rndis::control::{drained, serviced, LinkState, Rndis, Session, MAX_POLLS};
use crate::rndis::error::Result as RndisResult;
use crate::rndis::exchange::{
    completed, draining_leaves_nothing_behind, keepalives_are_answered_by_the_device,
    queries_are_answered_by_the_device, reply_at, sent_words, sessions_are_what_the_device_said,
};
use crate::rndis::packet;
use crate::rndis::packet::{encoded_frame_round_trips, fits_a_message, frames, Frames};
use crate::service::after_failed_load;
use crate::time::{Duration, Instant};
use crate::tun::utun::{
    family_of, frame_packet, read_timeout, strip_header, Families, TimeVal,
};
use crate::tunnel::{
    outbound, packets_go_to_the_gateway, plans_follow_the_lease, TunnelError, TunnelPlan,
};
use crate::usb::adapter::{
    bus_device_id, changes, every_change_is_told, has_address, lists, max_packet_size,
    missing_from, names, no_endpoint_is_overlooked, read_len, reads_are_whole_packets, size_in,
    told, worker_step, Demand, LibusbFault, Received, Told, WorkerStep,
};
use crate::usb::backend::{HotplugEvent, OutEndpoint};
use crate::usb::descriptor::{ConfigDescriptor, DeviceId, DeviceInfo};
use crate::usb::error::{Result as UsbResult, UsbError};
use crate::usb::queue::{OutEvent, OutQueue, StopFlag};

verus! {

/// A frame that is built and then parsed comes out as it went in, with only padding
/// behind its payload.
pub proof fn frames_come_out_as_they_went_in<'a>(
    dst: MacAddr,
    src: MacAddr,
    ethertype: u16,
    payload: &[u8],
    built: Vec<u8>,
    received: &'a [u8],
    parsed: NetResult<Frame<'a>>,
)
    requires
        call_ensures(ethernet::build, (dst, src, ethertype, payload), built),
        received@ == built@,
        call_ensures(ethernet::parse, (received,), parsed),
    ensures
        parsed matches Ok(f) && {
            &&& f.dst@ == dst@
            &&& f.src@ == src@
            &&& f.ethertype == ethertype
            &&& f.payload@.len() >= payload@.len()
            &&& f.payload@.take(payload@.len() as int) == payload@
        },
{
    built_frame_round_trips(dst, src, ethertype, payload@);
}

/// A datagram that is built and then parsed comes out as it went in.
pub proof fn datagrams_come_out_as_they_went_in<'a>(
    d: UdpDatagram<'a>,
    ip_id: u16,
    built: Vec<u8>,
    received: &'a [u8],
    parsed: NetResult<UdpDatagram<'a>>,
)
    requires
        28 + d.payload@.len() <= 65535,
        call_ensures(ipv4::build_udp, (&d, ip_id), built),
        received@ == built@,
        call_ensures(ipv4::parse_udp, (received,), parsed),
    ensures
        parsed matches Ok(p) && p@ == d@,
{
    built_datagram_round_trips(d@, ip_id, Seq::empty());
    assert(built@ + Seq::<u8>::empty() =~= built@);
}

/// A frame that is wrapped for the device and taken apart again is the frame.
pub proof fn messages_come_out_as_they_went_in<'a>(
    frame: &[u8],
    wrapped: Vec<u8>,
    transfer: &'a [u8],
    items: &mut Frames<'a>,
    item: Option<RndisResult<&'a [u8]>>,
)
    requires
        fits_a_message(frame@, 1),
        call_ensures(packet::encode, (frame,), wrapped),
        transfer@ == wrapped@,
        call_ensures(packet::decode, (transfer,), *old(items)),
        call_ensures(Frames::next, (items,), item),
    ensures
        item matches Some(Ok(f)) && f@ == frame@,
{
    encoded_frame_round_trips(frame@);
    let all = frames(transfer@);
    assert(all.len() == 1);
    assert(all[0] == packet::item(item->0));
}

/// Asking for an address puts a request for that address on the wire.
pub proof fn arp_asks_for_what_it_is_told(
    arp: &mut Arp,
    ip: Ipv4Addr,
    now: Instant,
    r: Option<Vec<u8>>,
    host_mac: MacAddr,
)
    requires
        old(arp)@.host_mac == host_mac@,
        call_ensures(Arp::request_at, (arp, ip, now), r),
    ensures
        r matches Some(f) ==> is_arp_frame(
            f@,
            seq![255u8, 255, 255, 255, 255, 255],
            1,
            host_mac@,
            old(arp)@.host_ip,
            seq![0u8, 0, 0, 0, 0, 0],
            ip,
        ),
{
    requests_ask_for_the_address(arp@, ip, now, host_mac);
}

/// Whoever has the address that is asked for answers, and no one else does.
pub proof fn arp_is_answered_by_the_owner(
    asker: &mut Arp,
    other: &mut Arp,
    ip: Ipv4Addr,
    asked: Instant,
    heard: Instant,
    question: Vec<u8>,
    payload: &[u8],
    reply: NetResult<Option<Vec<u8>>>,
    asker_mac: MacAddr,
    other_mac: MacAddr,
)
    requires
        old(asker)@.host_mac == asker_mac@,
        old(other)@.host_mac == other_mac@,
        ip.bits != 0,
        !asker_mac.is_group(),
        !other_mac.is_group(),
        call_ensures(Arp::request_at, (asker, ip, asked), Some(question)),
        payload@ == question@.skip(14),
        call_ensures(Arp::handle_at, (other, payload, heard), reply),
    ensures
        old(other)@.host_ip == ip ==> (reply matches Ok(Some(answer)) && is_arp_frame(
            answer@,
            asker_mac@,
            2,
            other_mac@,
            ip,
            asker_mac@,
            old(asker)@.host_ip,
        )),
        old(other)@.host_ip != ip ==> reply matches Ok(None),
{
    asking_finds_the_owner(asker@, other@, ip, asked, heard, heard, asker_mac, other_mac);
}

/// Starting discovery puts a DISCOVER of this client on the wire, in the transaction it
/// is in from then on.
pub proof fn discovery_starts_with_a_discover(client: &mut DhcpClient, m: Vec<u8>, mac: MacAddr)
    requires
        old(client)@.mac == mac@,
        call_ensures(DhcpClient::discover, (client,), m),
    ensures
        is_client_message(
            m@,
            1,
            mac@,
            final(client)@.xid,
            Ipv4Addr { bits: 0 },
            None,
            None,
        ),
        final(client)@.state == State::Selecting,
{
    discover_is_on_the_wire(client@);
}

/// Renewing and releasing put messages for the lease that is held on the wire.
pub proof fn leases_are_renewed_and_released(
    client: &mut DhcpClient,
    mac: MacAddr,
    renewal: Option<Vec<u8>>,
)
    requires
        old(client)@.mac == mac@,
        call_ensures(DhcpClient::renew, (client,), renewal),
    ensures
        match old(client)@.lease {
            Some(lease) => renewal matches Some(m) && is_client_message(
                m@,
                3,
                mac@,
                old(client)@.xid,
                lease.ip,
                None,
                None,
            ),
            None => renewal is None,
        },
{
    renewal_and_release_are_on_the_wire(client@);
}

/// An offer that echoes a DISCOVER is answered.
pub proof fn echoed_offers_are_answered(
    first: &mut DhcpClient,
    discover: Vec<u8>,
    second: &mut DhcpClient,
    offer: &[u8],
    r: NetResult<dhcp::Event>,
    mac: MacAddr,
)
    requires
        old(first)@.mac == mac@,
        call_ensures(DhcpClient::discover, (first,), discover),
        old(second)@ == final(first)@,
        reply_in(offer@) is Ok,
        type_option(offer@) == 2,
        offer@.subrange(4, 8) == discover@.subrange(4, 8),
        offer@.subrange(28, 34) == discover@.subrange(28, 34),
        call_ensures(DhcpClient::handle, (second, offer), r),
    ensures
        r matches Ok(dhcp::Event::Send(_)),
        final(second)@.offered == Some(Ipv4Addr { bits: be32_at(offer@, 16) }),
{
    offers_that_echo_the_discover_are_taken_up(first@, offer@);
}

/// A link starts with sixteen reads and a DISCOVER for everyone.
pub proof fn links_begin_with_reads_and_a_discover(
    host_mac: MacAddr,
    transfer_size: usize,
    now: Instant,
    r: (Rx, Vec<RxAction>),
    arp: ArpState,
)
    requires
        now.nanos + 1_000_000_000 <= u64::MAX,
        call_ensures(Rx::start, (host_mac, transfer_size, now), r),
    ensures
        actions_of(r.1@).len() == 17,
        forall|i: int|
            0 <= i < 16 ==> #[trigger] actions_of(r.1@)[i] == ActionView::Submit(transfer_size),
        actions_of(r.1@)[16] matches ActionView::Send(f) && broadcasts(
            f,
            host_mac@,
            r.0.with(arp).dhcp.pending()->0,
        ),
{
    let (acts, st) = started(host_mac@, transfer_size, arp, now);
    assert(r.0.with(arp) == st);
    assert(actions_of(r.1@) == acts);
    assert(acts.len() == 17 && (forall|i: int|
        0 <= i < 16 ==> #[trigger] acts[i] == ActionView::Submit(transfer_size)) && (acts[16]
        matches ActionView::Send(f) && broadcasts(f, host_mac@, st.dhcp.pending()->0))) by {
        links_start_by_discovering(host_mac, transfer_size, arp, now);
    }
}

/// Taking in a transfer adds the delivery of every packet in it, in order, to what is
/// to be done.
pub proof fn transfers_add_their_deliveries(
    rx: &mut Rx,
    arp: &mut Arp,
    data: &[u8],
    now: Instant,
    actions: &mut Vec<RxAction>,
)
    requires
        call_ensures(Rx::handle_transfer, (rx, arp, data, now, actions), ()),
    ensures
        delivered(actions_of(final(actions)@)) == delivered(actions_of(old(actions)@))
            + tunnel_traffic(old(rx).with(old(arp)@).host_mac, frames(data@)),
{
    let st = rx.with(arp@);
    lemma_delivered_from(st, frames(data@), now);
    lemma_delivered_concat(actions_of(actions@), st.on_items(frames(data@), now).0);
}

/// A step with a transfer hands every packet in it to the tunnel, in order, and nothing
/// else.
pub proof fn steps_deliver_every_packet(
    rx: &mut Rx,
    arp: &mut Arp,
    data: Vec<u8>,
    now: Instant,
    r: (Vec<RxAction>, bool),
)
    requires
        call_ensures(Rx::step, (rx, arp, RxEvent::Data(data), now), r),
    ensures
        delivered(actions_of(r.0@)) == tunnel_traffic(
            old(rx).with(old(arp)@).host_mac,
            frames(data@),
        ),
        !r.1,
{
    transfers_are_delivered_in_full(rx.with(arp@), data, now);
}

/// A bring-up that succeeds hands out what the device said of itself.
pub proof fn bring_up_hands_out_what_the_device_said<T: ControlTransport>(
    rndis: &mut Rndis<T>,
    r: RndisResult<Session>,
)
    requires
        call_ensures(Rndis::<T>::bring_up, (rndis,), r),
    ensures
        r matches Ok(session) ==> ({
            let es = final(rndis).log();
            let at = old(rndis).log().len() as int;
            exists|i: int|
                {
                    let reply = reply_at(es, i);
                    &&& at < i < es.len()
                    &&& #[trigger] completed(es, i, 0x8000_0002, old(rndis).next_id())
                    &&& reply.len() >= 44
                    &&& session.device_max_transfer_size == le32_at(reply, 36)
                    &&& session.max_packets_per_transfer == (if le32_at(reply, 32) == 0 {
                        1
                    } else {
                        le32_at(reply, 32)
                    })
                }
        }),
{
    if r is Ok {
        sessions_are_what_the_device_said(
            final(rndis).log(),
            rndis.log().len() as int,
            rndis.next_id(),
            rndis.link(),
        );
    }
}

/// A keepalive that succeeds was answered.
pub proof fn keepalives_that_succeed_were_answered<T: ControlTransport>(
    rndis: &mut Rndis<T>,
    r: RndisResult<()>,
)
    requires
        call_ensures(Rndis::<T>::keepalive, (rndis,), r),
    ensures
        r is Ok ==> ({
            let es = final(rndis).log();
            &&& sent_words(es, old(rndis).log().len() as int, seq![8u32, 12, old(rndis).next_id()])
            &&& completed(es, es.len() - 1, 0x8000_0008, old(rndis).next_id())
        }),
{
    keepalives_are_answered_by_the_device(
        final(rndis).log(),
        rndis.log().len() as int,
        rndis.next_id(),
        rndis.link(),
    );
}

/// A query that succeeds gives the information that the device's completion points at.
pub proof fn queries_give_what_the_device_said<T: ControlTransport>(
    rndis: &mut Rndis<T>,
    oid: u32,
    r: RndisResult<Vec<u8>>,
)
    requires
        call_ensures(Rndis::<T>::query, (rndis, oid), r),
    ensures
        r matches Ok(info) ==> ({
            let es = final(rndis).log();
            let reply = reply_at(es, es.len() - 1);
            let start = 8 + le32_at(reply, 20);
            &&& sent_words(
                es,
                old(rndis).log().len() as int,
                seq![4u32, 28, old(rndis).next_id(), oid, 0, 0, 0],
            )
            &&& completed(es, es.len() - 1, 0x8000_0004, old(rndis).next_id())
            &&& info@ == reply.subrange(start, start + le32_at(reply, 16))
        }),
{
    queries_are_answered_by_the_device(
        final(rndis).log(),
        rndis.log().len() as int,
        oid,
        rndis.next_id(),
        rndis.link(),
    );
}

/// Polling goes on until the device has nothing more to say.
pub proof fn polling_leaves_nothing_behind<T: ControlTransport>(
    rndis: &mut Rndis<T>,
    r: RndisResult<LinkState>,
)
    requires
        call_ensures(Rndis::<T>::poll_unsolicited, (rndis,), r),
        final(rndis).log().len() < u64::MAX,
    ensures
        r is Ok ==> reply_at(final(rndis).log(), final(rndis).log().len() - 1).len() < 12,
        r matches Ok(link) ==> link == final(rndis).link(),
        r is Ok ==> final(rndis).log().len() > old(rndis).log().len(),
{
    if r is Ok {
        draining_leaves_nothing_behind(
            final(rndis).log(),
            rndis.log().len() as int,
            rndis.link(),
            MAX_POLLS as nat,
            0,
        );
        lemma_drained_link(
            final(rndis).log(),
            rndis.log().len() as int,
            rndis.link(),
            MAX_POLLS as nat,
        );
    }
}

proof fn lemma_drained_link(es: Seq<Event>, at: int, link: LinkState, polls: nat)
    ensures
        drained(es, at, link, polls) matches Some((Ok(told), after, _)) ==> told == after,
    decreases polls,
{
    if polls > 0 && at < es.len() {
        if let Event::Heard { reply: Ok(reply) } = es[at] {
            if let Some((_, after, next)) = serviced(es, at + 1, reply, link) {
                lemma_drained_link(es, next, after, (polls - 1) as nat);
            }
        }
    }
}

/// The size of an endpoint is the one that the active configuration gives it, in
/// whichever interface that stands, and 512 where it gives none.
pub proof fn endpoint_sizes_are_those_of_the_configuration(
    config: ConfigDescriptor,
    address: u8,
    r: usize,
)
    requires
        call_ensures(max_packet_size, (Some(&config), address), r),
    ensures
        (forall|i: int, k: int| !#[trigger] has_address(config, i, k, address)) ==> r == 512,
        (exists|i: int, k: int| #[trigger] has_address(config, i, k, address)) ==> exists|
            i: int,
            k: int,
        |
            {
                &&& #[trigger] has_address(config, i, k, address)
                &&& config.interfaces@[i].endpoints@[k].max_packet_size == r
                &&& forall|j: int, l: int| #[trigger]
                    has_address(config, j, l, address) ==> i < j || (i == j && k <= l)
            },
{
    no_endpoint_is_overlooked(config, address, 0);
    if let Some(size) = size_in(config, address, 0) {
        let (i, k) = choose|i: int, k: int|
            {
                &&& 0 <= i
                &&& #[trigger] has_address(config, i, k, address)
                &&& config.interfaces@[i].endpoints@[k].max_packet_size == size
                &&& forall|j: int, l: int| #[trigger]
                    has_address(config, j, l, address) && 0 <= j ==> i < j || (i == j && k <= l)
            };
        assert(has_address(config, i, k, address));
    }
}

/// A packet from the tunnel goes out behind the gateway's MAC where that is known, and
/// otherwise the gateway is asked for.
pub proof fn packets_leave_for_the_gateway(
    arp: &mut Arp,
    host_mac: MacAddr,
    gateway_mac: MacAddr,
    gateway: Ipv4Addr,
    packet: &[u8],
    now: Instant,
    r: Option<Vec<u8>>,
)
    requires
        old(arp)@.host_mac == host_mac@,
        call_ensures(outbound, (arp, host_mac, gateway, packet, now), r),
    ensures
        old(arp)@.known(gateway, now) == Some(gateway_mac@) ==> ({
            &&& r matches Some(f)
            &&& f@.subrange(0, 6) == gateway_mac@
            &&& f@.subrange(6, 12) == host_mac@
            &&& f@[12] == 8 && f@[13] == 0
            &&& f@.subrange(14, 14 + packet@.len() as int) == packet@
        }),
        old(arp)@.known(gateway, now) is None ==> (r matches Some(f) ==> is_arp_frame(
            f@,
            seq![255u8, 255, 255, 255, 255, 255],
            1,
            host_mac@,
            old(arp)@.host_ip,
            seq![0u8, 0, 0, 0, 0, 0],
            gateway,
        )),
{
    packets_go_to_the_gateway(arp@, host_mac, gateway_mac, gateway, packet@, now);
}

/// Stripping a packet of its header gives back what was framed, and nothing of it is
/// lost on the way; the header holds the packet's family.
pub proof fn stripping_undoes_framing(
    packet: &[u8],
    families: Families,
    framed: Vec<u8>,
    buf: &mut Vec<u8>,
    n: usize,
    len: usize,
)
    requires
        call_ensures(frame_packet, (packet, families), Some(framed)),
        n == framed@.len(),
        n <= old(buf)@.len(),
        old(buf)@.take(n as int) == framed@,
        call_ensures(strip_header, (buf, n), len),
    ensures
        len == packet@.len(),
        final(buf)@.take(len as int) == packet@,
        be32_at(framed@, 0) == families.inet || be32_at(framed@, 0) == families.inet6,
        packet@.len() > 0 && packet@[0] / 16 == 4 ==> be32_at(framed@, 0) == families.inet,
        packet@.len() > 0 && packet@[0] / 16 == 6 ==> be32_at(framed@, 0) == families.inet6,
{
    let family = family_of(packet@, families)->0;
    lemma_be32_read_back(family);
    assert(framed@ == be32(family) + packet@);
    assert(framed@[0] == be32(family)[0] && framed@[1] == be32(family)[1] && framed@[2] == be32(
        family,
    )[2] && framed@[3] == be32(family)[3]);
    assert(buf@.subrange(4, n as int) =~= buf@.take(n as int).skip(4));
    assert(framed@.skip(4) =~= packet@);
}

/// A read timeout is the span it was made from, in whole seconds and what is over.
pub proof fn read_timeouts_are_the_span(millis: i64, r: TimeVal)
    requires
        call_ensures(read_timeout, (millis,), r),
    ensures
        1_000_000 * r.seconds + r.micros == 1000 * millis,
        -1_000_000 < r.micros < 1_000_000,
        millis >= 0 ==> r.seconds >= 0 && r.micros >= 0,
        millis <= 0 ==> r.seconds <= 0 && r.micros <= 0,
{
}

/// Two places on the buses never share a handle.
pub proof fn handles_tell_places_apart(
    bus: u8,
    address: u8,
    other_bus: u8,
    other_address: u8,
    a: DeviceId,
    b: DeviceId,
)
    requires
        call_ensures(bus_device_id, (bus, address), a),
        call_ensures(bus_device_id, (other_bus, other_address), b),
    ensures
        a == b <==> bus == other_bus && address == other_address,
{
}

/// A worker passes on all data and every failure but a timeout, which is none, and stops
/// at a failure.
pub proof fn workers_pass_on_all_but_timeouts(
    read: std::result::Result<Vec<u8>, LibusbFault>,
    r: WorkerStep,
)
    requires
        call_ensures(worker_step, (read,), r),
    ensures
        read matches Ok(data) ==> r.message == Some(Ok::<Vec<u8>, UsbError>(data)) && !r.stop,
        read matches Err(LibusbFault::Timeout) ==> r.message is None && !r.stop,
        read is Err && !(read matches Err(LibusbFault::Timeout)) ==> r.stop && (r.message matches Some(
            Err(_),
        )),
        read matches Err(LibusbFault::NoDevice) ==> r.message == Some(
            Err::<Vec<u8>, UsbError>(UsbError::Disconnected),
        ),
{
}

/// What is asked for and then finished leaves as much outstanding as before; what did
/// not finish in time still is.
pub proof fn finished_transfers_settle_what_was_asked<T>(
    asking: &mut Demand,
    settling: &mut Demand,
    received: Received<UsbResult<T>>,
    r: Option<UsbResult<T>>,
)
    requires
        call_ensures(Demand::ask, (asking,), ()),
        *old(settling) == *final(asking),
        call_ensures(Demand::settle::<T>, (settling, received), r),
    ensures
        received is Nothing ==> r is None && final(settling).outstanding == old(
            asking,
        ).outstanding + 1,
        !(received is Nothing) ==> r is Some && final(settling).outstanding == old(
            asking,
        ).outstanding,
        received matches Received::Finished(x) ==> r == Some(x),
        received is Closed ==> r == Some(Err::<T, UsbError>(UsbError::Disconnected)),
{
}

/// The limits that packets are sent under are those of the session, and a transmitter
/// starts with nothing waiting.
pub proof fn transmitters_go_by_the_session(
    session: Session,
    limits: TxLimits,
    max_packet_size: usize,
    tx: Tx,
)
    requires
        call_ensures(TxLimits::of_session, (&session,), limits),
        call_ensures(Tx::new, (limits, max_packet_size), tx),
    ensures
        tx@.limits.max_transfer_size == session.device_max_transfer_size,
        tx@.limits.max_packets == session.max_packets_per_transfer,
        tx@.limits.alignment == session.packet_alignment,
        tx@.frames.len() == 0,
        tx@.max_packet > 0,
        max_packet_size > 0 ==> tx@.max_packet == max_packet_size,
{
}

/// A packet is handed to the sink that is attached, whole and once, and counted; without
/// a sink it is counted as dropped.
pub proof fn packets_are_handed_over_or_dropped<S: IpSink>(
    sink: &mut SwitchableSink<S>,
    packet: &[u8],
)
    requires
        call_ensures(SwitchableSink::<S>::deliver, (sink, packet), ()),
        old(sink).delivered < u64::MAX,
        old(sink).dropped < u64::MAX,
        old(sink).bytes_in + packet@.len() <= u64::MAX,
    ensures
        match old(sink).inner {
            Some(before) => {
                &&& final(sink).inner matches Some(after)
                &&& after.handed() == before.handed().push(packet@)
                &&& final(sink).delivered == old(sink).delivered + 1
                &&& final(sink).bytes_in == old(sink).bytes_in + packet@.len()
                &&& final(sink).dropped == old(sink).dropped
            },
            None => {
                &&& final(sink).inner is None
                &&& final(sink).delivered == old(sink).delivered
                &&& final(sink).bytes_in == old(sink).bytes_in
                &&& final(sink).dropped == old(sink).dropped + 1
            },
        },
{
}

/// What came and what went between two looks is told, each device by its own event.
pub proof fn comings_and_goings_are_told(
    known: &Vec<DeviceInfo>,
    current: &Vec<DeviceInfo>,
    events: Vec<HotplugEvent>,
    id: DeviceId,
)
    requires
        call_ensures(changes, (known, current), events),
    ensures
        lists(current@, id) && !lists(known@, id) <==> exists|i: int|
            0 <= i < events@.len() && (#[trigger] told(events@[i]) matches Told::Came(info) && info.id
                == id),
        lists(known@, id) && !lists(current@, id) <==> exists|i: int|
            0 <= i < events@.len() && #[trigger] told(events@[i]) == Told::Went(id),
{
    let tell = |e: HotplugEvent| told(e);
    let came = missing_from(current@, known@);
    let went = missing_from(known@, current@);
    let all = events@.map_values(tell);
    every_change_is_told(current@, known@, id);
    every_change_is_told(known@, current@, id);
    assert(all.len() == came.len() + went.len());
    assert forall|i: int| 0 <= i < came.len() implies told(#[trigger] events@[i]) == Told::Came(
        came[i],
    ) by {
        assert(all[i] == told(events@[i]));
    }
    assert forall|i: int| 0 <= i < went.len() implies told(events@[came.len() + i]) == Told::Went(
        (#[trigger] went[i]).id,
    ) by {
        assert(all[came.len() + i] == told(events@[came.len() + i]));
    }
    if names(came, id) {
        let i = choose|i: int| 0 <= i < came.len() && (#[trigger] came[i]).id == id;
        assert(told(events@[i]) == Told::Came(came[i]));
    }
    if names(went, id) {
        let i = choose|i: int| 0 <= i < went.len() && (#[trigger] went[i]).id == id;
        assert(told(events@[came.len() + i]) == Told::Went(id));
    }
    if exists|i: int|
        0 <= i < events@.len() && (#[trigger] told(events@[i]) matches Told::Came(info) && info.id
            == id) {
        let i = choose|i: int|
            0 <= i < events@.len() && (#[trigger] told(events@[i]) matches Told::Came(info) && info.id
                == id);
        assert(i < came.len()) by {
            if i >= came.len() {
                assert(told(events@[came.len() + (i - came.len())]) == Told::Went(
                    went[i - came.len()].id,
                ));
            }
        }
        assert(came[i].id == id);
    }
    if exists|i: int| 0 <= i < events@.len() && #[trigger] told(events@[i]) == Told::Went(id) {
        let i = choose|i: int| 0 <= i < events@.len() && #[trigger] told(events@[i]) == Told::Went(id);
        assert(i >= came.len()) by {
            if i < came.len() {
                assert(told(events@[i]) == Told::Came(came[i]));
            }
        }
        assert(told(events@[came.len() + (i - came.len())]) == Told::Went(
            went[i - came.len()].id,
        ));
        assert(went[i - came.len()].id == id);
    }
}

/// A read is long enough, whole packets, and less than a packet longer than it has to be.
pub proof fn reads_are_long_enough(len: usize, max_packet_size: usize, r: usize)
    requires
        call_ensures(read_len, (len, max_packet_size), r),
    ensures
        r >= len,
        r > 0,
        max_packet_size > 0 ==> r % max_packet_size == 0,
        max_packet_size > 0 && len > 0 ==> r < len + max_packet_size,
        len == 0 && max_packet_size > 0 ==> r == max_packet_size,
        max_packet_size == 0 && len > 0 ==> r == len,
{
    let m: nat = if max_packet_size == 0 {
        1
    } else {
        max_packet_size as nat
    };
    reads_are_whole_packets(len as nat, m);
    vstd::arithmetic::div_mod::lemma_mod_self_0(m as int);
}

/// Loading a service is tried ten times, a fifth of a second longer apart each time.
pub proof fn loading_is_tried_ten_times(attempt: u32, r: (Duration, bool))
    requires
        attempt < 10,
        call_ensures(after_failed_load, (attempt,), r),
    ensures
        r.0.nanos == 200_000_000 * (attempt + 1),
        r.1 <==> attempt < 9,
{
}

/// What is put in is looked up for five minutes, and then no more.
pub proof fn neighbours_are_looked_up_for_five_minutes(
    inserting: &mut Arp,
    looking: Arp,
    ip: Ipv4Addr,
    mac: MacAddr,
    learned: Instant,
    now: Instant,
    r: Option<MacAddr>,
)
    requires
        call_ensures(Arp::insert_at, (inserting, ip, mac, learned), ()),
        looking@ == final(inserting)@,
        call_ensures(Arp::lookup_at, (&looking, ip, now), r),
        learned.nanos <= now.nanos,
    ensures
        now.nanos - learned.nanos < 300_000_000_000 ==> (r matches Some(known) && known@ == mac@),
        now.nanos - learned.nanos >= 300_000_000_000 ==> r is None,
{
    mappings_last_five_minutes(inserting@, ip, mac@, learned, now);
}

/// A release names the lease and the server it came from, and afterwards there is none.
pub proof fn leases_are_given_back(client: &mut DhcpClient, mac: MacAddr, r: Option<Vec<u8>>)
    requires
        old(client)@.mac == mac@,
        call_ensures(DhcpClient::release, (client,), r),
    ensures
        match old(client)@.lease {
            Some(lease) => r matches Some(m) && is_client_message(
                m@,
                7,
                mac@,
                old(client)@.xid,
                lease.ip,
                None,
                Some(lease.server_id),
            ),
            None => r is None,
        },
        final(client)@.lease is None,
{
    renewal_and_release_are_on_the_wire(client@);
}

/// An offer that is turned down is named, with the server it came from.
pub proof fn offers_are_turned_down(client: &mut DhcpClient, mac: MacAddr, r: Option<Vec<u8>>)
    requires
        old(client)@.mac == mac@,
        call_ensures(DhcpClient::decline, (client,), r),
    ensures
        match old(client)@.offered {
            Some(ip) => r matches Some(m) && is_client_message(
                m@,
                4,
                mac@,
                old(client)@.xid,
                Ipv4Addr { bits: 0 },
                Some(ip),
                old(client)@.server_id,
            ),
            None => r is None,
        },
{
    decline_is_on_the_wire(client@);
}

/// What is sent again is what was sent.
pub proof fn messages_are_repeated_as_they_were(
    first: &mut DhcpClient,
    sent: Vec<u8>,
    second: &mut DhcpClient,
    again: Option<Vec<u8>>,
)
    requires
        call_ensures(DhcpClient::discover, (first,), sent),
        old(second)@ == final(first)@,
        call_ensures(DhcpClient::retransmit, (second,), again),
    ensures
        again matches Some(m) && m@ == sent@,
        final(second)@ == old(second)@,
{
}

/// Nothing is due before its time.
pub proof fn nothing_is_due_early(
    timer: &mut DhcpTimer,
    client: &mut DhcpClient,
    now: Instant,
    r: Option<Vec<u8>>,
)
    requires
        call_ensures(DhcpTimer::due, (timer, client, now), r),
    ensures
        now.nanos < old(timer).next.nanos ==> {
            &&& r is None
            &&& *final(timer) == *old(timer)
            &&& final(client)@ == old(client)@
        },
        now.nanos >= old(timer).next.nanos && old(timer).renew_at is None ==> r is Some,
        now.nanos >= old(timer).next.nanos && old(timer).renew_at is Some ==> {
            r is Some <==> old(client)@.lease is Some
        },
{
}

/// A plan follows its lease, and only a lease without a gateway has none.
pub proof fn tunnels_are_planned_by_the_lease(lease: Lease, r: Result<TunnelPlan, TunnelError>)
    requires
        call_ensures(TunnelPlan::for_lease, (&lease,), r),
    ensures
        match r {
            Ok(plan) => {
                &&& plan.address == lease.ip
                &&& lease.router == Some(plan.gateway)
                &&& plan.mtu == (match lease.mtu {
                    Some(mtu) => mtu,
                    None => 1500,
                })
                &&& (plan.subnet.bits ^ lease.ip.bits) & lease.netmask.bits == 0
                &&& plan.subnet.bits & !lease.netmask.bits == 0
            },
            Err(e) => lease.router is None && e is NoGateway,
        },
{
    plans_follow_the_lease(lease@);
}

/// Once the queue is drained what waits goes out in one transfer, which the device
/// decodes to exactly the frames that waited; or it is kept.
pub proof fn drained_queues_are_sent_off<E: OutEndpoint, S: StopFlag>(
    tx: &mut Tx,
    bulk_out: &mut OutQueue<E>,
    stop: S,
    r: TxStep,
)
    requires
        call_ensures(Tx::step::<E, S>, (tx, TxEvent::Drained, bulk_out, &stop), r),
        old(tx)@.max_packet > 0,
        plausible(old(tx)@.limits),
        within_limits(old(tx)@),
    ensures
        ({
            let es = final(bulk_out).log();
            let from = old(bulk_out).log().len() as int;
            let to = es.len() as int;
            &&& r.sent is Some ==> {
                &&& submissions(es, from, to) == 1
                &&& final(tx)@.frames.len() == 0
                &&& exists|k: int|
                    from <= k < to - 1 && #[trigger] es[k] is Counted && hands_over(
                        es,
                        k + 1,
                        old(tx)@.frames,
                    )
            }
            &&& r.sent is None ==> {
                &&& submissions(es, from, to) == 0
                &&& final(tx)@.frames == old(tx)@.frames
            }
        }),
{
    let es = final(bulk_out).log();
    let from = bulk_out.log().len() as int;
    flushing_hands_over_one_transfer(tx@, es, from);
    if r.sent is Some {
        let (_, _, end) = flushed(tx@, es, from)->0;
        let k = choose|k: int|
            {
                &&& from <= k < end - 1
                &&& #[trigger] es[k] matches OutEvent::Counted { pending }
                &&& pending < 8
                &&& hands_over(es, k + 1, tx@.frames)
            };
        assert(es[k] is Counted);
    }
}

} // verus!
