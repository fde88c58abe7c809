//! What every inbound transfer leads to, frame by frame.

use vstd::prelude::*;

use crate::addr::Ipv4Addr;
use crate::bytes::{be16_at, be32_at, lemma_be32_read_back};
use crate::link::rx::{
    dhcp_frame, started, ActionView, LinkEvent, RxAction, RxEvent, RxState,
};
use crate::netstack::arp::{
    answers_are_laid_out, arp_in, is_arp_frame, packets_are_read_by_position, ArpState,
};
use crate::netstack::dhcp::{
    discovery_uses_a_fresh_id, reply_in, ClientState, EventView, Lease, State,
};
use crate::netstack::dhcp_wire::{
    discover_is_on_the_wire, is_client_message, request_is_on_the_wire, type_option,
};
use crate::netstack::error::Error as NetError;
use crate::netstack::ethernet::{frames_are_laid_out, MacAddr};
use crate::netstack::ipv4::{packets_are_laid_out, udp_in, udp_packet, UdpView};
use crate::rndis::error::Result as RndisResult;
use crate::rndis::packet::frames;
use crate::time::Instant;
use crate::usb::error::UsbError;

verus! {

/// Whether a frame is for this host: to its own MAC, or to a group.
pub open spec fn is_for(host_mac: Seq<u8>, frame: Seq<u8>) -> bool {
    frame.len() >= 14 && (frame.subrange(0, 6) == host_mac || frame[0] % 2 == 1)
}

/// Whether the IPv4 packet `p` comes from a DHCP server and goes to a DHCP client.
pub open spec fn is_from_a_dhcp_server(p: Seq<u8>) -> bool {
    udp_in(p) matches Ok(d) && d.src_port == 67 && d.dst_port == 68
}

/// Whether a frame holds a packet for the tunnel: IPv4, for this host, and not DHCP.
pub open spec fn is_tunnel_traffic(host_mac: Seq<u8>, frame: Seq<u8>) -> bool {
    is_for(host_mac, frame) && frame[12] == 8 && frame[13] == 0 && !is_from_a_dhcp_server(
        frame.skip(14),
    )
}

/// The packets for the tunnel in a transfer, up to the first malformed message.
pub open spec fn tunnel_traffic(host_mac: Seq<u8>, items: Seq<RndisResult<Seq<u8>>>) -> Seq<
    Seq<u8>,
>
    decreases items.len(),
{
    if items.len() == 0 || items[0] is Err {
        seq![]
    } else {
        let frame = items[0]->Ok_0;
        (if is_tunnel_traffic(host_mac, frame) {
            seq![frame.skip(14)]
        } else {
            seq![]
        }) + tunnel_traffic(host_mac, items.drop_first())
    }
}

/// The packets that a list of actions hands to the tunnel.
pub open spec fn delivered(acts: Seq<ActionView>) -> Seq<Seq<u8>>
    decreases acts.len(),
{
    if acts.len() == 0 {
        seq![]
    } else {
        (match acts[0] {
            ActionView::Deliver(packet) => seq![packet],
            _ => seq![],
        }) + delivered(acts.drop_first())
    }
}

/// Every packet of a transfer reaches the tunnel, whole, once and in order, and nothing
/// else does, however many frames the transfer holds and whatever stands between them.
pub proof fn transfers_are_delivered_in_full(st: RxState, data: Vec<u8>, now: Instant)
    ensures
        delivered(st.on_event(RxEvent::Data(data), now).0) == tunnel_traffic(
            st.host_mac,
            frames(data@),
        ),
{
    let items = frames(data@);
    let (acts, heard) = st.on_items(items, now);
    lemma_delivered_from(st, items, now);
    lemma_timer_delivers_nothing(heard, now);
    lemma_only_traffic_is_delivered(st.transfer_size, acts, heard.on_timer(now).0);
}

/// A transfer of `n` packets for the tunnel leads to exactly `n` deliveries, the payload
/// of each frame in turn, and changes nothing else.
pub proof fn every_packet_of_a_transfer_is_delivered(
    st: RxState,
    items: Seq<RndisResult<Seq<u8>>>,
    now: Instant,
)
    requires
        forall|i: int|
            0 <= i < items.len() ==> (#[trigger] items[i]) is Ok && is_tunnel_traffic(
                st.host_mac,
                items[i]->Ok_0,
            ),
    ensures
        st.on_items(items, now).0.len() == items.len(),
        forall|i: int|
            0 <= i < items.len() ==> #[trigger] st.on_items(items, now).0[i]
                == ActionView::Deliver(items[i]->Ok_0.skip(14)),
        st.on_items(items, now).1 == st,
    decreases items.len(),
{
    if items.len() > 0 {
        let rest = items.skip(1);
        assert forall|i: int| 0 <= i < rest.len() implies (#[trigger] rest[i]) is Ok
            && is_tunnel_traffic(st.host_mac, rest[i]->Ok_0) by {
            assert(rest[i] == items[i + 1]);
        }
        every_packet_of_a_transfer_is_delivered(st, rest, now);
        let frame = items[0]->Ok_0;
        lemma_frame_is_delivered(st, frame, now);
        let acts = st.on_items(items, now).0;
        let later = st.on_items(rest, now).0;
        assert(acts =~= seq![ActionView::Deliver(frame.skip(14))] + later);
        assert forall|i: int| 0 <= i < items.len() implies #[trigger] acts[i]
            == ActionView::Deliver(items[i]->Ok_0.skip(14)) by {
            if i > 0 {
                assert(acts[i] == later[i - 1]);
                assert(rest[i - 1] == items[i]);
            }
        }
    }
}

/// The frames of a transfer count one by one: two transfers' worth of frames in one do
/// what they would do in two.
pub proof fn transfers_can_be_split(
    st: RxState,
    first: Seq<RndisResult<Seq<u8>>>,
    second: Seq<RndisResult<Seq<u8>>>,
    now: Instant,
)
    requires
        forall|i: int| 0 <= i < first.len() ==> (#[trigger] first[i]) is Ok,
    ensures
        ({
            let (acts, between) = st.on_items(first, now);
            let (more, after) = between.on_items(second, now);
            st.on_items(first + second, now) == (acts + more, after)
        }),
    decreases first.len(),
{
    if first.len() == 0 {
        assert(first + second =~= second);
        assert(st.on_items(first, now).0 + st.on_items(second, now).0 =~= st.on_items(
            second,
            now,
        ).0);
    } else {
        let rest = first.skip(1);
        assert((first + second).skip(1) =~= rest + second);
        assert forall|i: int| 0 <= i < rest.len() implies (#[trigger] rest[i]) is Ok by {
            assert(rest[i] == first[i + 1]);
        }
        let (acts, next) = st.on_frame(first[0]->Ok_0, now);
        transfers_can_be_split(next, rest, second, now);
        let (more, between) = next.on_items(rest, now);
        assert(acts + (more + between.on_items(second, now).0) =~= (acts + more)
            + between.on_items(second, now).0);
    }
}

/// A malformed message makes the rest of its transfer meaningless, and what stands in
/// front of it counts all the same.
pub proof fn malformed_messages_end_a_transfer(
    st: RxState,
    good: Seq<RndisResult<Seq<u8>>>,
    bad: RndisResult<Seq<u8>>,
    rest: Seq<RndisResult<Seq<u8>>>,
    now: Instant,
)
    requires
        forall|i: int| 0 <= i < good.len() ==> (#[trigger] good[i]) is Ok,
        bad is Err,
    ensures
        st.on_items(good + seq![bad] + rest, now) == st.on_items(good, now),
{
    transfers_can_be_split(st, good, seq![bad] + rest, now);
    assert(good + seq![bad] + rest =~= good + (seq![bad] + rest));
    let (acts, _) = st.on_items(good, now);
    assert(acts + Seq::<ActionView>::empty() =~= acts);
}

/// A neighbour that asks for our address over the link is told our MAC, and is known
/// from then on.
pub proof fn neighbours_are_answered(
    st: RxState,
    frame: Seq<u8>,
    dst: MacAddr,
    asker: MacAddr,
    asker_ip: Ipv4Addr,
    blank: Seq<u8>,
    host_mac: MacAddr,
    now: Instant,
)
    requires
        st.host_mac == host_mac@,
        st.arp.host_mac == host_mac@,
        st.arp.host_ip.bits != 0,
        dst@ == host_mac@ || dst.is_group(),
        !asker.is_group(),
        asker_ip.bits != 0,
        blank.len() == 6,
        is_arp_frame(frame, dst@, 1, asker@, asker_ip, blank, st.arp.host_ip),
    ensures
        st.on_frame(frame, now).0.len() == 1,
        st.on_frame(frame, now).0[0] matches ActionView::Send(answer) && is_arp_frame(
            answer,
            asker@,
            2,
            host_mac@,
            st.arp.host_ip,
            asker@,
            asker_ip,
        ),
        st.on_frame(frame, now).1.arp.known(asker_ip, now) == Some(asker@),
        st.on_frame(frame, now).1.dhcp == st.dhcp,
{
    let payload = frame.skip(14);
    let header = frame.subrange(12, 22);
    packets_are_read_by_position(payload);
    assert(forall|i: int| 0 <= i < 10 ==> #[trigger] header[i] == frame[12 + i]);
    assert(header[0] == frame[12] && header[1] == frame[13]);
    assert(payload[0] == header[2] && payload[1] == header[3] && payload[2] == header[4]
        && payload[3] == header[5] && payload[4] == header[6] && payload[5] == header[7]
        && payload[6] == header[8] && payload[7] == header[9]);
    assert(payload.subrange(8, 14) =~= frame.subrange(22, 28));
    assert(payload.subrange(14, 18) =~= frame.subrange(28, 32));
    assert(payload.subrange(24, 28) =~= frame.subrange(38, 42));
    assert(frame.subrange(0, 6)[0] == frame[0]);
    lemma_be32_read_back(asker_ip.bits);
    lemma_be32_read_back(st.arp.host_ip.bits);
    let s = payload.subrange(14, 18);
    let t = payload.subrange(24, 28);
    assert(s[0] == payload[14] && s[1] == payload[15] && s[2] == payload[16] && s[3]
        == payload[17]);
    assert(t[0] == payload[24] && t[1] == payload[25] && t[2] == payload[26] && t[3]
        == payload[27]);
    let p = arp_in(payload)->Ok_0;
    assert(p.sender_ip == asker_ip);
    assert(p.target_ip == st.arp.host_ip);
    answers_are_laid_out(st.arp, p, host_mac, asker);
}

/// Whether a frame broadcasts a DHCP message from `mac`: from no address, to every
/// address, from the client's port to the server's.
pub open spec fn broadcasts(frame: Seq<u8>, mac: Seq<u8>, message: Seq<u8>) -> bool {
    &&& frame.len() >= 42 + message.len()
    &&& frame.subrange(0, 6) == seq![255u8, 255, 255, 255, 255, 255]
    &&& frame.subrange(6, 12) == mac
    &&& frame[12] == 8 && frame[13] == 0
    &&& frame[14] == 0x45 && frame[23] == 17
    &&& frame.subrange(26, 34) == seq![0u8, 0, 0, 0, 255, 255, 255, 255]
    &&& frame.subrange(34, 38) == seq![0u8, 68, 0, 67]
    &&& frame.subrange(42, 42 + message.len() as int) == message
}

/// Every DHCP message goes out as a broadcast that carries it whole.
pub proof fn dhcp_goes_out_as_a_broadcast(host_mac: MacAddr, message: Seq<u8>)
    requires
        28 + message.len() <= 65535,
    ensures
        broadcasts(dhcp_frame(host_mac@, message), host_mac@, message),
{
    let d = UdpView {
        src_ip: Ipv4Addr { bits: 0 },
        dst_ip: Ipv4Addr { bits: 0xFFFF_FFFF },
        src_port: 68,
        dst_port: 67,
        payload: message,
    };
    packets_are_laid_out(d, 0);
    frames_are_laid_out(MacAddr::broadcast(), host_mac, 0x0800, udp_packet(d, 0));
    lemma_broadcast(dhcp_frame(host_mac@, message), udp_packet(d, 0), host_mac@, message);
}

/// A link starts with sixteen reads and a DISCOVER of its own, which it repeats after a
/// second if nothing comes.
pub proof fn links_start_by_discovering(
    host_mac: MacAddr,
    transfer_size: usize,
    arp: ArpState,
    now: Instant,
)
    requires
        now.nanos + 1_000_000_000 <= u64::MAX,
    ensures
        ({
            let (acts, st) = started(host_mac@, transfer_size, arp, now);
            &&& acts.len() == 17
            &&& forall|i: int| 0 <= i < 16 ==> acts[i] == ActionView::Submit(transfer_size)
            &&& acts[16] matches ActionView::Send(f) && broadcasts(
                f,
                host_mac@,
                st.dhcp.pending()->0,
            )
            &&& is_client_message(
                st.dhcp.pending()->0,
                1,
                host_mac@,
                st.dhcp.xid,
                Ipv4Addr { bits: 0 },
                None,
                None,
            )
            &&& st.dhcp.state == State::Selecting
            &&& st.host_mac == host_mac@
            &&& st.transfer_size == transfer_size
            &&& st.timer.next.nanos == now.nanos + 1_000_000_000
            &&& st.arp == arp
        }),
{
    let (acts, st) = started(host_mac@, transfer_size, arp, now);
    let fresh = ClientState {
        mac: host_mac@,
        xid: be32_at(host_mac@, 2),
        state: State::Init,
        offered: None,
        server_id: None,
        lease: None,
    };
    discover_is_on_the_wire(fresh);
    dhcp_goes_out_as_a_broadcast(host_mac, fresh.discovering().discover_message());
}

/// A DHCP reply is read by the client and never reaches the tunnel. An offer is answered
/// with a broadcast of the client's REQUEST; a lease makes its address ours, teaches us
/// the MAC that it came from, and is reported.
pub proof fn dhcp_replies_are_heard(st: RxState, frame: Seq<u8>, host_mac: MacAddr, now: Instant)
    requires
        st.host_mac == host_mac@,
        st.dhcp.mac == host_mac@,
        is_for(st.host_mac, frame),
        frame[12] == 8,
        frame[13] == 0,
        is_from_a_dhcp_server(frame.skip(14)),
    ensures
        ({
            let d = udp_in(frame.skip(14))->Ok_0;
            let (heard, client) = st.dhcp.hear(d.payload);
            let (acts, after) = st.on_frame(frame, now);
            &&& after.dhcp == client
            &&& match heard {
                Ok(EventView::Send(message)) => {
                    &&& acts.len() == 1
                    &&& message.len() == 300
                    &&& acts[0] matches ActionView::Send(f) && broadcasts(f, host_mac@, message)
                    &&& after.arp == st.arp
                },
                Ok(EventView::Bound(lease)) => {
                    &&& acts == seq![ActionView::Bound(lease)]
                    &&& after.arp.host_ip == lease.ip
                    &&& after.arp.known(d.src_ip, now) == Some(frame.subrange(6, 12))
                    &&& now.nanos + lease.renewal_time.nanos <= u64::MAX ==> after.timer.next.nanos
                        == now.nanos + lease.renewal_time.nanos
                    &&& after.timer.renew_at is Some
                },
                Ok(EventView::Nak) => {
                    &&& acts.len() == 0
                    &&& after.timer.next == now
                    &&& after.timer.renew_at is None
                    &&& after.arp == st.arp
                },
                _ => acts.len() == 0 && after.arp == st.arp && after.timer == st.timer,
            }
        }),
{
    let d = udp_in(frame.skip(14))->Ok_0;
    assert(frame.subrange(0, 6)[0] == frame[0]);
    if let Ok(EventView::Send(message)) = st.dhcp.hear(d.payload).0 {
        request_is_on_the_wire(st.dhcp, d.payload);
        dhcp_goes_out_as_a_broadcast(host_mac, message);
    }
}

/// An offer that comes in over the link and echoes our transaction and MAC is taken up.
pub proof fn offers_over_the_link_are_taken_up(
    st: RxState,
    frame: Seq<u8>,
    host_mac: MacAddr,
    now: Instant,
)
    requires
        st.host_mac == host_mac@,
        st.dhcp.mac == host_mac@,
        st.dhcp.state == State::Selecting,
        is_for(st.host_mac, frame),
        frame[12] == 8,
        frame[13] == 0,
        is_from_a_dhcp_server(frame.skip(14)),
        ({
            let offer = udp_in(frame.skip(14))->Ok_0.payload;
            &&& reply_in(offer) is Ok
            &&& type_option(offer) == 2
            &&& be32_at(offer, 4) == st.dhcp.xid
            &&& offer.subrange(28, 34) == host_mac@
        }),
    ensures
        st.on_frame(frame, now).0.len() == 1,
        st.on_frame(frame, now).0[0] is Send,
        st.on_frame(frame, now).1.dhcp.state == State::Requesting,
{
    dhcp_replies_are_heard(st, frame, host_mac, now);
}

/// Only the loss of the device ends a link. It is reported, with the reason; any other
/// error costs one read, which is replaced.
pub proof fn only_a_lost_device_ends_the_link(st: RxState, event: RxEvent, now: Instant)
    ensures
        st.on_event(event, now).2 <==> (event matches RxEvent::Error(e) && (e is Disconnected || e
            is NotFound)),
        event matches RxEvent::Error(e) ==> ({
            let acts = st.on_event(event, now).0;
            &&& acts.len() >= 1
            &&& acts[0] == ActionView::Submit(st.transfer_size)
            &&& st.on_event(event, now).2 ==> acts.len() == 2 && acts[1] == ActionView::Failed(
                e.text(),
            )
        }),
{
}

proof fn lemma_broadcast(f: Seq<u8>, p: Seq<u8>, mac: Seq<u8>, message: Seq<u8>)
    requires
        p.len() == 28 + message.len(),
        f.len() >= 14 + p.len(),
        f.subrange(0, 6) == MacAddr::broadcast()@,
        f.subrange(6, 12) == mac,
        256 * f[12] + f[13] == 0x0800,
        f.subrange(14, 14 + p.len() as int) == p,
        p[0] == 0x45,
        p[9] == 17,
        p.subrange(12, 16) == (Ipv4Addr { bits: 0 }).bytes(),
        p.subrange(16, 20) == (Ipv4Addr { bits: 0xFFFF_FFFF }).bytes(),
        be16_at(p, 20) == 68,
        be16_at(p, 22) == 67,
        p.skip(28) == message,
    ensures
        broadcasts(f, mac, message),
{
    let src = (Ipv4Addr { bits: 0 }).bytes();
    let dst = (Ipv4Addr { bits: 0xFFFF_FFFF }).bytes();
    assert(MacAddr::broadcast()@ =~= seq![255u8, 255, 255, 255, 255, 255]);
    assert(src =~= seq![0u8, 0, 0, 0]);
    assert(dst =~= seq![255u8, 255, 255, 255]);
    let got = f.subrange(14, 14 + p.len() as int);
    assert(forall|i: int| 0 <= i < p.len() ==> f[14 + i] == #[trigger] got[i]);
    assert(f[14] == got[0] && f[23] == got[9]);
    assert(f.subrange(26, 34) =~= got.subrange(12, 16) + got.subrange(16, 20));
    assert(src + dst =~= seq![0u8, 0, 0, 0, 255, 255, 255, 255]);
    assert(f[34] == got[20] && f[35] == got[21] && f[36] == got[22] && f[37] == got[23]);
    assert(f.subrange(34, 38) =~= seq![0u8, 68, 0, 67]);
    assert(f.subrange(42, 42 + message.len() as int) =~= got.skip(28));
}

proof fn lemma_timer_delivers_nothing(st: RxState, now: Instant)
    ensures
        delivered(st.on_timer(now).0) == Seq::<Seq<u8>>::empty(),
{
    let timed = st.on_timer(now).0;
    if timed.len() > 0 {
        assert(timed.drop_first() =~= seq![]);
        assert(delivered(timed.drop_first()) =~= seq![]);
    }
    assert(delivered(timed) =~= seq![]);
}

proof fn lemma_only_traffic_is_delivered(
    size: usize,
    acts: Seq<ActionView>,
    timed: Seq<ActionView>,
)
    requires
        delivered(timed) == Seq::<Seq<u8>>::empty(),
    ensures
        delivered(seq![ActionView::Submit(size)] + acts + timed) == delivered(acts),
{
    let submit = seq![ActionView::Submit(size)];
    lemma_delivered_concat(submit + acts, timed);
    lemma_delivered_concat(submit, acts);
    assert(submit.drop_first() =~= seq![]);
    assert(delivered(submit.drop_first()) =~= seq![]);
    assert(delivered(submit) =~= seq![]);
    assert(delivered(submit) + delivered(acts) + delivered(timed) =~= delivered(acts));
}

proof fn lemma_frame_is_delivered(st: RxState, frame: Seq<u8>, now: Instant)
    requires
        is_tunnel_traffic(st.host_mac, frame),
    ensures
        st.on_frame(frame, now) == (seq![ActionView::Deliver(frame.skip(14))], st),
{
    assert(frame.subrange(0, 6)[0] == frame[0]);
}

/// One frame is delivered exactly if it is for the tunnel, and no frame changes the MAC.
proof fn lemma_delivered_of(st: RxState, frame: Seq<u8>, now: Instant)
    ensures
        delivered(st.on_frame(frame, now).0) == (if is_tunnel_traffic(st.host_mac, frame) {
            seq![frame.skip(14)]
        } else {
            seq![]
        }),
        st.on_frame(frame, now).1.host_mac == st.host_mac,
{
    let acts = st.on_frame(frame, now).0;
    if frame.len() >= 14 {
        assert(frame.subrange(0, 6)[0] == frame[0]);
    }
    if acts.len() > 0 {
        assert(acts.drop_first() =~= seq![]);
        assert(delivered(acts.drop_first()) =~= seq![]);
    }
    if is_tunnel_traffic(st.host_mac, frame) {
        assert(delivered(acts) =~= seq![frame.skip(14)]);
    } else {
        assert(delivered(acts) =~= seq![]);
    }
}

/// What a transfer delivers is its traffic for the tunnel.
pub proof fn lemma_delivered_from(st: RxState, items: Seq<RndisResult<Seq<u8>>>, now: Instant)
    ensures
        delivered(st.on_items(items, now).0) == tunnel_traffic(st.host_mac, items),
    decreases items.len(),
{
    if items.len() > 0 && items[0] is Ok {
        let (first, next) = st.on_frame(items[0]->Ok_0, now);
        let (rest, _) = next.on_items(items.skip(1), now);
        assert(items.skip(1) =~= items.drop_first());
        lemma_delivered_of(st, items[0]->Ok_0, now);
        lemma_delivered_from(next, items.skip(1), now);
        lemma_delivered_concat(first, rest);
    }
}

/// What two lists of actions deliver, one behind the other.
pub proof fn lemma_delivered_concat(a: Seq<ActionView>, b: Seq<ActionView>)
    ensures
        delivered(a + b) == delivered(a) + delivered(b),
    decreases a.len(),
{
    if a.len() == 0 {
        assert(a + b =~= b);
        assert(delivered(a) + delivered(b) =~= delivered(b));
    } else {
        lemma_delivered_concat(a.drop_first(), b);
        assert((a + b).drop_first() =~= a.drop_first() + b);
        assert(delivered(a + b) =~= delivered(a) + delivered(b));
    }
}

/// A frame that is too short, that goes to someone else, or that is neither ARP nor IPv4
/// does nothing at all.
pub proof fn other_frames_do_nothing(st: RxState, frame: Seq<u8>, now: Instant)
    requires
        !is_for(st.host_mac, frame) || !(frame[12] == 8 && (frame[13] == 0 || frame[13] == 6)),
    ensures
        st.on_frame(frame, now) == (Seq::<ActionView>::empty(), st),
{
    if frame.len() >= 14 {
        assert(frame.subrange(0, 6)[0] == frame[0]);
    }
}

/// An ARP frame for us changes what is known of neighbours as its payload says, and
/// nothing else; an answer to it is all that is sent.
pub proof fn arp_frames_are_heard(st: RxState, frame: Seq<u8>, now: Instant)
    requires
        is_for(st.host_mac, frame),
        frame[12] == 8,
        frame[13] == 6,
    ensures
        ({
            let (acts, after) = st.on_frame(frame, now);
            let (reply, arp) = st.arp.hear(frame.skip(14), now);
            &&& after == (RxState { arp, ..st })
            &&& match reply {
                Ok(Some(answer)) => acts == seq![ActionView::Send(answer)],
                _ => acts.len() == 0,
            }
        }),
{
    assert(frame.subrange(0, 6)[0] == frame[0]);
}

/// A quiet tick sends what the DHCP timer calls for, as a broadcast of that very message,
/// and nothing else; the timer and the client go on as the timer says, and neighbours
/// stay as they were.
pub proof fn ticks_send_what_is_due(st: RxState, host_mac: MacAddr, now: Instant)
    requires
        st.host_mac == host_mac@,
    ensures
        ({
            let (message, timer, client) = st.timer.expired(now, st.dhcp);
            let (acts, after, over) = st.on_event(RxEvent::Quiet, now);
            &&& after == (RxState { timer, dhcp: client, ..st })
            &&& !over
            &&& message is None ==> acts.len() == 0
            &&& message is Some && 28 + message->0.len() <= 65535 ==> {
                &&& acts.len() == 1
                &&& acts[0] matches ActionView::Send(f)
                &&& broadcasts(f, host_mac@, message->0)
            }
        }),
{
    let (message, _, _) = st.timer.expired(now, st.dhcp);
    if let Some(m) = message {
        if 28 + m.len() <= 65535 {
            dhcp_goes_out_as_a_broadcast(host_mac, m);
        }
    }
}

/// Behind a transfer, and behind an error that does not end the link, comes what a quiet
/// tick would bring: a read is replaced, the frames are taken in, then the timer is
/// looked at.
pub proof fn the_timer_is_looked_at_every_time(
    st: RxState,
    data: Vec<u8>,
    e: UsbError,
    now: Instant,
)
    ensures
        ({
            let (acts, heard) = st.on_items(frames(data@), now);
            let (due, after, _) = heard.on_event(RxEvent::Quiet, now);
            st.on_event(RxEvent::Data(data), now) == (
                seq![ActionView::Submit(st.transfer_size)] + acts + due,
                after,
                false,
            )
        }),
        !(e is Disconnected) && !(e is NotFound) ==> ({
            let (due, after, _) = st.on_event(RxEvent::Quiet, now);
            st.on_event(RxEvent::Error(e), now) == (
                seq![ActionView::Submit(st.transfer_size)] + due,
                after,
                false,
            )
        }),
{
}

/// An action shows all it holds.
pub proof fn actions_show_all_they_hold(len: usize, bytes: Vec<u8>, lease: Box<Lease>, why: String)
    ensures
        RxAction::Submit(len)@ == ActionView::Submit(len),
        RxAction::Send(bytes)@ == ActionView::Send(bytes@),
        RxAction::Deliver(bytes)@ == ActionView::Deliver(bytes@),
        RxAction::Report(LinkEvent::Bound(lease))@ == ActionView::Bound((*lease)@),
        RxAction::Report(LinkEvent::Failed(why))@ == ActionView::Failed(why@),
{
}

/// A client that was refused starts over on the next look at the timer: with a DISCOVER
/// of a new transaction, for everyone.
pub proof fn refused_clients_start_over(
    st: RxState,
    frame: Seq<u8>,
    host_mac: MacAddr,
    now: Instant,
    later: Instant,
)
    requires
        st.host_mac == host_mac@,
        st.dhcp.mac == host_mac@,
        is_for(st.host_mac, frame),
        frame[12] == 8,
        frame[13] == 0,
        is_from_a_dhcp_server(frame.skip(14)),
        st.dhcp.hear(udp_in(frame.skip(14))->Ok_0.payload).0 == Ok::<_, NetError>(EventView::Nak),
        now.nanos <= later.nanos,
    ensures
        ({
            let refused = st.on_frame(frame, now).1;
            let (acts, after, _) = refused.on_event(RxEvent::Quiet, later);
            &&& refused.dhcp.lease is None
            &&& acts.len() == 1
            &&& acts[0] matches ActionView::Send(f)
            &&& broadcasts(f, host_mac@, after.dhcp.pending()->0)
            &&& is_client_message(
                after.dhcp.pending()->0,
                1,
                host_mac@,
                after.dhcp.xid,
                Ipv4Addr { bits: 0 },
                None,
                None,
            )
            &&& after.dhcp.state == State::Selecting
            &&& after.dhcp.xid != st.dhcp.xid
        }),
{
    dhcp_replies_are_heard(st, frame, host_mac, now);
    let refused = st.on_frame(frame, now).1;
    lemma_frame_keeps_the_mac(st, frame, now);
    discover_is_on_the_wire(refused.dhcp);
    discovery_uses_a_fresh_id(refused.dhcp);
    ticks_send_what_is_due(refused, host_mac, later);
}

proof fn lemma_frame_keeps_the_mac(st: RxState, frame: Seq<u8>, now: Instant)
    ensures
        st.on_frame(frame, now).1.host_mac == st.host_mac,
{
}

} // verus!
