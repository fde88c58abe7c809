use std::collections::VecDeque;
use std::sync::{Arc, Mutex};

use muta::addr::Ipv4Addr;
use muta::link::rx::wrap_dhcp;
use muta::link::tx::{make_room, reap, Sent, TxEvent, TxNext};
use muta::link::{
    DhcpTimer, IpSink, LinkEvent, Rx, RxAction, RxEvent, SwitchableSink, Tx, TxLimits,
};
use muta::netstack::arp::{self, ArpPacket, OP_REPLY, OP_REQUEST};
use muta::netstack::dhcp::{
    DhcpClient, State, ACK, BOOTP_LEN, CLIENT_PORT, NAK, OFFER, OPT_END, OPT_MESSAGE_TYPE,
    OPT_SERVER_ID, OP_REPLY as BOOTREPLY, SERVER_PORT,
};
use muta::netstack::ethernet::{self, ETHERTYPE_ARP, ETHERTYPE_IPV4};
use muta::netstack::ipv4::{build_udp, parse_udp, UdpDatagram};
use muta::netstack::{Arp, MacAddr};
use muta::rndis::control::Session;
use muta::rndis::packet::{decode, encode};
use muta::time::{Duration, Instant};
use muta::tunnel::outbound;
use muta::usb::queue::{OutQueue, StopFlag};
use muta::usb::{OutEndpoint, Result, UsbError};

const HOST: MacAddr = MacAddr([0x02, 0, 0x11, 0x22, 0x33, 0x44]);
const PHONE: MacAddr = MacAddr([0x02, 0, 0, 0, 0, 0x99]);

fn gateway() -> Ipv4Addr {
    Ipv4Addr::new(192, 168, 42, 129)
}

fn ours() -> Ipv4Addr {
    Ipv4Addr::new(192, 168, 42, 130)
}

fn at(millis: u64) -> Instant {
    Instant {
        nanos: millis * 1_000_000,
    }
}

fn frames_in(data: &[u8]) -> Vec<Vec<u8>> {
    let mut frames = decode(data);
    let mut out = Vec::new();
    while let Some(f) = frames.next() {
        out.push(f.unwrap().to_vec());
    }
    out
}

fn limits(max_transfer_size: usize, max_packets: usize, alignment: usize) -> TxLimits {
    TxLimits {
        max_transfer_size,
        max_packets,
        alignment,
    }
}

/// Offer `frames` one after another; the transfers that went out.
fn drain(tx: &mut Tx, frames: &[Vec<u8>]) -> Vec<Vec<u8>> {
    let ep = Endpoint::default();
    let mut queue = OutQueue::new(ep.clone());
    for f in frames {
        *ep.pending.lock().unwrap() = 0;
        tx.step(TxEvent::Frame(f.clone()), &mut queue, &Flag(false));
    }
    *ep.pending.lock().unwrap() = 0;
    tx.step(TxEvent::Drained, &mut queue, &Flag(false));
    let sent = ep.sent.lock().unwrap().clone();
    sent
}

fn counts(transfers: &[Vec<u8>]) -> Vec<usize> {
    transfers.iter().map(|t| frames_in(t).len()).collect()
}

#[test]
fn frames_are_packed_up_to_the_device_limits() {
    let frames: Vec<Vec<u8>> = (0..5u8).map(|i| vec![i; 60]).collect();

    let one_each = drain(&mut Tx::new(limits(16384, 1, 1), 512), &frames);
    assert_eq!(one_each.len(), 5);

    let three = drain(&mut Tx::new(limits(16384, 3, 4), 512), &frames);
    assert_eq!(counts(&three), [3, 2]);

    // Two messages of 104 bytes fit 250 bytes.
    let small = drain(&mut Tx::new(limits(250, 8, 1), 512), &frames);
    assert_eq!(counts(&small), [2, 2, 1]);

    for transfers in [one_each, three, small] {
        let got: Vec<Vec<u8>> = transfers.iter().flat_map(|t| frames_in(t)).collect();
        assert_eq!(got, frames);
    }
}

#[test]
fn messages_in_a_batch_are_aligned() {
    let mut tx = Tx::new(limits(16384, 8, 8), 512);
    let transfer = drain(&mut tx, &[vec![7; 61], vec![8; 60]]).remove(0);
    // 44 + 61 bytes, filled up to 112; the length field counts the filling.
    assert_eq!(&transfer[4..8], &112u32.to_le_bytes());
    assert_eq!(&transfer[112..116], &1u32.to_le_bytes());
}

#[test]
fn a_transfer_of_whole_packets_gets_one_byte_more() {
    let mut tx = Tx::new(limits(16384, 8, 1), 64);
    // 44 + 84 is two packets of 64.
    let transfer = drain(&mut tx, &[vec![1; 84]]).remove(0);
    assert_eq!(transfer.len(), 129);
    assert_eq!(frames_in(&transfer), [vec![1; 84]]);
    let transfer = drain(&mut tx, &[vec![1; 83]]).remove(0);
    assert_eq!(transfer.len(), 127);
}

#[test]
fn no_transfer_exceeds_the_advertised_size() {
    // Two messages of 512 bytes fill 1024 exactly: no byte more to end the transfer.
    let frames = [vec![1; 468], vec![2; 468]];
    let transfers = drain(&mut Tx::new(limits(1024, 8, 1), 512), &frames);
    assert_eq!(transfers[0].len(), 1024);
    assert_eq!(frames_in(&transfers[0]), frames);
    let transfers = drain(&mut Tx::new(limits(1025, 8, 1), 512), &frames);
    assert_eq!(transfers[0].len(), 1025);
    assert_eq!(frames_in(&transfers[0]), frames);

    // So does one of 980.
    let transfers = drain(&mut Tx::new(limits(1024, 8, 1), 512), &[vec![3; 980]]);
    assert_eq!(transfers[0].len(), 1024);
    assert!(drain(&mut Tx::new(limits(1024, 8, 1), 512), &[vec![3; 981]]).is_empty());
}

#[test]
fn the_last_filling_is_left_off_where_it_does_not_fit() {
    let transfers = drain(&mut Tx::new(limits(45, 8, 8), 512), &[vec![1]]);
    assert_eq!(transfers[0].len(), 45);
    assert_eq!(&transfers[0][4..8], &45u32.to_le_bytes());
    assert_eq!(frames_in(&transfers[0]), [vec![1]]);
    let transfers = drain(&mut Tx::new(limits(48, 8, 8), 512), &[vec![1]]);
    assert_eq!(transfers[0].len(), 48);

    // Nothing follows a message whose filling is left off.
    let frames = [vec![1; 1], vec![]];
    let transfers = drain(&mut Tx::new(limits(100, 8, 128), 512), &frames);
    assert_eq!(transfers[0].len(), 45);
    assert_eq!(counts(&transfers), [1, 1]);
}

#[test]
fn a_frame_over_the_limit_is_dropped() {
    let mut queue = OutQueue::new(Endpoint::default());
    let mut tx = Tx::new(limits(200, 8, 1), 512);
    tx.step(TxEvent::Frame(vec![1; 60]), &mut queue, &Flag(false));
    let step = tx.step(TxEvent::Frame(vec![2; 157]), &mut queue, &Flag(false));
    assert!(step.dropped);
    assert_eq!(step.next, TxNext::Receive);
    // What waited goes out first.
    assert_eq!(
        step.sent,
        Some(Sent {
            packets: 1,
            bytes: 104
        })
    );
    let step = tx.step(TxEvent::Drained, &mut queue, &Flag(false));
    assert!(step.sent.is_none());
    let step = tx.step(TxEvent::Frame(vec![2; 156]), &mut queue, &Flag(false));
    assert!(!step.dropped);
}

#[test]
fn the_transmit_thread_is_told_where_to_look() {
    let ep = Endpoint::default();
    let mut queue = OutQueue::new(ep.clone());
    let mut tx = Tx::new(limits(16384, 8, 1), 512);
    let step = tx.step(TxEvent::Frame(vec![0; 60]), &mut queue, &Flag(false));
    assert_eq!(step.next, TxNext::Poll);
    let step = tx.step(TxEvent::Drained, &mut queue, &Flag(false));
    assert_eq!(step.next, TxNext::Receive);
    assert_eq!(ep.pending(), 1);
    *ep.outcomes.lock().unwrap() = VecDeque::from([Some(Ok(()))]);
    let step = tx.step(TxEvent::Quiet, &mut queue, &Flag(false));
    assert_eq!(step.next, TxNext::Receive);
    // What had finished was collected.
    assert_eq!(ep.pending(), 0);
    let step = tx.step(TxEvent::Closed, &mut queue, &Flag(false));
    assert_eq!(step.next, TxNext::Finish);
}

#[test]
fn limits_come_from_the_session() {
    let session = Session {
        host_mac: [0; 6],
        device_max_transfer_size: 2048,
        max_packets_per_transfer: 3,
        packet_alignment: 4,
    };
    assert_eq!(TxLimits::of_session(&session), limits(2048, 3, 4));
}

#[derive(Clone, Default)]
struct Endpoint {
    pending: Arc<Mutex<usize>>,
    sent: Arc<Mutex<Vec<Vec<u8>>>>,
    outcomes: Arc<Mutex<VecDeque<Option<Result<()>>>>>,
}

impl OutEndpoint for Endpoint {
    fn max_packet_size(&self) -> usize {
        512
    }

    fn pending(&self) -> usize {
        *self.pending.lock().unwrap()
    }

    fn submit(&mut self, data: Vec<u8>) {
        *self.pending.lock().unwrap() += 1;
        self.sent.lock().unwrap().push(data);
    }

    fn wait(&mut self, _timeout: Duration) -> Option<Result<()>> {
        let outcome = self.outcomes.lock().unwrap().pop_front().unwrap_or(None);
        if outcome.is_some() {
            *self.pending.lock().unwrap() -= 1;
        }
        outcome
    }
}

struct Flag(bool);

impl StopFlag for Flag {
    fn is_set(&self) -> bool {
        self.0
    }
}

#[test]
fn finished_transfers_are_collected_until_one_fails() {
    let ep = Endpoint::default();
    *ep.pending.lock().unwrap() = 4;
    *ep.outcomes.lock().unwrap() =
        VecDeque::from([Some(Ok(())), Some(Err(UsbError::Stall)), Some(Ok(()))]);
    let mut queue = OutQueue::new(ep.clone());
    reap(&mut queue, Duration::from_millis(0));
    assert_eq!(ep.pending(), 2);
    reap(&mut queue, Duration::from_millis(0));
    assert_eq!(ep.pending(), 1);
}

#[test]
fn a_full_endpoint_is_waited_for_unless_we_stop() {
    let ep = Endpoint::default();
    *ep.pending.lock().unwrap() = 8;
    let mut queue = OutQueue::new(ep.clone());
    assert!(!make_room(&mut queue, &Flag(true)));
    let mut tx = Tx::new(limits(16384, 1, 1), 512);
    tx.step(TxEvent::Frame(vec![1; 60]), &mut queue, &Flag(false));
    assert!(tx.flush(&mut queue, &Flag(true)).is_none());
    assert!(ep.sent.lock().unwrap().is_empty());

    // What could not go out was kept.
    *ep.outcomes.lock().unwrap() = VecDeque::from([None, Some(Ok(()))]);
    assert!(tx.flush(&mut queue, &Flag(false)).is_some());
    assert_eq!(frames_in(&ep.sent.lock().unwrap()[0]), [vec![1; 60]]);
    assert!(tx.flush(&mut queue, &Flag(false)).is_none());
}

#[test]
fn a_refused_transfer_is_tried_again_behind_a_dropped_frame() {
    let ep = Endpoint::default();
    let mut queue = OutQueue::new(ep.clone());
    let mut tx = Tx::new(limits(16384, 1, 1), 512);
    tx.step(TxEvent::Frame(vec![1; 60]), &mut queue, &Flag(true));
    *ep.pending.lock().unwrap() = 8;
    *ep.outcomes.lock().unwrap() = VecDeque::from([None, Some(Ok(()))]);
    let step = tx.step(TxEvent::Frame(vec![2; 60]), &mut queue, &Flag(true));
    assert!(step.dropped);
    assert_eq!(step.sent.map(|s| s.packets), Some(1));
    assert_eq!(frames_in(&ep.sent.lock().unwrap()[0]), [vec![1; 60]]);
}

#[test]
fn retransmissions_back_off_to_sixteen_seconds() {
    let mut client = DhcpClient::new(HOST, 1);
    client.discover();
    let mut timer = DhcpTimer::new(at(0));
    let mut now = at(0);
    assert!(timer.due(&mut client, at(999)).is_none());
    let mut gaps = Vec::new();
    for _ in 0..6 {
        now = timer.next;
        assert!(timer.due(&mut client, now).is_some());
        gaps.push(timer.next.duration_since(now).as_secs());
    }
    assert_eq!(gaps, [2, 4, 8, 16, 16, 16]);
    timer.restart(now);
    assert_eq!(timer.next, now);
    assert_eq!(timer.backoff, Duration::from_secs(1));
}

fn dhcp_reply(xid: [u8; 4], kind: u8, ip: Ipv4Addr) -> Vec<u8> {
    let mut m = vec![BOOTREPLY, 1, 6, 0];
    m.extend_from_slice(&xid);
    m.extend_from_slice(&[0; 8]);
    m.extend_from_slice(&ip.octets());
    m.extend_from_slice(&[0; 8]);
    m.extend_from_slice(HOST.as_bytes());
    m.resize(BOOTP_LEN, 0);
    m.extend_from_slice(&[0x63, 0x82, 0x53, 0x63, OPT_MESSAGE_TYPE, 1, kind]);
    m.extend_from_slice(&[OPT_SERVER_ID, 4]);
    m.extend_from_slice(&gateway().octets());
    m.push(OPT_END);
    m
}

fn from_phone(dst: MacAddr, payload: &[u8], src_port: u16, dst_port: u16) -> Vec<u8> {
    let ip = build_udp(
        &UdpDatagram {
            src_ip: gateway(),
            dst_ip: ours(),
            src_port,
            dst_port,
            payload,
        },
        7,
    );
    encode(&ethernet::build(dst, PHONE, ETHERTYPE_IPV4, &ip))
}

fn dhcp_in(frame: &[u8]) -> Vec<u8> {
    let eth = ethernet::parse(frame).unwrap();
    assert_eq!(eth.dst, MacAddr::broadcast());
    assert_eq!(eth.src, HOST);
    let d = parse_udp(eth.payload).unwrap();
    assert_eq!((d.src_port, d.dst_port), (CLIENT_PORT, SERVER_PORT));
    assert_eq!(d.src_ip, Ipv4Addr::unspecified());
    assert_eq!(d.dst_ip, Ipv4Addr::broadcast());
    d.payload.to_vec()
}

fn xid_of(message: &[u8]) -> [u8; 4] {
    [message[4], message[5], message[6], message[7]]
}

/// A link that has just been granted a lease at this moment.
fn bound(now: Instant) -> (Rx, Arp) {
    let mut arp = Arp::new(HOST, Ipv4Addr::unspecified());
    let (mut rx, actions) = Rx::start(HOST, 16384, at(0));
    assert_eq!(actions.len(), 17);
    assert!(actions[..16]
        .iter()
        .all(|a| matches!(a, RxAction::Submit(16384))));
    let RxAction::Send(discover) = &actions[16] else {
        panic!("expected a DISCOVER");
    };
    let xid = xid_of(&dhcp_in(discover));

    let offer = from_phone(HOST, &dhcp_reply(xid, OFFER, ours()), SERVER_PORT, CLIENT_PORT);
    let (actions, over) = rx.step(&mut arp, RxEvent::Data(offer), at(10));
    assert!(!over);
    assert!(matches!(actions[0], RxAction::Submit(16384)));
    assert!(matches!(&actions[1], RxAction::Send(f) if xid_of(&dhcp_in(f)) == xid));

    let ack = from_phone(HOST, &dhcp_reply(xid, ACK, ours()), SERVER_PORT, CLIENT_PORT);
    let (actions, _) = rx.step(&mut arp, RxEvent::Data(ack), now);
    assert!(matches!(&actions[1], RxAction::Report(LinkEvent::Bound(l)) if l.ip == ours()));
    assert_eq!(actions.len(), 2);
    (rx, arp)
}

#[test]
fn a_lease_comes_out_of_the_transfers() {
    let (_, arp) = bound(at(20));
    assert_eq!(arp.lookup_at(gateway(), at(20)), Some(PHONE));
}

#[test]
fn packets_reach_the_tunnel_as_they_came() {
    let (mut rx, mut arp) = bound(at(20));
    let data = from_phone(HOST, b"hello", 53, 5353);
    let frames = frames_in(&data);
    let packet = ethernet::parse(&frames[0]).unwrap().payload.to_vec();
    let (actions, _) = rx.step(&mut arp, RxEvent::Data(data), at(30));
    assert!(matches!(&actions[1], RxAction::Deliver(p) if *p == packet));
    assert_eq!(actions.len(), 2);
}

#[test]
fn other_peoples_frames_are_left_alone() {
    let (mut rx, mut arp) = bound(at(20));
    let data = from_phone(MacAddr([2, 9, 9, 9, 9, 9]), b"hello", 53, 5353);
    let (actions, _) = rx.step(&mut arp, RxEvent::Data(data), at(30));
    assert_eq!(actions.len(), 1);
    let v6 = encode(&ethernet::build(HOST, PHONE, 0x86DD, &[6; 40]));
    let (actions, _) = rx.step(&mut arp, RxEvent::Data(v6), at(30));
    assert_eq!(actions.len(), 1);
}

#[test]
fn a_request_for_our_address_is_answered_over_the_link() {
    let (mut rx, mut arp) = bound(at(20));
    let request = arp::build(&ArpPacket {
        op: OP_REQUEST,
        sender_mac: PHONE,
        sender_ip: gateway(),
        target_mac: MacAddr::zero(),
        target_ip: ours(),
    });
    let data = encode(&ethernet::build(
        MacAddr::broadcast(),
        PHONE,
        ETHERTYPE_ARP,
        &request,
    ));
    let (actions, _) = rx.step(&mut arp, RxEvent::Data(data), at(30));
    let RxAction::Send(frame) = &actions[1] else {
        panic!("expected a reply");
    };
    let eth = ethernet::parse(frame).unwrap();
    let reply = arp::parse(eth.payload).unwrap();
    assert_eq!((reply.op, reply.sender_mac, reply.sender_ip), (OP_REPLY, HOST, ours()));
}

#[test]
fn a_malformed_message_ends_its_transfer_only() {
    let (mut rx, mut arp) = bound(at(20));
    let mut data = from_phone(HOST, b"one", 53, 5353);
    let second = data.len();
    data.extend(from_phone(HOST, b"two", 53, 5353));
    data[second] = 9;
    data.extend(from_phone(HOST, b"three", 53, 5353));
    let (actions, over) = rx.step(&mut arp, RxEvent::Data(data), at(30));
    assert!(!over);
    assert_eq!(
        actions
            .iter()
            .filter(|a| matches!(a, RxAction::Deliver(_)))
            .count(),
        1
    );
}

#[test]
fn a_refusal_starts_over_at_once() {
    let (mut rx, mut arp) = bound(at(20));
    // Half of the default hour later the lease is renewed.
    let (actions, _) = rx.step(&mut arp, RxEvent::Quiet, at(1_800_019));
    assert!(actions.is_empty());
    let (actions, _) = rx.step(&mut arp, RxEvent::Quiet, at(1_800_020));
    let RxAction::Send(renewal) = &actions[0] else {
        panic!("expected a renewal");
    };
    let xid = xid_of(&dhcp_in(renewal));
    let nak = from_phone(
        HOST,
        &dhcp_reply(xid, NAK, Ipv4Addr::unspecified()),
        SERVER_PORT,
        CLIENT_PORT,
    );
    let (actions, _) = rx.step(&mut arp, RxEvent::Data(nak), at(1_800_030));
    // Discovery begins again with a new transaction.
    let RxAction::Send(discover) = &actions[1] else {
        panic!("expected a DISCOVER");
    };
    assert_ne!(xid_of(&dhcp_in(discover)), xid);
}

#[test]
fn a_lost_device_ends_the_link() {
    let (mut rx, mut arp) = bound(at(20));
    let (actions, over) = rx.step(&mut arp, RxEvent::Error(UsbError::Stall), at(30));
    assert!(!over);
    assert_eq!(actions.len(), 1);
    let (actions, over) = rx.step(&mut arp, RxEvent::Error(UsbError::Disconnected), at(30));
    assert!(over);
    assert!(
        matches!(&actions[1], RxAction::Report(LinkEvent::Failed(e)) if e == "device disconnected")
    );
}

#[test]
fn packets_from_the_tunnel_go_to_the_gateway() {
    let mut arp = Arp::new(HOST, ours());
    let packet = [0x45u8; 40];
    // Nobody knows the gateway yet: it is asked for, once a second.
    let request = outbound(&mut arp, HOST, gateway(), &packet, at(0)).unwrap();
    let eth = ethernet::parse(&request).unwrap();
    assert_eq!((eth.dst, eth.ethertype), (MacAddr::broadcast(), ETHERTYPE_ARP));
    assert!(outbound(&mut arp, HOST, gateway(), &packet, at(999)).is_none());
    assert!(outbound(&mut arp, HOST, gateway(), &packet, at(1000)).is_some());

    arp.insert_at(gateway(), PHONE, at(1000));
    let frame = outbound(&mut arp, HOST, gateway(), &packet, at(2000)).unwrap();
    let eth = ethernet::parse(&frame).unwrap();
    assert_eq!((eth.dst, eth.src, eth.ethertype), (PHONE, HOST, ETHERTYPE_IPV4));
    assert_eq!(&eth.payload[..40], &packet);
}

#[test]
fn what_is_learned_lasts_five_minutes() {
    let mut arp = Arp::new(HOST, ours());
    arp.insert_at(gateway(), PHONE, at(0));
    assert_eq!(arp.lookup_at(gateway(), at(299_999)), Some(PHONE));
    assert_eq!(arp.lookup_at(gateway(), at(300_000)), None);
    assert_eq!(arp.lookup_at(ours(), at(0)), None);
    let clock = arp.clock();
    arp.insert(gateway(), PHONE);
    assert_eq!(arp.lookup_at(gateway(), clock.now()), Some(PHONE));
    arp.set_host_ip(gateway());
    assert!(arp.request_at(ours(), at(0)).is_some());
}

#[test]
fn a_group_address_is_not_learned() {
    let mut arp = Arp::new(HOST, ours());
    let p = arp::build(&ArpPacket {
        op: OP_REPLY,
        sender_mac: MacAddr([0x01, 0, 0x5e, 0, 0, 1]),
        sender_ip: gateway(),
        target_mac: HOST,
        target_ip: ours(),
    });
    assert!(arp.handle_at(&p, at(0)).unwrap().is_none());
    assert_eq!(arp.lookup_at(gateway(), at(0)), None);
}

#[derive(Clone, Default)]
struct Sink(Arc<Mutex<Vec<Vec<u8>>>>);

impl IpSink for Sink {
    fn deliver(&self, packet: &[u8]) {
        self.0.lock().unwrap().push(packet.to_vec());
    }
}

#[test]
fn packets_without_a_tunnel_are_counted_and_dropped() {
    let mut sink = SwitchableSink::new();
    let inner = Sink::default();
    sink.deliver(&[1, 2, 3]);
    sink.attach(inner.clone());
    sink.deliver(&[4, 5]);
    sink.deliver(&[6]);
    sink.detach();
    sink.deliver(&[7]);
    assert_eq!(*inner.0.lock().unwrap(), [vec![4, 5], vec![6]]);
    assert_eq!((sink.delivered, sink.bytes_in, sink.dropped), (2, 3, 2));
}

#[test]
fn a_dhcp_message_is_wrapped_for_everyone() {
    let frame = wrap_dhcp(HOST, &[9; 300]);
    assert_eq!(dhcp_in(&frame), [9; 300]);
    assert_eq!(frame.len(), 14 + 28 + 300);
    let mut client = DhcpClient::new(HOST, 0x1122_3344);
    assert_eq!(client.state(), State::Init);
    client.discover();
    assert_eq!(
        client.xid(),
        0x1122_3344u32
            .wrapping_mul(1_664_525)
            .wrapping_add(1_013_904_223)
    );
}
