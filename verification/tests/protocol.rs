use std::collections::VecDeque;

use muta::addr::Ipv4Addr;
use muta::netstack::arp::{self, ArpPacket, OP_REPLY};
use muta::netstack::dhcp::{
    DhcpClient, Event, State, ACK, BOOTP_LEN, DECLINE, OFFER, OPT_DOMAIN_NAME, OPT_END,
    OPT_INTERFACE_MTU, OPT_LEASE_TIME, OPT_MESSAGE_TYPE, OPT_RENEWAL_TIME, OPT_SERVER_ID,
    OPT_SUBNET_MASK, OP_REPLY as BOOTREPLY,
};
use muta::netstack::error::Error as NetError;
use muta::netstack::ethernet::{self, MacAddr};
use muta::netstack::ipv4::{build_udp, checksum, UdpDatagram};
use muta::rndis::channel::ControlTransport;
use muta::rndis::control::{check_completion, check_init, check_query, usable_mac, Rndis};
use muta::rndis::error::{Error, Result};
use muta::rndis::packet::{append, encode};
use muta::rndis::wire;
use muta::time::Duration;

const MAC: MacAddr = MacAddr([0x02, 0x02, 0x24, 0x8f, 0xb0, 0xcd]);

fn words(ws: &[u32]) -> Vec<u8> {
    ws.iter().flat_map(|w| w.to_le_bytes()).collect()
}

#[test]
fn messages_stand_on_the_wire_as_laid_out() {
    assert_eq!(
        wire::encode_query(5, 0x0101_0101),
        words(&[4, 28, 5, 0x0101_0101, 0, 0, 0])
    );
    assert_eq!(wire::encode_keepalive(6), words(&[8, 12, 6]));
    assert_eq!(wire::encode_halt(7), words(&[3, 12, 7]));
    assert_eq!(
        wire::encode_keepalive_complete(8),
        words(&[0x8000_0008, 16, 8, 0])
    );
    let mut set = words(&[5, 31, 9, 1, 3, 20, 0]);
    set.extend_from_slice(&[1, 2, 3]);
    assert_eq!(wire::encode_set(9, 1, &[1, 2, 3]), set);
    let mut packet = words(&[1, 47, 36, 3, 0, 0, 0, 0, 0, 0, 0]);
    packet.extend_from_slice(&[1, 2, 3]);
    assert_eq!(encode(&[1, 2, 3]), packet);
}

#[test]
fn appended_messages_start_aligned() {
    let mut out = encode(&[9; 4]);
    append(&mut out, &[7; 5], 16);
    assert_eq!(out.len(), 48 + 64);
    assert_eq!(&out[52..56], &64u32.to_le_bytes());
    assert_eq!(&out[48 + 44..48 + 49], &[7; 5]);
    assert!(out[48 + 49..].iter().all(|&b| b == 0));
    let mut plain = Vec::new();
    append(&mut plain, &[7; 5], 0);
    assert_eq!(plain, encode(&[7; 5]));
}

#[test]
fn completions_are_read() {
    assert_eq!(
        wire::decode_completion(&words(&[0, 16, 3, 9])).unwrap(),
        (3, 9)
    );
    assert!(matches!(
        wire::decode_completion(&words(&[0, 16, 3])),
        Err(Error::Truncated)
    ));
    assert_eq!(
        wire::decode_indicate_status(&words(&[7, 12, 0x4001_000B])).unwrap(),
        wire::STATUS_MEDIA_CONNECT
    );
    assert!(matches!(
        wire::decode_init_complete(&words(&[4, 0])),
        Err(Error::UnexpectedMessage(4))
    ));
    assert!(matches!(
        wire::decode_query_complete(&words(&[5])),
        Err(Error::UnexpectedMessage(5))
    ));
    assert!(matches!(wire::u32_at(&[0; 4], 1), Err(Error::Truncated)));
}

#[test]
fn replies_are_weighed() {
    let mut init = words(&[wire::MSG_INIT_C, 52, 1, 0, 1, 0, 0, 0, 1, 0, 0]);
    assert!(matches!(
        check_init(&init),
        Err(Error::Malformed("device advertised a zero transfer size"))
    ));
    init[36] = 1;
    assert_eq!(check_init(&init).unwrap().max_transfer_size, 1);
    assert!(matches!(
        check_query(&words(&[wire::MSG_QUERY_C, 24, 1, 5, 0, 0])),
        Err(Error::Status(5))
    ));
    assert!(matches!(
        check_completion(&words(&[0, 16, 1, 6])),
        Err(Error::Status(6))
    ));
    assert!(check_completion(&words(&[0, 16, 1, 0])).is_ok());
    assert_eq!(usable_mac(&[1, 2, 3, 4, 5, 6, 7]), Some([1, 2, 3, 4, 5, 6]));
    assert_eq!(usable_mac(&[0; 8]), None);
    assert_eq!(usable_mac(&[1; 5]), None);
}

#[test]
fn errors_say_what_happened() {
    assert_eq!(Error::Truncated.message(), "message truncated");
    assert_eq!(
        Error::Malformed("odd").message(),
        "malformed message: odd"
    );
    assert_eq!(
        Error::UnexpectedMessage(0x8000_0002).message(),
        "unexpected message type 0x80000002"
    );
    assert_eq!(
        Error::Status(0xc).message(),
        "device returned status 0x0000000c"
    );
    assert_eq!(Error::NoResponse.message(), "no response from device");
    assert_eq!(
        Error::Transport("gone".into()).message(),
        "transport: gone"
    );
    assert_eq!(NetError::Truncated.message(), "packet truncated");
    assert_eq!(
        NetError::Malformed("odd").message(),
        "malformed packet: odd"
    );
}

/// Answers each command with what it was given.
struct Scripted {
    replies: VecDeque<Result<Vec<u8>>>,
    sent: Vec<Vec<u8>>,
    deaf: bool,
}

impl ControlTransport for Scripted {
    fn send(&mut self, msg: &[u8]) -> Result<()> {
        if self.deaf {
            return Err(Error::Transport("deaf".into()));
        }
        self.sent.push(msg.to_vec());
        Ok(())
    }

    fn receive(&mut self) -> Result<Vec<u8>> {
        self.replies.pop_front().unwrap_or(Ok(Vec::new()))
    }

    fn await_response(&mut self, _timeout: Duration) -> Result<()> {
        Ok(())
    }
}

fn scripted(replies: Vec<Result<Vec<u8>>>) -> Rndis<Scripted> {
    Rndis::new(Scripted {
        replies: replies.into(),
        sent: Vec::new(),
        deaf: false,
    })
}

#[test]
fn stale_and_short_replies_are_skipped() {
    let mut rndis = scripted(vec![
        Ok(vec![1, 2, 3]),
        Ok(words(&[wire::MSG_KEEPALIVE_C, 16, 77, 0])),
        Ok(words(&[0x1234, 12, 0])),
        Ok(words(&[wire::MSG_KEEPALIVE_C, 16, 1, 0])),
    ]);
    rndis.keepalive().unwrap();
    rndis.halt().unwrap();
    let sent = &rndis.transport_mut().sent;
    assert_eq!(*sent, [wire::encode_keepalive(1), wire::encode_halt(2)]);
}

#[test]
fn a_failing_transport_is_reported() {
    let mut rndis = scripted(vec![Err(Error::Transport("pipe".into()))]);
    assert!(matches!(
        rndis.query(1),
        Err(Error::Transport(e)) if e == "pipe"
    ));
    rndis.transport_mut().deaf = true;
    assert!(matches!(
        rndis.set(1, &[]),
        Err(Error::Transport(e)) if e == "deaf"
    ));
    let mut rndis = scripted(vec![Ok(words(&[wire::MSG_SET_C, 12, 1]))]);
    assert!(matches!(rndis.set(1, &[]), Err(Error::Truncated)));
}

#[test]
fn a_device_without_a_mac_is_refused() {
    let zero = |id: u32| {
        let mut r = words(&[wire::MSG_QUERY_C, 30, id, 0, 6, 16]);
        r.extend_from_slice(&[0; 6]);
        Ok(r)
    };
    let init = words(&[wire::MSG_INIT_C, 52, 1, 0, 1, 0, 0, 0, 1, 2048, 0]);
    let mut rndis = scripted(vec![Ok(init), zero(2), zero(3)]);
    assert!(matches!(
        rndis.bring_up(),
        Err(Error::Malformed("device did not report a usable MAC"))
    ));
}

#[test]
fn checksums_fold_their_carries() {
    assert_eq!(checksum(&[]), 0xFFFF);
    assert_eq!(checksum(&[&[0xFF, 0xFF, 0x00, 0x01]]), 0xFFFE);
    assert_eq!(checksum(&[&[0x12], &[], &[0x34, 0x56]]), !(0x1234 + 0x5600));
    let mut header = vec![
        0x45, 0x00, 0x00, 0x73, 0x00, 0x00, 0x40, 0x00, 0x40, 0x11, 0x00, 0x00, 0xc0, 0xa8, 0x00,
        0x01, 0xc0, 0xa8, 0x00, 0xc7,
    ];
    assert_eq!(checksum(&[&header]), 0xb861);
    header[10..12].copy_from_slice(&0xb861u16.to_be_bytes());
    assert_eq!(checksum(&[&header]), 0);
}

#[test]
fn a_packet_is_exactly_its_headers_and_payload() {
    let packet = build_udp(
        &UdpDatagram {
            src_ip: Ipv4Addr::new(10, 0, 0, 1),
            dst_ip: Ipv4Addr::new(10, 0, 0, 2),
            src_port: 68,
            dst_port: 67,
            payload: &[0xAB],
        },
        0x0102,
    );
    assert_eq!(
        &packet[..10],
        &[0x45, 0, 0, 29, 0x01, 0x02, 0, 0, 64, 17]
    );
    assert_eq!(&packet[12..20], &[10, 0, 0, 1, 10, 0, 0, 2]);
    assert_eq!(&packet[20..26], &[0, 68, 0, 67, 0, 9]);
    assert_eq!(packet[28], 0xAB);
    // The segment with its pseudo-header sums to nothing.
    let pseudo = [10, 0, 0, 1, 10, 0, 0, 2, 0, 17, 0, 9];
    assert_eq!(checksum(&[&pseudo, &packet[20..]]), 0);
}

#[test]
fn frames_and_arp_packets_byte_by_byte() {
    let frame = ethernet::build(MAC, MacAddr::zero(), 0x0806, &[1]);
    assert_eq!(&frame[..15], &[2, 2, 0x24, 0x8f, 0xb0, 0xcd, 0, 0, 0, 0, 0, 0, 8, 6, 1]);
    let p = arp::build(&ArpPacket {
        op: OP_REPLY,
        sender_mac: MAC,
        sender_ip: Ipv4Addr::new(1, 2, 3, 4),
        target_mac: MacAddr::broadcast(),
        target_ip: Ipv4Addr::new(5, 6, 7, 8),
    });
    assert_eq!(
        p,
        [
            0, 1, 8, 0, 6, 4, 0, 2, 2, 2, 0x24, 0x8f, 0xb0, 0xcd, 1, 2, 3, 4, 255, 255, 255, 255,
            255, 255, 5, 6, 7, 8
        ]
    );
}

fn reply(client: &DhcpClient, kind: u8, options: &[(u8, &[u8])]) -> Vec<u8> {
    let mut m = vec![BOOTREPLY, 1, 6, 0];
    m.extend_from_slice(&client.xid().to_be_bytes());
    m.extend_from_slice(&[0; 8]);
    m.extend_from_slice(&[192, 168, 42, 130]);
    m.extend_from_slice(&[192, 168, 42, 129]);
    m.extend_from_slice(&[0; 4]);
    m.extend_from_slice(MAC.as_bytes());
    m.resize(BOOTP_LEN, 0);
    m.extend_from_slice(&[0x63, 0x82, 0x53, 0x63, OPT_MESSAGE_TYPE, 1, kind]);
    for (code, data) in options {
        m.push(*code);
        m.push(data.len() as u8);
        m.extend_from_slice(data);
    }
    m.push(OPT_END);
    m
}

fn bound_with(options: &[(u8, &[u8])]) -> muta::netstack::Lease {
    let mut c = DhcpClient::new(MAC, 1);
    c.discover();
    let offer = reply(&c, OFFER, &[]);
    c.handle(&offer).unwrap();
    let ack = reply(&c, ACK, options);
    match c.handle(&ack).unwrap() {
        Event::Bound(lease) => *lease,
        other => panic!("expected a lease, got {other:?}"),
    }
}

#[test]
fn domain_names_are_decoded_and_trimmed() {
    let named = |bytes: &[u8]| bound_with(&[(OPT_DOMAIN_NAME, bytes)]).domain;
    assert_eq!(named(b"lan\0\0").as_deref(), Some("lan"));
    assert_eq!(named("h\u{e9}\u{4f60}".as_bytes()).as_deref(), Some("h\u{e9}\u{4f60}"));
    assert_eq!(named(&[0xFF, 0xFE]), None);
    assert_eq!(named(b"\0\0"), None);
    assert_eq!(named(b""), None);
}

#[test]
fn leases_have_defaults_for_what_is_missing() {
    let lease = bound_with(&[]);
    assert_eq!(lease.netmask, Ipv4Addr::new(255, 255, 255, 0));
    assert_eq!(lease.server_id, Ipv4Addr::new(192, 168, 42, 129));
    assert_eq!(lease.router, Some(Ipv4Addr::new(192, 168, 42, 129)));
    assert_eq!(lease.lease_time, Duration::from_secs(3600));
    assert_eq!(lease.renewal_time, Duration::from_secs(1800));
    assert_eq!((lease.mtu, lease.dns.len()), (None, 0));
    let lease = bound_with(&[
        (OPT_SUBNET_MASK, &[255, 255, 255, 192]),
        (OPT_SERVER_ID, &[10, 0, 0, 1]),
        (OPT_LEASE_TIME, &[0, 0, 0, 100]),
        (OPT_RENEWAL_TIME, &[0, 0, 0, 7]),
        (OPT_INTERFACE_MTU, &[5, 0xdc, 9]),
        // Too short to be an address.
        (OPT_SERVER_ID, &[1]),
    ]);
    assert_eq!(lease.prefix_len(), 26);
    assert_eq!(lease.server_id, Ipv4Addr::new(10, 0, 0, 1));
    assert_eq!(lease.renewal_time, Duration::from_secs(7));
    assert_eq!(lease.mtu, Some(1500));
    assert_eq!(lease.clone(), lease);
}

#[test]
fn an_unusable_offer_is_declined() {
    let mut c = DhcpClient::new(MAC, 1);
    assert!(c.decline().is_none());
    c.discover();
    let offer = reply(&c, OFFER, &[(OPT_SERVER_ID, &[10, 0, 0, 1])]);
    c.handle(&offer).unwrap();
    let m = c.decline().unwrap();
    assert_eq!(&m[240..243], &[OPT_MESSAGE_TYPE, 1, DECLINE]);
    assert_eq!(c.state(), State::Init);
    assert_eq!(m.len(), 300);
}
