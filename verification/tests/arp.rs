use muta::addr::Ipv4Addr;
use muta::netstack::arp::{build, parse, Arp, ArpPacket, OP_REPLY, OP_REQUEST};
use muta::netstack::error::Error;
use muta::netstack::ethernet::{self, MacAddr, ETHERTYPE_ARP};

const HOST_MAC: MacAddr = MacAddr([0x02, 0, 0, 0, 0, 1]);
const GW_MAC: MacAddr = MacAddr([0x3e, 0x02, 0x24, 0x8f, 0xb0, 0xcc]);
fn host_ip() -> Ipv4Addr {
    Ipv4Addr::new(192, 168, 42, 130)
}

fn gw_ip() -> Ipv4Addr {
    Ipv4Addr::new(192, 168, 42, 129)
}

fn request_from_gateway(target: Ipv4Addr) -> Vec<u8> {
    build(&ArpPacket {
        op: OP_REQUEST,
        sender_mac: GW_MAC,
        sender_ip: gw_ip(),
        target_mac: MacAddr::zero(),
        target_ip: target,
    })
}

#[test]
fn round_trips_a_packet() {
    let p = ArpPacket {
        op: OP_REPLY,
        sender_mac: GW_MAC,
        sender_ip: gw_ip(),
        target_mac: HOST_MAC,
        target_ip: host_ip(),
    };
    assert_eq!(parse(&build(&p)).unwrap(), p);
}

#[test]
fn replies_to_a_request_for_our_address() {
    let mut arp = Arp::new(HOST_MAC, host_ip());
    let frame = arp.handle(&request_from_gateway(host_ip())).unwrap().unwrap();

    let eth = ethernet::parse(&frame).unwrap();
    assert_eq!(eth.dst, GW_MAC);
    assert_eq!(eth.src, HOST_MAC);
    assert_eq!(eth.ethertype, ETHERTYPE_ARP);

    let reply = parse(eth.payload).unwrap();
    assert_eq!(reply.op, OP_REPLY);
    assert_eq!(reply.sender_mac, HOST_MAC);
    assert_eq!(reply.sender_ip, host_ip());
    assert_eq!(reply.target_ip, gw_ip());
}

#[test]
fn ignores_requests_for_other_addresses() {
    let mut arp = Arp::new(HOST_MAC, host_ip());
    let other = Ipv4Addr::new(192, 168, 42, 200);
    assert!(arp.handle(&request_from_gateway(other)).unwrap().is_none());
}

#[test]
fn learns_the_sender_from_any_arp_traffic() {
    let mut arp = Arp::new(HOST_MAC, host_ip());
    arp.handle(&request_from_gateway(host_ip())).unwrap();
    assert_eq!(arp.lookup(gw_ip()), Some(GW_MAC));
}

#[test]
fn does_not_learn_from_an_unspecified_sender() {
    // A DHCP-probe ARP from 0.0.0.0 must not become a cache entry.
    let mut arp = Arp::new(HOST_MAC, host_ip());
    let probe = build(&ArpPacket {
        op: OP_REQUEST,
        sender_mac: GW_MAC,
        sender_ip: Ipv4Addr::unspecified(),
        target_mac: MacAddr::zero(),
        target_ip: host_ip(),
    });
    arp.handle(&probe).unwrap();
    assert_eq!(arp.lookup(Ipv4Addr::unspecified()), None);
}

#[test]
fn stays_silent_before_we_have_an_address() {
    let mut arp = Arp::new(HOST_MAC, Ipv4Addr::unspecified());
    let probe = request_from_gateway(Ipv4Addr::unspecified());
    assert!(arp.handle(&probe).unwrap().is_none());
}

#[test]
fn rate_limits_repeat_requests() {
    let mut arp = Arp::new(HOST_MAC, host_ip());
    assert!(arp.request(gw_ip()).is_some());
    assert!(arp.request(gw_ip()).is_none(), "second request is suppressed");
}

#[test]
fn rejects_truncated_and_non_ipv4_packets() {
    let mut arp = Arp::new(HOST_MAC, host_ip());
    assert_eq!(arp.handle(&[0u8; 27]), Err(Error::Truncated));

    let mut wrong = build(&ArpPacket {
        op: OP_REQUEST,
        sender_mac: GW_MAC,
        sender_ip: gw_ip(),
        target_mac: MacAddr::zero(),
        target_ip: host_ip(),
    });
    wrong[2..4].copy_from_slice(&0x86DDu16.to_be_bytes());
    assert!(matches!(arp.handle(&wrong), Err(Error::Malformed(_))));
}

#[test]
fn rejects_implausible_address_sizes() {
    let mut p = build(&ArpPacket {
        op: OP_REQUEST,
        sender_mac: GW_MAC,
        sender_ip: gw_ip(),
        target_mac: MacAddr::zero(),
        target_ip: host_ip(),
    });
    p[4] = 8;
    assert!(matches!(parse(&p), Err(Error::Malformed(_))));
}
