use muta::addr::Ipv4Addr;
use muta::netstack::error::Error;
use muta::netstack::ipv4::{build_udp, checksum, parse_udp, UdpDatagram, PROTO_UDP};

fn datagram(payload: &[u8]) -> UdpDatagram<'_> {
    UdpDatagram {
        src_ip: Ipv4Addr::unspecified(),
        dst_ip: Ipv4Addr::broadcast(),
        src_port: 68,
        dst_port: 67,
        payload,
    }
}

#[test]
fn round_trips_a_datagram() {
    let payload = vec![7u8; 300];
    let packet = build_udp(&datagram(&payload), 0x1234);
    let d = parse_udp(&packet).unwrap();

    assert_eq!(d.src_ip, Ipv4Addr::unspecified());
    assert_eq!(d.dst_ip, Ipv4Addr::broadcast());
    assert_eq!((d.src_port, d.dst_port), (68, 67));
    assert_eq!(d.payload, &payload[..]);
}

#[test]
fn built_packets_have_valid_checksums() {
    // Summing a correct header including its checksum yields zero.
    let packet = build_udp(&datagram(&[1, 2, 3]), 1);
    assert_eq!(checksum(&[&packet[..20]]), 0);
}

#[test]
fn odd_length_payload_checksums_the_same_as_a_flat_buffer() {
    let packet = build_udp(&datagram(&[1, 2, 3, 4, 5]), 1);
    let udp = &packet[20..];
    let pseudo = [
        0,
        0,
        0,
        0,
        255,
        255,
        255,
        255,
        0,
        PROTO_UDP,
        0,
        udp.len() as u8,
    ];
    let split = checksum(&[&pseudo, udp]);

    let mut flat = pseudo.to_vec();
    flat.extend_from_slice(udp);
    assert_eq!(split, checksum(&[&flat]));
}

#[test]
fn parses_a_packet_carrying_ipv4_options() {
    let mut packet = build_udp(&datagram(&[9, 9]), 1);
    // Splice a 4-byte no-op option in and fix up the header length/total.
    packet.splice(20..20, [1, 1, 1, 1]);
    packet[0] = 0x46;
    let total = packet.len() as u16;
    packet[2..4].copy_from_slice(&total.to_be_bytes());

    assert_eq!(parse_udp(&packet).unwrap().payload, &[9, 9]);
}

#[test]
fn ignores_trailing_ethernet_padding() {
    let mut packet = build_udp(&datagram(&[1, 2, 3]), 1);
    packet.extend_from_slice(&[0; 20]);
    assert_eq!(parse_udp(&packet).unwrap().payload, &[1, 2, 3]);
}

#[test]
fn rejects_fragments() {
    let mut packet = build_udp(&datagram(&[1]), 1);
    packet[6] = 0x20; // more fragments
    assert!(matches!(parse_udp(&packet), Err(Error::Malformed(_))));

    let mut packet = build_udp(&datagram(&[1]), 1);
    packet[7] = 1; // non-zero fragment offset
    assert!(matches!(parse_udp(&packet), Err(Error::Malformed(_))));
}

#[test]
fn rejects_a_length_field_longer_than_the_buffer() {
    let mut packet = build_udp(&datagram(&[1, 2, 3]), 1);
    let lie = (packet.len() as u16) + 100;
    packet[2..4].copy_from_slice(&lie.to_be_bytes());
    assert!(matches!(parse_udp(&packet), Err(Error::Truncated)));
}

#[test]
fn rejects_a_udp_length_longer_than_the_ip_payload() {
    let mut packet = build_udp(&datagram(&[1, 2, 3]), 1);
    packet[24..26].copy_from_slice(&999u16.to_be_bytes());
    assert!(parse_udp(&packet).is_err());
}

#[test]
fn rejects_a_header_length_below_the_minimum() {
    let mut packet = build_udp(&datagram(&[1]), 1);
    packet[0] = 0x44;
    assert!(matches!(parse_udp(&packet), Err(Error::Malformed(_))));
}

#[test]
fn rejects_non_udp_and_non_ipv4() {
    let mut packet = build_udp(&datagram(&[1]), 1);
    packet[9] = 6;
    assert!(matches!(parse_udp(&packet), Err(Error::Malformed(_))));

    let mut packet = build_udp(&datagram(&[1]), 1);
    packet[0] = 0x65;
    assert!(matches!(parse_udp(&packet), Err(Error::Malformed(_))));
}
