use muta::addr::Ipv4Addr;
use muta::tun::net::subnet_of;
use muta::tun::utun::{frame_packet, Families};

#[test]
fn computes_the_network_address() {
    assert_eq!(
        subnet_of(
            Ipv4Addr::new(10, 71, 51, 112),
            Ipv4Addr::new(255, 255, 255, 0)
        ),
        Ipv4Addr::new(10, 71, 51, 0)
    );
    assert_eq!(
        subnet_of(
            Ipv4Addr::new(192, 168, 42, 130),
            Ipv4Addr::new(255, 255, 255, 192)
        ),
        Ipv4Addr::new(192, 168, 42, 128)
    );
}

#[test]
fn net_computes_the_network_address() {
    assert_eq!(
        subnet_of(Ipv4Addr::new(10, 71, 51, 112), Ipv4Addr::new(255, 255, 255, 0)),
        Ipv4Addr::new(10, 71, 51, 0)
    );
    assert_eq!(
        subnet_of(Ipv4Addr::new(192, 168, 42, 130), Ipv4Addr::new(255, 255, 255, 192)),
        Ipv4Addr::new(192, 168, 42, 128)
    );
}

#[test]
fn write_ignores_packets_that_are_not_ip() {
    let families = Families { inet: 2, inet6: 30 };
    assert!(frame_packet(&[], families).is_none());
    assert!(frame_packet(&[0x00], families).is_none());
}
