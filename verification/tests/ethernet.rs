use muta::netstack::error::Error;
use muta::netstack::ethernet::{
    build, parse, MacAddr, ETHERTYPE_ARP, ETHERTYPE_IPV4, MIN_FRAME_LEN,
};

#[test]
fn round_trips_a_frame() {
    let dst = MacAddr([1, 2, 3, 4, 5, 6]);
    let src = MacAddr([0xAA; 6]);
    let payload = vec![9u8; 100];

    let built = build(dst, src, ETHERTYPE_IPV4, &payload);
    let f = parse(&built).unwrap();
    assert_eq!(f.dst, dst);
    assert_eq!(f.src, src);
    assert_eq!(f.ethertype, ETHERTYPE_IPV4);
    assert_eq!(&f.payload[..100], &payload[..]);
}

#[test]
fn pads_short_frames_to_the_ethernet_minimum() {
    let built = build(MacAddr::broadcast(), MacAddr::zero(), ETHERTYPE_ARP, &[1, 2, 3]);
    assert_eq!(built.len(), MIN_FRAME_LEN);
}

#[test]
fn rejects_a_frame_shorter_than_its_header() {
    assert!(matches!(parse(&[0u8; 13]), Err(Error::Truncated)));
}

#[test]
fn broadcast_counts_as_multicast() {
    assert!(MacAddr::broadcast().is_multicast());
    assert!(MacAddr::broadcast().is_broadcast());
    assert!(!MacAddr([0x02, 0, 0, 0, 0, 1]).is_multicast());
}
