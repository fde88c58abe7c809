use muta::addr::Ipv4Addr;
use muta::status::Status;

#[test]
fn encodes_a_connected_status() {
    let status = Status {
        device: Some("Xiaomi Redmi Note 10S".into()),
        link_up: true,
        interface: Some("utun4".into()),
        address: Some(Ipv4Addr::new(10, 71, 51, 112)),
        gateway: Some(Ipv4Addr::new(10, 71, 51, 57)),
        dns: vec![Ipv4Addr::new(10, 71, 51, 57)],
        packets_in: 12,
        packets_out: 34,
    };
    let line = status.encode();
    assert!(line.starts_with("state=connected\t"));
    assert!(line.contains("interface=utun4"));
    // The device name has spaces; it must stay one field.
    assert!(line.contains("device=Xiaomi Redmi Note 10S\t"));
    assert!(line.contains("address=10.71.51.112"));
    assert!(line.ends_with('\n'));
}

#[test]
fn encodes_missing_fields_as_placeholders() {
    let line = Status::default().encode();
    assert!(line.starts_with("state=waiting\t"));
    assert!(line.contains("interface=-\t"));
    assert!(line.contains("dns=-\t"));
}
