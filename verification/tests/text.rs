use muta::addr::Ipv4Addr;
use muta::bytes::{put_be32, put_le_words, truncate16, truncate32};
use muta::netstack::ethernet::MacAddr;
use muta::status::{render, Status};
use muta::text::{
    position, push_decimal, push_hex, push_hex_padded, push_flat, push_octal, split_on, trim,
};
use muta::usb::{DeviceId, DeviceInfo};

#[test]
fn numbers_are_written_in_each_base() {
    let mut s = String::new();
    push_decimal(&mut s, 0);
    s.push(' ');
    push_decimal(&mut s, 18_446_744_073_709_551_615);
    s.push(' ');
    push_hex(&mut s, 0xdead_beef);
    s.push(' ');
    push_hex_padded(&mut s, 0x2a, 4);
    s.push(' ');
    push_octal(&mut s, 0o755);
    assert_eq!(s, "0 18446744073709551615 deadbeef 002a 755");
}

#[test]
fn integers_stand_in_wire_order() {
    let mut b = Vec::new();
    put_le_words(&mut b, &[1, 0x0102_0304]);
    put_be32(&mut b, 0x0102_0304);
    assert_eq!(b, [1, 0, 0, 0, 4, 3, 2, 1, 1, 2, 3, 4]);
    assert_eq!(truncate16(0x1_2345), 0x2345);
    assert_eq!(truncate32(7), 7);
}

#[test]
fn white_space_is_trimmed_at_both_ends_only() {
    assert_eq!(trim(" \t a b \r\n"), "a b");
    assert_eq!(trim("\u{2003}x\u{00a0}"), "x");
    assert_eq!(trim("\u{200b}x"), "\u{200b}x");
    assert_eq!(trim(" \u{3000} "), "");
}

#[test]
fn text_is_split_and_searched() {
    assert_eq!(split_on("a,,b,", ','), ["a", "", "b", ""]);
    assert_eq!(split_on("", ','), [""]);
    assert_eq!(position("key=value=x", '='), Some(3));
    assert_eq!(position("key", '='), None);
    let mut s = "<".to_string();
    push_flat(&mut s, "a\tb\nc\rd");
    assert_eq!(s, "<a b c\rd");
}

#[test]
fn addresses_have_their_usual_form() {
    let ip = Ipv4Addr::new(192, 168, 42, 129);
    assert_eq!(ip.octets(), [192, 168, 42, 129]);
    assert_eq!(ip.to_text(), "192.168.42.129");
    assert!(Ipv4Addr::new(0, 0, 0, 0).is_unspecified());
    assert_eq!(Ipv4Addr::broadcast().to_text(), "255.255.255.255");
    assert_eq!(
        MacAddr([0x02, 0x0a, 0, 0xff, 0x10, 1]).to_text(),
        "02:0a:00:ff:10:01"
    );
    assert_eq!(MacAddr::default(), MacAddr::zero());
    assert!(MacAddr::from_slice(&[1, 2, 3, 4, 5]).is_err());
    assert_eq!(
        MacAddr::from_slice(&[1, 2, 3, 4, 5, 6, 7]).unwrap(),
        MacAddr([1, 2, 3, 4, 5, 6])
    );
}

fn info(manufacturer: Option<&str>, product: Option<&str>) -> DeviceInfo {
    DeviceInfo {
        id: DeviceId(0x1f),
        vendor_id: 0x18d1,
        product_id: 0x4e,
        manufacturer: manufacturer.map(str::to_string),
        product: product.map(str::to_string),
        serial: None,
    }
}

#[test]
fn devices_are_labelled_by_what_they_say_of_themselves() {
    assert_eq!(
        info(Some("Google"), Some("Pixel")).label(),
        "Google Pixel (18d1:004e)"
    );
    assert_eq!(info(None, Some("Pixel")).label(), "Pixel (18d1:004e)");
    assert_eq!(info(Some("Google"), None).label(), "Google (18d1:004e)");
    assert_eq!(info(None, None).label(), "unknown device (18d1:004e)");
    assert_eq!(info(None, None).id.to_text(), "0x1f");
    assert_eq!(info(Some("a"), Some("b")).clone().label(), "a b (18d1:004e)");
}

#[test]
fn the_whole_status_line() {
    let status = Status {
        device: Some("a\tphone".into()),
        link_up: true,
        interface: Some("utun4".into()),
        address: Some(Ipv4Addr::new(10, 0, 0, 2)),
        gateway: None,
        dns: vec![Ipv4Addr::new(8, 8, 8, 8), Ipv4Addr::new(1, 1, 1, 1)],
        packets_in: 1,
        packets_out: 23,
    };
    assert_eq!(
        status.encode(),
        "state=connected\tdevice=a phone\tinterface=utun4\taddress=10.0.0.2\tgateway=-\tdns=8.8.8.8,1.1.1.1\tin=1\tout=23\n"
    );
}

#[test]
fn a_status_line_is_shown_field_by_field() {
    let shown = render(&Status::default().encode());
    assert_eq!(
        shown,
        "state      waiting\ndevice     -\ninterface  -\naddress    -\ngateway    -\ndns        -\nin         0\nout        0\n"
    );
    assert_eq!(
        render(" device=Xiaomi Redmi Note 10S\tlong_key_name=1\tnot a field\n"),
        "device     Xiaomi Redmi Note 10S\nlong_key_name 1\nnot a field\n"
    );
}

#[test]
fn a_status_is_one_line_whatever_the_device_is_called() {
    let status = Status {
        device: Some("A\tB\nC".into()),
        ..Status::default()
    };
    let line = status.clone().encode();
    assert_eq!(line.matches('\t').count(), 7);
    assert_eq!(line.matches('\n').count(), 1);
    assert!(line.ends_with('\n'));
    assert!(line.contains("\tdevice=A B C\t"));
    assert_eq!(status.encode(), line);
}

#[test]
fn a_carriage_return_stays_in_the_name() {
    let status = Status {
        device: Some("A\rB".into()),
        ..Status::default()
    };
    assert!(status.encode().contains("\tdevice=A\rB\t"));
}
