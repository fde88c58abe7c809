use muta::addr::Ipv4Addr;
use muta::netstack::dhcp::{
    DhcpClient, Event, Lease, State, ACK, BOOTP_LEN, DISCOVER, HTYPE_ETHERNET, NAK, OFFER, OPT_DNS,
    OPT_DOMAIN_NAME, OPT_END, OPT_INTERFACE_MTU, OPT_LEASE_TIME, OPT_MESSAGE_TYPE, OPT_PAD,
    OPT_PARAM_REQUEST, OPT_REQUESTED_IP, OPT_ROUTER, OPT_SERVER_ID, OPT_SUBNET_MASK, OP_REPLY,
    OP_REQUEST, RELEASE, REQUEST,
};
use muta::netstack::error::Error;
use muta::netstack::ethernet::MacAddr;
use muta::time::Duration;

const MAC: MacAddr = MacAddr([0x02, 0x02, 0x24, 0x8f, 0xb0, 0xcd]);
const MAGIC_COOKIE: [u8; 4] = [0x63, 0x82, 0x53, 0x63];

fn server() -> Ipv4Addr {
    Ipv4Addr::new(192, 168, 42, 129)
}

fn offered() -> Ipv4Addr {
    Ipv4Addr::new(192, 168, 42, 130)
}

fn push_option(m: &mut Vec<u8>, code: u8, data: &[u8]) {
    m.push(code);
    m.push(data.len() as u8);
    m.extend_from_slice(data);
}

/// A reply as Android's tether server sends it.
fn server_reply(
    xid: u32,
    message_type: u8,
    yiaddr: Ipv4Addr,
    options: &[(u8, Vec<u8>)],
) -> Vec<u8> {
    let mut m = vec![OP_REPLY, HTYPE_ETHERNET, 6, 0];
    m.extend_from_slice(&xid.to_be_bytes());
    m.extend_from_slice(&[0; 4]); // secs, flags
    m.extend_from_slice(&[0; 4]); // ciaddr
    m.extend_from_slice(&yiaddr.octets());
    m.extend_from_slice(&server().octets()); // siaddr
    m.extend_from_slice(&[0; 4]); // giaddr
    m.extend_from_slice(MAC.as_bytes());
    m.resize(BOOTP_LEN, 0);
    m.extend_from_slice(&MAGIC_COOKIE);

    push_option(&mut m, OPT_MESSAGE_TYPE, &[message_type]);
    for (code, data) in options {
        push_option(&mut m, *code, data);
    }
    m.push(OPT_END);
    m
}

fn full_offer(xid: u32, message_type: u8) -> Vec<u8> {
    server_reply(
        xid,
        message_type,
        offered(),
        &[
            (OPT_SUBNET_MASK, vec![255, 255, 255, 0]),
            (OPT_ROUTER, server().octets().to_vec()),
            (OPT_DNS, vec![8, 8, 8, 8, 1, 1, 1, 1]),
            (OPT_SERVER_ID, server().octets().to_vec()),
            (OPT_LEASE_TIME, 3600u32.to_be_bytes().to_vec()),
            (OPT_DOMAIN_NAME, b"lan".to_vec()),
            (OPT_INTERFACE_MTU, 1500u16.to_be_bytes().to_vec()),
        ],
    )
}

fn xid_of(msg: &[u8]) -> u32 {
    u32::from_be_bytes([msg[4], msg[5], msg[6], msg[7]])
}

fn option(msg: &[u8], code: u8) -> Option<Vec<u8>> {
    let mut rest = &msg[BOOTP_LEN + 4..];
    while let Some((&c, tail)) = rest.split_first() {
        if c == OPT_END {
            return None;
        }
        if c == OPT_PAD {
            rest = tail;
            continue;
        }
        let (&len, tail) = tail.split_first()?;
        let data = tail.get(..len as usize)?;
        if c == code {
            return Some(data.to_vec());
        }
        rest = &tail[len as usize..];
    }
    None
}

/// Drive the client through a full DISCOVER/OFFER/REQUEST/ACK exchange.
fn bind() -> (DhcpClient, Lease) {
    let mut c = DhcpClient::new(MAC, 0x1234);
    let discover = c.discover();
    let xid = xid_of(&discover);

    let Event::Send(request) = c.handle(&full_offer(xid, OFFER)).unwrap() else {
        panic!("expected a REQUEST");
    };
    assert_eq!(option(&request, OPT_MESSAGE_TYPE), Some(vec![REQUEST]));

    let Event::Bound(lease) = c.handle(&full_offer(xid, ACK)).unwrap() else {
        panic!("expected a lease");
    };
    (c, *lease)
}

#[test]
fn completes_the_four_way_exchange() {
    let (client, lease) = bind();
    assert_eq!(client.state(), State::Bound);
    assert_eq!(lease.ip, offered());
    assert_eq!(lease.netmask, Ipv4Addr::new(255, 255, 255, 0));
    assert_eq!(lease.router, Some(server()));
    assert_eq!(
        lease.dns,
        vec![Ipv4Addr::new(8, 8, 8, 8), Ipv4Addr::new(1, 1, 1, 1)]
    );
    assert_eq!(lease.domain.as_deref(), Some("lan"));
    assert_eq!(lease.mtu, Some(1500));
    assert_eq!(lease.lease_time, Duration::from_secs(3600));
    assert_eq!(lease.renewal_time, Duration::from_secs(1800));
    assert_eq!(lease.prefix_len(), 24);
}

#[test]
fn discover_asks_for_the_options_we_need() {
    let mut c = DhcpClient::new(MAC, 1);
    let d = c.discover();
    assert_eq!(option(&d, OPT_MESSAGE_TYPE), Some(vec![DISCOVER]));
    let params = option(&d, OPT_PARAM_REQUEST).unwrap();
    for wanted in [OPT_SUBNET_MASK, OPT_ROUTER, OPT_DNS, OPT_LEASE_TIME] {
        assert!(params.contains(&wanted), "must request option {wanted}");
    }
    assert!(d.len() >= 300, "must meet the minimum message size");
}

#[test]
fn request_echoes_the_offered_address_and_server() {
    let mut c = DhcpClient::new(MAC, 0x1234);
    let xid = xid_of(&c.discover());
    let Event::Send(request) = c.handle(&full_offer(xid, OFFER)).unwrap() else {
        panic!("expected a REQUEST");
    };
    assert_eq!(
        option(&request, OPT_REQUESTED_IP),
        Some(offered().octets().to_vec())
    );
    assert_eq!(
        option(&request, OPT_SERVER_ID),
        Some(server().octets().to_vec())
    );
}

#[test]
fn ignores_replies_for_another_transaction() {
    let mut c = DhcpClient::new(MAC, 0x1234);
    let xid = xid_of(&c.discover());
    assert_eq!(
        c.handle(&full_offer(xid ^ 0xFFFF, OFFER)).unwrap(),
        Event::Ignored
    );
    assert_eq!(c.state(), State::Selecting);
}

#[test]
fn ignores_replies_addressed_to_another_client() {
    let mut c = DhcpClient::new(MAC, 0x1234);
    let xid = xid_of(&c.discover());
    let mut offer = full_offer(xid, OFFER);
    offer[28] ^= 0xFF; // corrupt chaddr
    assert_eq!(c.handle(&offer).unwrap(), Event::Ignored);
}

#[test]
fn a_nak_drops_the_lease() {
    let (mut c, _) = bind();
    c.renew().unwrap();
    let xid = c.xid();
    assert_eq!(
        c.handle(&server_reply(xid, NAK, Ipv4Addr::unspecified(), &[]))
            .unwrap(),
        Event::Nak
    );
    assert_eq!(c.state(), State::Init);
    assert!(c.lease().is_none());
}

#[test]
fn renewal_rebinds_on_ack() {
    let (mut c, _) = bind();
    let renew = c.renew().unwrap();
    // Renewal is unicast from our address, so no broadcast flag.
    assert_eq!(&renew[10..12], &[0, 0]);
    assert_eq!(&renew[12..16], &offered().octets());

    let xid = c.xid();
    assert!(matches!(
        c.handle(&full_offer(xid, ACK)).unwrap(),
        Event::Bound(_)
    ));
    assert_eq!(c.state(), State::Bound);
}

#[test]
fn falls_back_to_the_server_as_gateway_when_no_router_option() {
    let mut c = DhcpClient::new(MAC, 0x1234);
    let xid = xid_of(&c.discover());
    let minimal = |t| {
        server_reply(
            xid,
            t,
            offered(),
            &[(OPT_SERVER_ID, server().octets().to_vec())],
        )
    };
    c.handle(&minimal(OFFER)).unwrap();
    let Event::Bound(lease) = c.handle(&minimal(ACK)).unwrap() else {
        panic!("expected a lease");
    };
    assert_eq!(lease.router, Some(server()));
    // Missing lease time gets a sane default rather than zero.
    assert!(lease.lease_time > Duration::from_secs(0));
}

#[test]
fn rejects_an_ack_without_an_address() {
    let mut c = DhcpClient::new(MAC, 0x1234);
    let xid = xid_of(&c.discover());
    c.handle(&full_offer(xid, OFFER)).unwrap();
    let bad = server_reply(
        xid,
        ACK,
        Ipv4Addr::unspecified(),
        &[(OPT_SERVER_ID, server().octets().to_vec())],
    );
    assert!(matches!(c.handle(&bad), Err(Error::Malformed(_))));
}

#[test]
fn rejects_truncated_and_corrupt_messages() {
    let mut c = DhcpClient::new(MAC, 0x1234);
    c.discover();
    assert_eq!(c.handle(&[0u8; 100]), Err(Error::Truncated));

    let mut bad_cookie = full_offer(c.xid(), OFFER);
    bad_cookie[BOOTP_LEN] = 0;
    assert!(matches!(c.handle(&bad_cookie), Err(Error::Malformed(_))));

    let mut not_a_reply = full_offer(c.xid(), OFFER);
    not_a_reply[0] = OP_REQUEST;
    assert!(matches!(c.handle(&not_a_reply), Err(Error::Malformed(_))));
}

#[test]
fn rejects_an_option_running_past_the_message() {
    let mut c = DhcpClient::new(MAC, 0x1234);
    c.discover();
    let mut msg = full_offer(c.xid(), OFFER);
    // Replace the terminator with an option claiming more data than remains.
    msg.pop();
    msg.extend_from_slice(&[OPT_DNS, 200]);
    assert!(matches!(c.handle(&msg), Err(Error::Truncated)));

    // A declared length that stops exactly at the end is still fine.
    let mut exact = full_offer(c.xid(), OFFER);
    exact.pop();
    exact.extend_from_slice(&[OPT_DNS, 4, 9, 9, 9, 9]);
    assert!(c.handle(&exact).is_ok());
}

#[test]
fn rejects_a_message_with_no_type_option() {
    let mut c = DhcpClient::new(MAC, 0x1234);
    c.discover();
    let mut m = vec![OP_REPLY, HTYPE_ETHERNET, 6, 0];
    m.extend_from_slice(&c.xid().to_be_bytes());
    m.resize(BOOTP_LEN, 0);
    m.extend_from_slice(&MAGIC_COOKIE);
    m.push(OPT_END);
    assert!(matches!(c.handle(&m), Err(Error::Malformed(_))));
}

#[test]
fn a_new_discover_uses_a_fresh_transaction_id() {
    let mut c = DhcpClient::new(MAC, 0x1234);
    let first = xid_of(&c.discover());
    let second = xid_of(&c.discover());
    assert_ne!(first, second);
}

#[test]
fn retransmit_repeats_the_pending_message_only() {
    let mut c = DhcpClient::new(MAC, 0x1234);
    assert!(c.retransmit().is_none(), "nothing pending in Init");

    let xid = xid_of(&c.discover());
    assert_eq!(
        option(&c.retransmit().unwrap(), OPT_MESSAGE_TYPE),
        Some(vec![DISCOVER])
    );

    c.handle(&full_offer(xid, OFFER)).unwrap();
    assert_eq!(
        option(&c.retransmit().unwrap(), OPT_MESSAGE_TYPE),
        Some(vec![REQUEST])
    );

    c.handle(&full_offer(xid, ACK)).unwrap();
    assert!(c.retransmit().is_none(), "nothing to retransmit once bound");
}

#[test]
fn release_clears_the_lease() {
    let (mut c, _) = bind();
    let msg = c.release().unwrap();
    assert_eq!(option(&msg, OPT_MESSAGE_TYPE), Some(vec![RELEASE]));
    assert!(c.lease().is_none());
    assert!(c.release().is_none(), "releasing twice is a no-op");
}
