//! Minimal DHCP client for the phone's tether server (RFC 2131).
//!
//! Pure state machine: it consumes DHCP message bytes and produces the next
//! message to send. The caller wraps them in UDP/IP/Ethernet and does the
//! timing.

use vstd::prelude::*;
use vstd::slice::{slice_subrange, slice_to_vec};
use vstd::string::*;
use vstd::utf8::{decode_utf8, valid_utf8};

use crate::addr::Ipv4Addr;
use crate::bytes::{
    be16, be16_at, be32, be32_at, get_be16, get_be32, put_be16, put_be32, put_bytes, put_zeros,
    zeros,
};
use crate::netstack::error::{Error, Result};
use crate::netstack::ethernet::MacAddr;
use crate::text::{clone_text, text_of};
use crate::time::{secs, Duration};

verus! {

pub const CLIENT_PORT: u16 = 68;

pub const SERVER_PORT: u16 = 67;

pub const OP_REQUEST: u8 = 1;

pub const OP_REPLY: u8 = 2;

pub const HTYPE_ETHERNET: u8 = 1;

pub const FLAG_BROADCAST: u16 = 0x8000;

/// BOOTP fixed header, before the magic cookie.
pub const BOOTP_LEN: usize = 236;

// Option codes we use.
pub const OPT_PAD: u8 = 0;

pub const OPT_SUBNET_MASK: u8 = 1;

pub const OPT_ROUTER: u8 = 3;

pub const OPT_DNS: u8 = 6;

pub const OPT_DOMAIN_NAME: u8 = 15;

pub const OPT_INTERFACE_MTU: u8 = 26;

pub const OPT_REQUESTED_IP: u8 = 50;

pub const OPT_LEASE_TIME: u8 = 51;

pub const OPT_MESSAGE_TYPE: u8 = 53;

pub const OPT_SERVER_ID: u8 = 54;

pub const OPT_PARAM_REQUEST: u8 = 55;

pub const OPT_RENEWAL_TIME: u8 = 58;

pub const OPT_CLIENT_ID: u8 = 61;

pub const OPT_END: u8 = 255;

// Message types.
pub const DISCOVER: u8 = 1;

pub const OFFER: u8 = 2;

pub const REQUEST: u8 = 3;

pub const DECLINE: u8 = 4;

pub const ACK: u8 = 5;

pub const NAK: u8 = 6;

pub const RELEASE: u8 = 7;

/// The four bytes between the fixed header and the options.
pub open spec fn magic_cookie() -> Seq<u8> {
    seq![0x63u8, 0x82u8, 0x53u8, 0x63u8]
}

#[derive(Debug, PartialEq, Eq)]
pub struct Lease {
    pub ip: Ipv4Addr,
    pub netmask: Ipv4Addr,
    pub router: Option<Ipv4Addr>,
    pub dns: Vec<Ipv4Addr>,
    pub domain: Option<String>,
    pub mtu: Option<u16>,
    pub server_id: Ipv4Addr,
    pub lease_time: Duration,
    /// When to start renewing; defaults to half the lease.
    pub renewal_time: Duration,
}

/// A lease as plain values.
#[verifier::ext_equal]
pub struct LeaseView {
    pub ip: Ipv4Addr,
    pub netmask: Ipv4Addr,
    pub router: Option<Ipv4Addr>,
    pub dns: Seq<Ipv4Addr>,
    pub domain: Option<Seq<char>>,
    pub mtu: Option<u16>,
    pub server_id: Ipv4Addr,
    pub lease_time: Duration,
    pub renewal_time: Duration,
}

impl View for Lease {
    type V = LeaseView;

    open spec fn view(&self) -> LeaseView {
        LeaseView {
            ip: self.ip,
            netmask: self.netmask,
            router: self.router,
            dns: self.dns@,
            domain: text_of(self.domain),
            mtu: self.mtu,
            server_id: self.server_id,
            lease_time: self.lease_time,
            renewal_time: self.renewal_time,
        }
    }
}

impl Clone for Lease {
    fn clone(&self) -> (r: Self)
        ensures
            r@ == self@,
    {
        Lease {
            ip: self.ip,
            netmask: self.netmask,
            router: self.router,
            dns: clone_addrs(&self.dns),
            domain: clone_text(&self.domain),
            mtu: self.mtu,
            server_id: self.server_id,
            lease_time: self.lease_time,
            renewal_time: self.renewal_time,
        }
    }
}

fn clone_addrs(v: &Vec<Ipv4Addr>) -> (r: Vec<Ipv4Addr>)
    ensures
        r@ == v@,
{
    let mut r: Vec<Ipv4Addr> = Vec::new();
    for i in 0..v.len()
        invariant
            r@ == v@.take(i as int),
    {
        r.push(v[i]);
        assert(v@.take(i + 1) =~= v@.take(i as int).push(v@[i as int]));
    }
    assert(v@.take(v@.len() as int) =~= v@);
    r
}

/// The number of ones in the binary digits of `n`.
pub open spec fn ones(n: nat) -> nat
    decreases n,
{
    if n == 0 {
        0
    } else {
        n % 2 + ones(n / 2)
    }
}

impl Lease {
    /// How many bits of the netmask are set.
    pub fn prefix_len(&self) -> (r: u8)
        ensures
            r == ones(self.netmask.bits as nat),
            r <= 32,
    {
        let mut left: u32 = self.netmask.bits;
        let mut count: u8 = 0;
        let mut steps: u8 = 32;
        proof {
            vstd::arithmetic::power2::lemma2_to64();
        }
        while left > 0
            invariant
                count + ones(left as nat) == ones(self.netmask.bits as nat),
                count + steps <= 32,
                (left as nat) < vstd::arithmetic::power2::pow2(steps as nat),
            decreases left,
        {
            proof {
                if steps == 0 {
                    vstd::arithmetic::power2::lemma2_to64();
                }
                vstd::arithmetic::power2::lemma_pow2_unfold(steps as nat);
            }
            if left % 2 == 1 {
                count = count + 1;
            }
            left = left / 2;
            steps = steps - 1;
        }
        count
    }
}

#[derive(Clone, Copy, Debug, PartialEq, Eq, Structural)]
pub enum State {
    Init,
    Selecting,
    Requesting,
    Bound,
    Renewing,
}

/// What the caller should do after feeding in a received message.
#[derive(Debug, PartialEq, Eq)]
pub enum Event {
    /// Nothing to do; the message was not for us or not interesting.
    Ignored,
    /// Send these DHCP bytes to the server.
    Send(Vec<u8>),
    /// A lease was obtained or renewed.
    Bound(Box<Lease>),
    /// The server refused; the caller should restart after a backoff.
    Nak,
}

/// An event as plain values.
pub enum EventView {
    Ignored,
    Send(Seq<u8>),
    Bound(LeaseView),
    Nak,
}

impl View for Event {
    type V = EventView;

    open spec fn view(&self) -> EventView {
        match self {
            Event::Ignored => EventView::Ignored,
            Event::Send(m) => EventView::Send(m@),
            Event::Bound(lease) => EventView::Bound((**lease)@),
            Event::Nak => EventView::Nak,
        }
    }
}

/// The options in `buf` from `at` on, behind those in `acc`: code, length, data,
/// up to the end option or the end of the bytes. Pad bytes stand alone.
pub open spec fn options_at(buf: Seq<u8>, at: int, acc: Seq<(u8, Seq<u8>)>) -> Result<
    Seq<(u8, Seq<u8>)>,
>
    decreases buf.len() - at,
{
    if at < 0 || at >= buf.len() || buf[at] == OPT_END {
        Ok(acc)
    } else if buf[at] == OPT_PAD {
        options_at(buf, at + 1, acc)
    } else if at + 1 >= buf.len() || at + 2 + buf[at + 1] > buf.len() {
        Err(Error::Truncated)
    } else {
        let end = at + 2 + buf[at + 1];
        options_at(buf, end, acc.push((buf[at], buf.subrange(at + 2, end))))
    }
}

/// The data of the last option `code` that has at least `min` bytes.
pub open spec fn last_option(opts: Seq<(u8, Seq<u8>)>, code: u8, min: int) -> Option<Seq<u8>>
    decreases opts.len(),
{
    if opts.len() == 0 {
        None
    } else if opts.last().0 == code && opts.last().1.len() >= min {
        Some(opts.last().1)
    } else {
        last_option(opts.drop_last(), code, min)
    }
}

/// `s` without the NUL characters at its end.
pub open spec fn trimmed(s: Seq<char>) -> Seq<char>
    decreases s.len(),
{
    if s.len() > 0 && s.last() == '\0' {
        trimmed(s.drop_last())
    } else {
        s
    }
}

/// The domain name in an option: UTF-8, NULs at the end dropped, not empty.
pub open spec fn domain_in(data: Seq<u8>) -> Option<Seq<char>> {
    if valid_utf8(data) && trimmed(decode_utf8(data)).len() > 0 {
        Some(trimmed(decode_utf8(data)))
    } else {
        None
    }
}

/// The addresses in an option, four bytes each; a rest is dropped.
pub open spec fn addrs_in(data: Seq<u8>) -> Seq<Ipv4Addr> {
    Seq::new(data.len() / 4, |i: int| Ipv4Addr::at(data, 4 * i))
}

/// A reply's fixed fields and options.
#[verifier::ext_equal]
pub struct Reply {
    pub xid: u32,
    pub yiaddr: Ipv4Addr,
    pub siaddr: Ipv4Addr,
    pub chaddr: Seq<u8>,
    pub options: Seq<(u8, Seq<u8>)>,
}

impl Reply {
    /// Zero where there is none.
    pub open spec fn message_type(self) -> u8 {
        match last_option(self.options, OPT_MESSAGE_TYPE, 1) {
            Some(d) => d[0],
            None => 0,
        }
    }

    pub open spec fn address(self, code: u8) -> Option<Ipv4Addr> {
        match last_option(self.options, code, 4) {
            Some(d) => Some(Ipv4Addr::at(d, 0)),
            None => None,
        }
    }

    pub open spec fn span(self, code: u8) -> Option<Duration> {
        match last_option(self.options, code, 4) {
            Some(d) => Some(secs(be32_at(d, 0) as int)),
            None => None,
        }
    }

    pub open spec fn dns(self) -> Seq<Ipv4Addr> {
        match last_option(self.options, OPT_DNS, 0) {
            Some(d) => addrs_in(d),
            None => Seq::empty(),
        }
    }

    pub open spec fn domain(self) -> Option<Seq<char>> {
        match last_option(self.options, OPT_DOMAIN_NAME, 0) {
            Some(d) => domain_in(d),
            None => None,
        }
    }

    pub open spec fn mtu(self) -> Option<u16> {
        match last_option(self.options, OPT_INTERFACE_MTU, 2) {
            Some(d) => Some(be16_at(d, 0)),
            None => None,
        }
    }
}

/// The reply in a DHCP message, or what is wrong with it.
pub open spec fn reply_in(buf: Seq<u8>) -> Result<Reply> {
    if buf.len() < BOOTP_LEN + 4 {
        Err(Error::Truncated)
    } else if buf[0] != OP_REPLY {
        Err(Error::Malformed("not a BOOTP reply"))
    } else if buf.subrange(236, 240) != magic_cookie() {
        Err(Error::Malformed("bad magic cookie"))
    } else {
        match options_at(buf, 240, Seq::empty()) {
            Err(e) => Err(e),
            Ok(options) => {
                let reply = Reply {
                    xid: be32_at(buf, 4),
                    yiaddr: Ipv4Addr::at(buf, 16),
                    siaddr: Ipv4Addr::at(buf, 20),
                    chaddr: buf.subrange(28, 34),
                    options,
                };
                if reply.message_type() == 0 {
                    Err(Error::Malformed("no DHCP message type"))
                } else {
                    Ok(reply)
                }
            },
        }
    }
}

struct Parsed {
    xid: u32,
    yiaddr: Ipv4Addr,
    siaddr: Ipv4Addr,
    chaddr: MacAddr,
    message_type: u8,
    netmask: Option<Ipv4Addr>,
    router: Option<Ipv4Addr>,
    dns: Vec<Ipv4Addr>,
    domain: Option<String>,
    mtu: Option<u16>,
    server_id: Option<Ipv4Addr>,
    lease_time: Option<Duration>,
    renewal_time: Option<Duration>,
}

impl Parsed {
    /// Whether this holds what is read from `reply`.
    spec fn reads(&self, reply: Reply) -> bool {
        &&& self.xid == reply.xid
        &&& self.yiaddr == reply.yiaddr
        &&& self.siaddr == reply.siaddr
        &&& self.chaddr@ == reply.chaddr
        &&& self.message_type == reply.message_type()
        &&& self.netmask == reply.address(OPT_SUBNET_MASK)
        &&& self.router == reply.address(OPT_ROUTER)
        &&& self.dns@ == reply.dns()
        &&& text_of(self.domain) == reply.domain()
        &&& self.mtu == reply.mtu()
        &&& self.server_id == reply.address(OPT_SERVER_ID)
        &&& self.lease_time == reply.span(OPT_LEASE_TIME)
        &&& self.renewal_time == reply.span(OPT_RENEWAL_TIME)
    }

    /// Take in one more option.
    fn take_option(&mut self, code: u8, data: &[u8], reply: Ghost<Reply>)
        requires
            old(self).reads(reply@),
        ensures
            final(self).reads(
                (Reply { options: reply@.options.push((code, data@)), ..reply@ }),
            ),
    {
        let ghost opts = reply@.options;
        let ghost more = opts.push((code, data@));
        proof {
            assert(more.drop_last() =~= opts);
            assert(forall|c: u8, min: int| #[trigger]
                last_option(more, c, min) == (if code == c && data@.len() >= min {
                    Some(data@)
                } else {
                    last_option(opts, c, min)
                }));
        }
        if code == OPT_MESSAGE_TYPE {
            if data.len() >= 1 {
                self.message_type = data[0];
            }
        } else if code == OPT_SUBNET_MASK {
            if data.len() >= 4 {
                self.netmask = Some(Ipv4Addr::from_slice_at(data, 0));
            }
        } else if code == OPT_ROUTER {
            if data.len() >= 4 {
                self.router = Some(Ipv4Addr::from_slice_at(data, 0));
            }
        } else if code == OPT_SERVER_ID {
            if data.len() >= 4 {
                self.server_id = Some(Ipv4Addr::from_slice_at(data, 0));
            }
        } else if code == OPT_DNS {
            self.dns = addresses(data);
        } else if code == OPT_DOMAIN_NAME {
            self.domain = domain_name(data);
        } else if code == OPT_INTERFACE_MTU {
            if data.len() >= 2 {
                self.mtu = Some(get_be16(data, 0));
            }
        } else if code == OPT_LEASE_TIME {
            if data.len() >= 4 {
                self.lease_time = Some(Duration::from_secs(get_be32(data, 0) as u64));
            }
        } else if code == OPT_RENEWAL_TIME {
            if data.len() >= 4 {
                self.renewal_time = Some(Duration::from_secs(get_be32(data, 0) as u64));
            }
        }
    }
}

fn addresses(data: &[u8]) -> (r: Vec<Ipv4Addr>)
    ensures
        r@ == addrs_in(data@),
{
    let mut r: Vec<Ipv4Addr> = Vec::new();
    let total: usize = data.len();
    let n: usize = total / 4;
    for i in 0..n
        invariant
            total == data@.len(),
            n == total / 4,
            r@ == addrs_in(data@).take(i as int),
    {
        r.push(Ipv4Addr::from_slice_at(data, 4 * i));
        assert(r@ =~= addrs_in(data@).take(i + 1));
    }
    assert(r@ =~= addrs_in(data@));
    r
}

/// `std::string::String::from_utf8`: the text the bytes encode, if they are
/// well-formed UTF-8.
#[verifier::external_body]
fn from_utf8(bytes: Vec<u8>) -> (r: Option<String>)
    ensures
        match r {
            Some(s) => valid_utf8(bytes@) && s@ == decode_utf8(bytes@),
            None => !valid_utf8(bytes@),
        },
{
    String::from_utf8(bytes).ok()
}

fn domain_name(data: &[u8]) -> (r: Option<String>)
    ensures
        text_of(r) == domain_in(data@),
{
    let s = match from_utf8(slice_to_vec(data)) {
        Some(s) => s,
        None => return None,
    };
    let name = trim_nuls(s.as_str());
    if name.as_str().unicode_len() == 0 {
        None
    } else {
        Some(name)
    }
}

fn trim_nuls(s: &str) -> (r: String)
    ensures
        r@ == trimmed(s@),
{
    let mut n: usize = s.unicode_len();
    assert(s@.take(n as int) =~= s@);
    while n > 0 && s.get_char(n - 1) == '\0'
        invariant
            n <= s@.len(),
            trimmed(s@) == trimmed(s@.take(n as int)),
        decreases n,
    {
        assert(s@.take(n as int).drop_last() =~= s@.take(n - 1));
        n = n - 1;
    }
    proof {
        let kept = s@.take(n as int);
        assert(n > 0 ==> kept.last() == s@[n - 1]);
        assert(s@.subrange(0, n as int) =~= kept);
    }
    s.substring_char(0, n).to_owned()
}

fn parse(buf: &[u8]) -> (r: Result<Parsed>)
    ensures
        match r {
            Ok(p) => reply_in(buf@) is Ok && p.reads(reply_in(buf@)->Ok_0),
            Err(e) => reply_in(buf@) == Err::<Reply, _>(e),
        },
{
    if buf.len() < BOOTP_LEN + 4 {
        return Err(Error::Truncated);
    }
    if buf[0] != OP_REPLY {
        return Err(Error::Malformed("not a BOOTP reply"));
    }
    if buf[236] != 0x63 || buf[237] != 0x82 || buf[238] != 0x53 || buf[239] != 0x63 {
        assert(buf@.subrange(236, 240) != magic_cookie()) by {
            let c = buf@.subrange(236, 240);
            assert(c[0] == buf@[236] && c[1] == buf@[237] && c[2] == buf@[238] && c[3]
                == buf@[239]);
        }
        return Err(Error::Malformed("bad magic cookie"));
    }
    assert(buf@.subrange(236, 240) =~= magic_cookie());

    let mut p = Parsed {
        xid: get_be32(buf, 4),
        yiaddr: Ipv4Addr::from_slice_at(buf, 16),
        siaddr: Ipv4Addr::from_slice_at(buf, 20),
        chaddr: MacAddr([buf[28], buf[29], buf[30], buf[31], buf[32], buf[33]]),
        message_type: 0,
        netmask: None,
        router: None,
        dns: Vec::new(),
        domain: None,
        mtu: None,
        server_id: None,
        lease_time: None,
        renewal_time: None,
    };
    let ghost mut reply = Reply {
        xid: be32_at(buf@, 4),
        yiaddr: Ipv4Addr::at(buf@, 16),
        siaddr: Ipv4Addr::at(buf@, 20),
        chaddr: buf@.subrange(28, 34),
        options: Seq::empty(),
    };
    assert(p.chaddr@ =~= buf@.subrange(28, 34));
    let mut at: usize = BOOTP_LEN + 4;
    while at < buf.len() && buf[at] != OPT_END
        invariant
            240 <= at <= buf@.len(),
            p.reads(reply),
            reply.xid == be32_at(buf@, 4),
            reply.yiaddr == Ipv4Addr::at(buf@, 16),
            reply.siaddr == Ipv4Addr::at(buf@, 20),
            reply.chaddr == buf@.subrange(28, 34),
            options_at(buf@, 240, Seq::empty()) == options_at(buf@, at as int, reply.options),
            buf@[0] == OP_REPLY,
            buf@.subrange(236, 240) == magic_cookie(),
        decreases buf@.len() - at,
    {
        let code: u8 = buf[at];
        if code == OPT_PAD {
            at = at + 1;
            continue ;
        }
        let room: usize = buf.len() - at;
        if room < 2 {
            return Err(Error::Truncated);
        }
        let len: usize = buf[at + 1] as usize;
        if room - 2 < len {
            return Err(Error::Truncated);
        }
        let data = slice_subrange(buf, at + 2, at + 2 + len);
        p.take_option(code, data, Ghost(reply));
        proof {
            reply = Reply { options: reply.options.push((code, data@)), ..reply };
        }
        at = at + 2 + len;
    }
    if p.message_type == 0 {
        return Err(Error::Malformed("no DHCP message type"));
    }
    Ok(p)
}

/// One option as it stands on the wire.
pub open spec fn option(code: u8, data: Seq<u8>) -> Seq<u8> {
    seq![code, data.len() as u8] + data
}

/// The option, where there is a value for it.
pub open spec fn maybe_option(code: u8, ip: Option<Ipv4Addr>) -> Seq<u8> {
    match ip {
        Some(ip) => option(code, ip.bytes()),
        None => Seq::empty(),
    }
}

/// The options we ask a server for.
pub open spec fn wanted() -> Seq<u8> {
    seq![
        OPT_SUBNET_MASK,
        OPT_ROUTER,
        OPT_DNS,
        OPT_DOMAIN_NAME,
        OPT_INTERFACE_MTU,
        OPT_LEASE_TIME,
        OPT_RENEWAL_TIME,
    ]
}

/// Whether a message of this type asks for options.
pub open spec fn asks_for_options(message_type: u8) -> bool {
    message_type == DISCOVER || message_type == REQUEST
}

/// The fixed header up to the options. Broadcast replies are asked for as long as
/// there is no address to receive unicast at.
pub open spec fn fixed_header(mac: Seq<u8>, xid: u32, ciaddr: Ipv4Addr) -> Seq<u8> {
    seq![OP_REQUEST, HTYPE_ETHERNET, 6u8, 0u8] + be32(xid) + be16(0) + be16(
        if ciaddr.is_unspecified() {
            FLAG_BROADCAST
        } else {
            0
        },
    ) + ciaddr.bytes() + zeros(12) + mac + zeros(202) + magic_cookie()
}

/// The options of a client message, closed by the end option.
pub open spec fn client_options(
    mac: Seq<u8>,
    message_type: u8,
    requested_ip: Option<Ipv4Addr>,
    server_id: Option<Ipv4Addr>,
) -> Seq<u8> {
    option(OPT_MESSAGE_TYPE, seq![message_type]) + option(
        OPT_CLIENT_ID,
        seq![HTYPE_ETHERNET] + mac,
    ) + maybe_option(OPT_REQUESTED_IP, requested_ip) + maybe_option(OPT_SERVER_ID, server_id) + (
    if asks_for_options(message_type) {
        option(OPT_PARAM_REQUEST, wanted())
    } else {
        Seq::empty()
    }) + seq![OPT_END]
}

/// A client message, zero-padded to the 300-byte minimum some servers still
/// expect.
pub open spec fn client_message(
    mac: Seq<u8>,
    xid: u32,
    message_type: u8,
    ciaddr: Ipv4Addr,
    requested_ip: Option<Ipv4Addr>,
    server_id: Option<Ipv4Addr>,
) -> Seq<u8> {
    let m = fixed_header(mac, xid, ciaddr) + client_options(
        mac,
        message_type,
        requested_ip,
        server_id,
    );
    if m.len() < 300 {
        m + zeros((300 - m.len()) as nat)
    } else {
        m
    }
}

/// What a client knows.
#[verifier::ext_equal]
pub struct ClientState {
    pub mac: Seq<u8>,
    pub xid: u32,
    pub state: State,
    pub offered: Option<Ipv4Addr>,
    pub server_id: Option<Ipv4Addr>,
    pub lease: Option<LeaseView>,
}

/// The transaction id after `xid`.
pub open spec fn next_xid(xid: u32) -> u32 {
    ((xid * 1_664_525 + 1_013_904_223) % 0x1_0000_0000) as u32
}

/// The lease an acknowledgement grants. Android's tether server is also the
/// gateway, so it stands in for a missing router option.
pub open spec fn lease_from(reply: Reply, chosen: Option<Ipv4Addr>) -> Result<LeaseView> {
    if reply.yiaddr.is_unspecified() {
        Err(Error::Malformed("ACK without an address"))
    } else {
        let server_id = match (reply.address(OPT_SERVER_ID), chosen) {
            (Some(id), _) => id,
            (None, Some(id)) => id,
            (None, None) => reply.siaddr,
        };
        let lease_time = match reply.span(OPT_LEASE_TIME) {
            Some(t) => t,
            None => secs(3600),
        };
        Ok(
            LeaseView {
                ip: reply.yiaddr,
                netmask: match reply.address(OPT_SUBNET_MASK) {
                    Some(mask) => mask,
                    None => Ipv4Addr { bits: 0xFFFF_FF00 },
                },
                router: match reply.address(OPT_ROUTER) {
                    Some(router) => Some(router),
                    None => if server_id.is_unspecified() {
                        None
                    } else {
                        Some(server_id)
                    },
                },
                dns: reply.dns(),
                domain: reply.domain(),
                mtu: reply.mtu(),
                server_id,
                lease_time,
                renewal_time: match reply.span(OPT_RENEWAL_TIME) {
                    Some(t) => t,
                    None => Duration { nanos: lease_time.nanos / 2 },
                },
            },
        )
    }
}

impl ClientState {
    /// A message from this client.
    pub open spec fn message(
        self,
        message_type: u8,
        ciaddr: Ipv4Addr,
        requested_ip: Option<Ipv4Addr>,
        server_id: Option<Ipv4Addr>,
    ) -> Seq<u8> {
        client_message(self.mac, self.xid, message_type, ciaddr, requested_ip, server_id)
    }

    /// After starting discovery: no offer, and a fresh transaction id that keeps
    /// stale replies from matching.
    pub open spec fn discovering(self) -> ClientState {
        ClientState {
            state: State::Selecting,
            offered: None,
            server_id: None,
            xid: next_xid(self.xid),
            ..self
        }
    }

    /// The DISCOVER this client broadcasts.
    pub open spec fn discover_message(self) -> Seq<u8> {
        self.message(DISCOVER, Ipv4Addr::unspecified(), None, None)
    }

    /// The REQUEST that takes up an offer.
    pub open spec fn request_message(self) -> Seq<u8> {
        self.message(REQUEST, Ipv4Addr::unspecified(), self.offered, self.server_id)
    }

    /// What the current state is waiting on an answer to.
    pub open spec fn pending(self) -> Option<Seq<u8>> {
        match self.state {
            State::Selecting => Some(self.discover_message()),
            State::Requesting => Some(self.request_message()),
            State::Renewing => match self.lease {
                Some(lease) => Some(self.message(REQUEST, lease.ip, None, None)),
                None => None,
            },
            State::Init | State::Bound => None,
        }
    }

    /// Asking to extend the lease: what is sent, and the client after it.
    pub open spec fn renewing(self) -> (Option<Seq<u8>>, ClientState) {
        match self.lease {
            Some(lease) => (
                Some(self.message(REQUEST, lease.ip, None, None)),
                ClientState { state: State::Renewing, ..self },
            ),
            None => (None, self),
        }
    }

    /// Giving the lease back. RELEASE carries no requested-IP option; ciaddr
    /// identifies the lease.
    pub open spec fn releasing(self) -> (Option<Seq<u8>>, ClientState) {
        match self.lease {
            Some(lease) => (
                Some(self.message(RELEASE, lease.ip, None, Some(lease.server_id))),
                ClientState { state: State::Init, lease: None, ..self },
            ),
            None => (None, self),
        }
    }

    /// Turning an offer down.
    pub open spec fn declining(self) -> (Option<Seq<u8>>, ClientState) {
        match self.offered {
            Some(ip) => (
                Some(self.message(DECLINE, Ipv4Addr::unspecified(), Some(ip), self.server_id)),
                ClientState { state: State::Init, ..self },
            ),
            None => (None, self),
        }
    }

    /// Whether a reply belongs to this client's transaction.
    pub open spec fn is_for_us(self, reply: Reply) -> bool {
        reply.xid == self.xid && reply.chaddr == self.mac
    }

    /// What a reply does to the client.
    pub open spec fn answer(self, reply: Reply) -> (Result<EventView>, ClientState) {
        let t = reply.message_type();
        let asking = self.state == State::Requesting || self.state == State::Renewing;
        if !self.is_for_us(reply) {
            (Ok(EventView::Ignored), self)
        } else if self.state == State::Selecting && t == OFFER {
            let after = ClientState {
                offered: Some(reply.yiaddr),
                server_id: reply.address(OPT_SERVER_ID),
                state: State::Requesting,
                ..self
            };
            (Ok(EventView::Send(after.request_message())), after)
        } else if asking && t == ACK {
            match lease_from(reply, self.server_id) {
                Err(e) => (Err(e), self),
                Ok(lease) => (
                    Ok(EventView::Bound(lease)),
                    ClientState { state: State::Bound, lease: Some(lease), ..self },
                ),
            }
        } else if asking && t == NAK {
            (
                Ok(EventView::Nak),
                ClientState { state: State::Init, lease: None, offered: None, ..self },
            )
        } else {
            (Ok(EventView::Ignored), self)
        }
    }

    /// What a received message does to the client.
    pub open spec fn hear(self, msg: Seq<u8>) -> (Result<EventView>, ClientState) {
        match reply_in(msg) {
            Err(e) => (Err(e), self),
            Ok(reply) => self.answer(reply),
        }
    }

    /// What every client keeps: a lease while one is in use, and an offer while
    /// one is being taken up.
    pub open spec fn valid(self) -> bool {
        &&& self.state == State::Bound || self.state == State::Renewing ==> self.lease is Some
        &&& self.state == State::Requesting ==> self.offered is Some
    }
}

pub struct DhcpClient {
    mac: MacAddr,
    xid: u32,
    state: State,
    /// The address we are trying to get, carried from OFFER into REQUEST.
    offered: Option<Ipv4Addr>,
    server_id: Option<Ipv4Addr>,
    lease: Option<Lease>,
}

/// A lease that may be absent, as plain values.
pub open spec fn lease_of(l: Option<Lease>) -> Option<LeaseView> {
    match l {
        Some(l) => Some(l@),
        None => None,
    }
}

/// A message that may be absent, as its bytes.
pub open spec fn message_of(m: Option<Vec<u8>>) -> Option<Seq<u8>> {
    match m {
        Some(m) => Some(m@),
        None => None,
    }
}

/// What came of a message, as plain values.
pub open spec fn outcome_of(r: Result<Event>) -> Result<EventView> {
    match r {
        Ok(e) => Ok(e@),
        Err(e) => Err(e),
    }
}

impl View for DhcpClient {
    type V = ClientState;

    closed spec fn view(&self) -> ClientState {
        ClientState {
            mac: self.mac@,
            xid: self.xid,
            state: self.state,
            offered: self.offered,
            server_id: self.server_id,
            lease: lease_of(self.lease),
        }
    }
}

impl DhcpClient {
    /// `xid` should be random per client so replies can be matched.
    pub fn new(mac: MacAddr, xid: u32) -> (r: Self)
        ensures
            r@ == (ClientState {
                mac: mac@,
                xid,
                state: State::Init,
                offered: None,
                server_id: None,
                lease: None,
            }),
    {
        DhcpClient { mac, xid, state: State::Init, offered: None, server_id: None, lease: None }
    }

    pub fn state(&self) -> (r: State)
        ensures
            r == self@.state,
    {
        self.state
    }

    pub fn lease(&self) -> (r: Option<&Lease>)
        ensures
            match r {
                Some(lease) => self@.lease == Some(lease@),
                None => self@.lease is None,
            },
    {
        self.lease.as_ref()
    }

    /// The id of the transaction under way.
    pub fn xid(&self) -> (r: u32)
        ensures
            r == self@.xid,
    {
        self.xid
    }

    /// Begin (or restart) discovery.
    pub fn discover(&mut self) -> (m: Vec<u8>)
        ensures
            final(self)@ == old(self)@.discovering(),
            m@ == final(self)@.discover_message(),
    {
        self.state = State::Selecting;
        self.offered = None;
        self.server_id = None;
        // A fresh transaction id keeps stale replies from matching.
        self.xid =
        ((self.xid as u64 * 1_664_525 + 1_013_904_223) % 0x1_0000_0000) as u32;
        self.build(DISCOVER, Ipv4Addr::unspecified(), None, None)
    }

    /// Re-send whatever the current state is waiting on.
    pub fn retransmit(&mut self) -> (m: Option<Vec<u8>>)
        ensures
            final(self)@ == old(self)@,
            message_of(m) == old(self)@.pending(),
    {
        match self.state {
            State::Selecting => Some(self.build(DISCOVER, Ipv4Addr::unspecified(), None, None)),
            State::Requesting => Some(
                self.build(REQUEST, Ipv4Addr::unspecified(), self.offered, self.server_id),
            ),
            State::Renewing => {
                let ip = self.lease.as_ref()?.ip;
                Some(self.build(REQUEST, ip, None, None))
            },
            State::Init | State::Bound => None,
        }
    }

    /// Unicast REQUEST to extend the current lease.
    pub fn renew(&mut self) -> (m: Option<Vec<u8>>)
        ensures
            (message_of(m), final(self)@) == old(self)@.renewing(),
    {
        let ip = self.lease.as_ref()?.ip;
        self.state = State::Renewing;
        Some(self.build(REQUEST, ip, None, None))
    }

    /// Tell the server we are done. Best effort; no reply is expected.
    pub fn release(&mut self) -> (m: Option<Vec<u8>>)
        ensures
            (message_of(m), final(self)@) == old(self)@.releasing(),
    {
        let lease = self.lease.take()?;
        self.state = State::Init;
        // RELEASE carries no requested-IP option; ciaddr identifies the lease.
        Some(self.build(RELEASE, lease.ip, None, Some(lease.server_id)))
    }

    /// Tell the server the offered address is unusable (e.g. already in use).
    pub fn decline(&mut self) -> (m: Option<Vec<u8>>)
        ensures
            (message_of(m), final(self)@) == old(self)@.declining(),
    {
        let ip = self.offered?;
        let server = self.server_id;
        self.state = State::Init;
        Some(self.build(DECLINE, Ipv4Addr::unspecified(), Some(ip), server))
    }

    /// Take in a received message.
    pub fn handle(&mut self, msg: &[u8]) -> (r: Result<Event>)
        ensures
            (outcome_of(r), final(self)@) == old(self)@.hear(msg@),
    {
        let parsed = parse(msg)?;
        let ghost reply = reply_in(msg@)->Ok_0;
        if parsed.xid != self.xid || parsed.chaddr != self.mac {
            return Ok(Event::Ignored);
        }
        let asking = self.state == State::Requesting || self.state == State::Renewing;
        if self.state == State::Selecting && parsed.message_type == OFFER {
            self.offered = Some(parsed.yiaddr);
            self.server_id = parsed.server_id;
            self.state = State::Requesting;
            let request = self.build(
                REQUEST,
                Ipv4Addr::unspecified(),
                Some(parsed.yiaddr),
                parsed.server_id,
            );
            Ok(Event::Send(request))
        } else if asking && parsed.message_type == ACK {
            let lease = self.lease_from(parsed, Ghost(reply))?;
            self.state = State::Bound;
            self.lease = Some(lease.clone());
            Ok(Event::Bound(Box::new(lease)))
        } else if asking && parsed.message_type == NAK {
            self.state = State::Init;
            self.lease = None;
            self.offered = None;
            Ok(Event::Nak)
        } else {
            Ok(Event::Ignored)
        }
    }

    fn lease_from(&self, p: Parsed, reply: Ghost<Reply>) -> (r: Result<Lease>)
        requires
            p.reads(reply@),
        ensures
            match r {
                Ok(lease) => lease_from(reply@, self@.server_id) == Ok::<_, Error>(lease@),
                Err(e) => lease_from(reply@, self@.server_id) == Err::<LeaseView, _>(e),
            },
    {
        if p.yiaddr.is_unspecified() {
            return Err(Error::Malformed("ACK without an address"));
        }
        let server_id = match (p.server_id, self.server_id) {
            (Some(id), _) => id,
            (None, Some(id)) => id,
            (None, None) => p.siaddr,
        };
        // Android's tether server is also the gateway; fall back to it when the
        // router option is missing.
        let router = match p.router {
            Some(router) => Some(router),
            None => if server_id.is_unspecified() {
                None
            } else {
                Some(server_id)
            },
        };
        let netmask = match p.netmask {
            Some(mask) => mask,
            None => Ipv4Addr { bits: 0xFFFF_FF00 },
        };
        let lease_time = match p.lease_time {
            Some(t) => t,
            None => Duration::from_secs(3600),
        };
        let renewal_time = match p.renewal_time {
            Some(t) => t,
            None => Duration { nanos: lease_time.nanos / 2 },
        };
        Ok(
            Lease {
                ip: p.yiaddr,
                netmask,
                router,
                dns: p.dns,
                domain: p.domain,
                mtu: p.mtu,
                server_id,
                lease_time,
                renewal_time,
            },
        )
    }

    fn build(
        &self,
        message_type: u8,
        ciaddr: Ipv4Addr,
        requested_ip: Option<Ipv4Addr>,
        server_id: Option<Ipv4Addr>,
    ) -> (m: Vec<u8>)
        ensures
            m@ == self@.message(message_type, ciaddr, requested_ip, server_id),
    {
        let mut m = self.header(ciaddr);
        self.put_options(&mut m, message_type, requested_ip, server_id);
        // Pad to the 300-byte minimum some servers still expect.
        if m.len() < 300 {
            let missing: usize = 300 - m.len();
            put_zeros(&mut m, missing);
        }
        m
    }

    /// The fixed header and the magic cookie.
    fn header(&self, ciaddr: Ipv4Addr) -> (m: Vec<u8>)
        ensures
            m@ == fixed_header(self@.mac, self@.xid, ciaddr),
    {
        let mut m: Vec<u8> = Vec::new();
        m.push(OP_REQUEST);
        m.push(HTYPE_ETHERNET);
        m.push(6);  // hardware address length
        m.push(0);  // hops
        put_be32(&mut m, self.xid);
        put_be16(&mut m, 0);  // secs
        // Ask for broadcast replies: we have no address to receive unicast at
        // until the lease is bound.
        let flags: u16 = if ciaddr.is_unspecified() {
            FLAG_BROADCAST
        } else {
            0
        };
        put_be16(&mut m, flags);
        put_bytes(&mut m, &ciaddr.octets());
        put_zeros(&mut m, 12);  // yiaddr, siaddr, giaddr
        put_bytes(&mut m, self.mac.as_bytes());
        put_zeros(&mut m, 202);  // chaddr padding, sname, file
        m.push(0x63);
        m.push(0x82);
        m.push(0x53);
        m.push(0x63);
        assert(m@ =~= fixed_header(self@.mac, self@.xid, ciaddr));
        m
    }

    fn put_options(
        &self,
        m: &mut Vec<u8>,
        message_type: u8,
        requested_ip: Option<Ipv4Addr>,
        server_id: Option<Ipv4Addr>,
    )
        ensures
            final(m)@ == old(m)@ + client_options(
                self@.mac,
                message_type,
                requested_ip,
                server_id,
            ),
    {
        let kind: [u8; 1] = [message_type];
        assert(kind@ =~= seq![message_type]);
        push_option(m, OPT_MESSAGE_TYPE, &kind);
        let mut client_id: Vec<u8> = Vec::new();
        client_id.push(HTYPE_ETHERNET);
        put_bytes(&mut client_id, self.mac.as_bytes());
        assert(client_id@ =~= seq![HTYPE_ETHERNET] + self@.mac);
        push_option(m, OPT_CLIENT_ID, client_id.as_slice());
        if let Some(ip) = requested_ip {
            push_option(m, OPT_REQUESTED_IP, &ip.octets());
        }
        if let Some(ip) = server_id {
            push_option(m, OPT_SERVER_ID, &ip.octets());
        }
        if message_type == DISCOVER || message_type == REQUEST {
            let params: [u8; 7] = [
                OPT_SUBNET_MASK,
                OPT_ROUTER,
                OPT_DNS,
                OPT_DOMAIN_NAME,
                OPT_INTERFACE_MTU,
                OPT_LEASE_TIME,
                OPT_RENEWAL_TIME,
            ];
            assert(params@ =~= wanted());
            push_option(m, OPT_PARAM_REQUEST, &params);
        }
        m.push(OPT_END);
        assert(m@ =~= old(m)@ + client_options(
            self@.mac,
            message_type,
            requested_ip,
            server_id,
        ));
    }
}

fn push_option(m: &mut Vec<u8>, code: u8, data: &[u8])
    requires
        data@.len() <= 255,
    ensures
        final(m)@ == old(m)@ + option(code, data@),
{
    m.push(code);
    m.push(data.len() as u8);
    put_bytes(m, data);
    assert(m@ =~= old(m)@ + option(code, data@));
}

/// Whatever a client does or hears, it keeps a lease while one is in use and an
/// offer while one is being taken up.
pub proof fn every_step_keeps_the_client_valid(st: ClientState, msg: Seq<u8>)
    requires
        st.valid(),
    ensures
        st.discovering().valid(),
        st.renewing().1.valid(),
        st.releasing().1.valid(),
        st.declining().1.valid(),
        st.hear(msg).1.valid(),
{
}

/// A new discovery never reuses the transaction id before it.
pub proof fn discovery_uses_a_fresh_id(st: ClientState)
    ensures
        st.discovering().xid != st.xid,
{
    let x = st.xid as int;
    let sum = x * 1_664_525 + 1_013_904_223;
    let k = sum / 0x1_0000_0000;
    assert(sum == k * 0x1_0000_0000 + sum % 0x1_0000_0000);
    if sum % 0x1_0000_0000 == x {
        assert(1_664_524 * x + 1_013_904_223 == k * 0x1_0000_0000);
        assert((1_664_524 * x + 1_013_904_223) % 2 == 1);
    }
}

/// A reply to another transaction, or to another client, changes nothing.
pub proof fn foreign_replies_are_ignored(st: ClientState, msg: Seq<u8>)
    requires
        reply_in(msg) is Ok,
        reply_in(msg)->Ok_0.xid != st.xid || reply_in(msg)->Ok_0.chaddr != st.mac,
    ensures
        st.hear(msg) == (Ok::<_, Error>(EventView::Ignored), st),
{
}

/// A message that cannot be read changes nothing.
pub proof fn unreadable_messages_change_nothing(st: ClientState, msg: Seq<u8>)
    requires
        st.hear(msg).0 is Err,
    ensures
        st.hear(msg).1 == st,
{
}

/// A refusal while a request is out drops the lease and starts over.
pub proof fn refusal_drops_the_lease(st: ClientState, msg: Seq<u8>)
    requires
        st.state == State::Requesting || st.state == State::Renewing,
        reply_in(msg) is Ok,
        st.is_for_us(reply_in(msg)->Ok_0),
        reply_in(msg)->Ok_0.message_type() == NAK,
    ensures
        st.hear(msg).0 == Ok::<_, Error>(EventView::Nak),
        st.hear(msg).1.state == State::Init,
        st.hear(msg).1.lease is None,
        st.hear(msg).1.offered is None,
{
}

/// Releasing gives the lease up; doing it twice does nothing more.
pub proof fn releasing_twice_does_nothing_more(st: ClientState)
    ensures
        st.releasing().1.lease is None,
        st.releasing().1.releasing() == (None::<Seq<u8>>, st.releasing().1),
{
}

/// There is something to retransmit exactly while an answer is outstanding.
pub proof fn only_the_pending_message_is_repeated(st: ClientState)
    requires
        st.valid(),
    ensures
        st.pending() is Some <==> st.state == State::Selecting || st.state == State::Requesting
            || st.state == State::Renewing,
        st.discovering().pending() == Some(st.discovering().discover_message()),
        st.renewing().0 is Some ==> st.renewing().1.pending() == st.renewing().0,
{
}

/// DISCOVER, OFFER, REQUEST, ACK: a client that starts discovery and gets an offer
/// and an acknowledgement for its transaction asks for what was offered, by the
/// server that offered it, and ends up bound to the address acknowledged.
pub proof fn four_way_exchange_binds(st: ClientState, offer: Seq<u8>, ack: Seq<u8>)
    requires
        ({
            let selecting = st.discovering();
            &&& reply_in(offer) is Ok
            &&& selecting.is_for_us(reply_in(offer)->Ok_0)
            &&& reply_in(offer)->Ok_0.message_type() == OFFER
            &&& reply_in(ack) is Ok
            &&& selecting.is_for_us(reply_in(ack)->Ok_0)
            &&& reply_in(ack)->Ok_0.message_type() == ACK
            &&& !reply_in(ack)->Ok_0.yiaddr.is_unspecified()
        }),
    ensures
        ({
            let selecting = st.discovering();
            let offered = reply_in(offer)->Ok_0;
            let requesting = selecting.hear(offer).1;
            let bound = requesting.hear(ack).1;
            &&& selecting.hear(offer).0 == Ok::<_, Error>(
                EventView::Send(
                    selecting.message(
                        REQUEST,
                        Ipv4Addr::unspecified(),
                        Some(offered.yiaddr),
                        offered.address(OPT_SERVER_ID),
                    ),
                ),
            )
            &&& requesting.state == State::Requesting
            &&& bound.state == State::Bound
            &&& bound.lease is Some
            &&& bound.lease->0.ip == reply_in(ack)->Ok_0.yiaddr
            &&& requesting.hear(ack).0 == Ok::<_, Error>(EventView::Bound(bound.lease->0))
        }),
{
}

/// A renewal that is acknowledged with an address leaves the client bound again.
pub proof fn renewal_rebinds(st: ClientState, ack: Seq<u8>)
    requires
        st.renewing().0 is Some,
        reply_in(ack) is Ok,
        st.is_for_us(reply_in(ack)->Ok_0),
        reply_in(ack)->Ok_0.message_type() == ACK,
        !reply_in(ack)->Ok_0.yiaddr.is_unspecified(),
    ensures
        st.renewing().1.hear(ack).1.state == State::Bound,
        st.renewing().1.hear(ack).1.lease is Some,
        st.renewing().1.hear(ack).1.lease->0.ip == reply_in(ack)->Ok_0.yiaddr,
{
}

/// Every lease has an address, a server that stands in as the gateway where no
/// router is named, and an hour where no time is given.
pub proof fn leases_have_sane_defaults(reply: Reply, chosen: Option<Ipv4Addr>)
    requires
        lease_from(reply, chosen) is Ok,
    ensures
        ({
            let lease = lease_from(reply, chosen)->Ok_0;
            &&& !lease.ip.is_unspecified()
            &&& reply.address(OPT_ROUTER) is None && !lease.server_id.is_unspecified()
                ==> lease.router == Some(lease.server_id)
            &&& reply.span(OPT_LEASE_TIME) is None ==> lease.lease_time == secs(3600)
            &&& reply.span(OPT_RENEWAL_TIME) is None ==> lease.renewal_time.nanos
                == lease.lease_time.nanos / 2
        }),
{
}

/// The options a client message carries, in order.
pub open spec fn carried(
    mac: Seq<u8>,
    message_type: u8,
    requested_ip: Option<Ipv4Addr>,
    server_id: Option<Ipv4Addr>,
) -> Seq<(u8, Seq<u8>)> {
    seq![
        (OPT_MESSAGE_TYPE, seq![message_type]),
        (OPT_CLIENT_ID, seq![HTYPE_ETHERNET] + mac),
    ] + (match requested_ip {
        Some(ip) => seq![(OPT_REQUESTED_IP, ip.bytes())],
        None => Seq::empty(),
    }) + (match server_id {
        Some(ip) => seq![(OPT_SERVER_ID, ip.bytes())],
        None => Seq::empty(),
    }) + (if asks_for_options(message_type) {
        seq![(OPT_PARAM_REQUEST, wanted())]
    } else {
        Seq::empty()
    })
}

/// Every client message is 300 bytes long, and reading its options gives back the
/// type, the client id, the requested address, the server and the list of options
/// asked for.
pub proof fn client_messages_carry_their_options(
    mac: Seq<u8>,
    xid: u32,
    message_type: u8,
    ciaddr: Ipv4Addr,
    requested_ip: Option<Ipv4Addr>,
    server_id: Option<Ipv4Addr>,
)
    requires
        mac.len() == 6,
    ensures
        client_message(mac, xid, message_type, ciaddr, requested_ip, server_id).len() == 300,
        options_at(
            client_message(mac, xid, message_type, ciaddr, requested_ip, server_id),
            240,
            Seq::empty(),
        ) == Ok::<_, Error>(carried(mac, message_type, requested_ip, server_id)),
{
    let h = fixed_header(mac, xid, ciaddr);
    let kind = option(OPT_MESSAGE_TYPE, seq![message_type]);
    let id = option(OPT_CLIENT_ID, seq![HTYPE_ETHERNET] + mac);
    let ip = maybe_option(OPT_REQUESTED_IP, requested_ip);
    let server = maybe_option(OPT_SERVER_ID, server_id);
    let params = if asks_for_options(message_type) {
        option(OPT_PARAM_REQUEST, wanted())
    } else {
        Seq::empty()
    };
    let end = seq![OPT_END];
    let m = client_message(mac, xid, message_type, ciaddr, requested_ip, server_id);
    assert(h.len() == 240);
    assert(kind.len() == 3 && id.len() == 9 && params.len() <= 9);
    assert(ip.len() <= 6 && server.len() <= 6);
    let pad = zeros((300 - (h + client_options(mac, message_type, requested_ip, server_id)).len()) as nat);
    let opts = carried(mac, message_type, requested_ip, server_id);

    let r5 = end + pad;
    let r4 = params + r5;
    let r3 = server + r4;
    let r2 = ip + r3;
    let r1 = id + r2;
    let none = Seq::<(u8, Seq<u8>)>::empty();
    assert(m =~= h + (kind + r1));
    lemma_option_read(h, OPT_MESSAGE_TYPE, seq![message_type], r1, none);
    let a1 = none.push((OPT_MESSAGE_TYPE, seq![message_type]));
    let h1 = h + kind;
    lemma_option_read(h1, OPT_CLIENT_ID, seq![HTYPE_ETHERNET] + mac, r2, a1);
    let a2 = a1.push((OPT_CLIENT_ID, seq![HTYPE_ETHERNET] + mac));
    let h2 = h1 + id;
    let a3 = match requested_ip {
        Some(addr) => a2.push((OPT_REQUESTED_IP, addr.bytes())),
        None => a2,
    };
    let h3 = h2 + ip;
    match requested_ip {
        Some(addr) => lemma_option_read(h2, OPT_REQUESTED_IP, addr.bytes(), r3, a2),
        None => {
            assert(h3 =~= h2);
            assert(r2 =~= r3);
        },
    }
    let a4 = match server_id {
        Some(addr) => a3.push((OPT_SERVER_ID, addr.bytes())),
        None => a3,
    };
    let h4 = h3 + server;
    match server_id {
        Some(addr) => lemma_option_read(h3, OPT_SERVER_ID, addr.bytes(), r4, a3),
        None => {
            assert(h4 =~= h3);
            assert(r3 =~= r4);
        },
    }
    let h5 = h4 + params;
    if asks_for_options(message_type) {
        lemma_option_read(h4, OPT_PARAM_REQUEST, wanted(), r5, a4);
        assert(opts =~= a4.push((OPT_PARAM_REQUEST, wanted())));
    } else {
        assert(h5 =~= h4);
        assert(r4 =~= r5);
        assert(opts =~= a4);
    }
    assert(options_at(h5 + r5, h5.len() as int, opts) == Ok::<_, Error>(opts));
}

/// One option in front of the reader is read, and the reader stands behind it.
proof fn lemma_option_read(
    before: Seq<u8>,
    code: u8,
    data: Seq<u8>,
    rest: Seq<u8>,
    acc: Seq<(u8, Seq<u8>)>,
)
    requires
        code != OPT_PAD,
        code != OPT_END,
        data.len() <= 255,
    ensures
        options_at(before + (option(code, data) + rest), before.len() as int, acc) == options_at(
            (before + option(code, data)) + rest,
            (before + option(code, data)).len() as int,
            acc.push((code, data)),
        ),
{
    let buf = before + (option(code, data) + rest);
    let at = before.len() as int;
    let end = at + 2 + data.len();
    assert(buf =~= (before + option(code, data)) + rest);
    assert(buf[at] == code);
    assert(buf[at + 1] == data.len());
    assert(buf.subrange(at + 2, end) =~= data);
    assert((before + option(code, data)).len() == end);
}

/// A REQUEST that renews a lease comes from the leased address and does not ask for
/// a broadcast reply; one without an address does.
pub proof fn requests_say_where_to_reply(
    mac: Seq<u8>,
    xid: u32,
    message_type: u8,
    ciaddr: Ipv4Addr,
    requested_ip: Option<Ipv4Addr>,
    server_id: Option<Ipv4Addr>,
)
    requires
        mac.len() == 6,
    ensures
        ({
            let m = client_message(mac, xid, message_type, ciaddr, requested_ip, server_id);
            &&& be32_at(m, 4) == xid
            &&& be16_at(m, 10) == (if ciaddr.is_unspecified() {
                FLAG_BROADCAST
            } else {
                0
            })
            &&& m.subrange(12, 16) == ciaddr.bytes()
        }),
{
    let m = client_message(mac, xid, message_type, ciaddr, requested_ip, server_id);
    let h = fixed_header(mac, xid, ciaddr);
    let flags: u16 = if ciaddr.is_unspecified() {
        FLAG_BROADCAST
    } else {
        0
    };
    crate::bytes::lemma_be32_read_back(xid);
    crate::bytes::lemma_be16_read_back(flags);
    assert(forall|i: int| 0 <= i < 240 ==> m[i] == h[i]);
    assert(h[4] == be32(xid)[0] && h[5] == be32(xid)[1] && h[6] == be32(xid)[2] && h[7] == be32(
        xid,
    )[3]);
    assert(h[10] == be16(flags)[0] && h[11] == be16(flags)[1]);
    assert(m.subrange(12, 16) =~= ciaddr.bytes());
}

/// What is said of a lease and of an event is what stands in it.
pub proof fn leases_and_events_show_all_they_hold(lease: Lease, bytes: Vec<u8>, boxed: Box<Lease>)
    ensures
        lease@.ip == lease.ip,
        lease@.netmask == lease.netmask,
        lease@.router == lease.router,
        lease@.dns == lease.dns@,
        lease@.domain == text_of(lease.domain),
        lease@.mtu == lease.mtu,
        lease@.server_id == lease.server_id,
        lease@.lease_time == lease.lease_time,
        lease@.renewal_time == lease.renewal_time,
        Event::Ignored@ is Ignored,
        Event::Nak@ is Nak,
        Event::Send(bytes)@ == EventView::Send(bytes@),
        Event::Bound(boxed)@ == EventView::Bound((*boxed)@),
{
}

} // verus!
