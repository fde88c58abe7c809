//! ARP: we answer requests for our own address and resolve the gateway's MAC.
//!
//! The daemon owns both sides of ARP because utun never sees layer 2.

use std::collections::HashMap;

use vstd::prelude::*;

use crate::addr::Ipv4Addr;
use crate::bytes::{
    be16, be16_at, get_be16, lemma_be16_read_back, lemma_be32_bytes_of_read, lemma_be32_read_back,
    put_be16, put_bytes,
};
use crate::netstack::error::{Error, Result};
use crate::netstack::ethernet;
use crate::netstack::ethernet::{
    built_frame_round_trips, dissect, padded, unpadded, MacAddr, ETHERTYPE_ARP, ETHERTYPE_IPV4,
};
use crate::time::{secs, Clock, Duration, Instant};

verus! {

broadcast use vstd::std_specs::hash::group_hash_axioms;

pub const OP_REQUEST: u16 = 1;

pub const OP_REPLY: u16 = 2;

const HTYPE_ETHERNET: u16 = 1;

const PACKET_LEN: usize = 28;

/// How long a learned mapping stays valid.
pub open spec fn entry_ttl() -> Duration {
    secs(300)
}

/// Minimum gap between repeat requests for the same address.
pub open spec fn retry_interval() -> Duration {
    secs(1)
}

#[derive(Clone, Copy, Debug, PartialEq, Eq)]
pub struct ArpPacket {
    pub op: u16,
    pub sender_mac: MacAddr,
    pub sender_ip: Ipv4Addr,
    pub target_mac: MacAddr,
    pub target_ip: Ipv4Addr,
}

/// A packet's fields.
#[verifier::ext_equal]
pub struct ArpPacketView {
    pub op: u16,
    pub sender_mac: Seq<u8>,
    pub sender_ip: Ipv4Addr,
    pub target_mac: Seq<u8>,
    pub target_ip: Ipv4Addr,
}

impl View for ArpPacket {
    type V = ArpPacketView;

    open spec fn view(&self) -> ArpPacketView {
        ArpPacketView {
            op: self.op,
            sender_mac: self.sender_mac@,
            sender_ip: self.sender_ip,
            target_mac: self.target_mac@,
            target_ip: self.target_ip,
        }
    }
}

/// The ARP packet at the start of `buf`, or why there is none.
pub open spec fn arp_in(buf: Seq<u8>) -> Result<ArpPacketView> {
    if buf.len() < 28 {
        Err(Error::Truncated)
    } else if be16_at(buf, 0) != 1 || be16_at(buf, 2) != ETHERTYPE_IPV4 {
        Err(Error::Malformed("not Ethernet/IPv4 ARP"))
    } else if buf[4] != 6 || buf[5] != 4 {
        Err(Error::Malformed("unexpected ARP address sizes"))
    } else {
        Ok(
            ArpPacketView {
                op: be16_at(buf, 6),
                sender_mac: buf.subrange(8, 14),
                sender_ip: Ipv4Addr::at(buf, 14),
                target_mac: buf.subrange(18, 24),
                target_ip: Ipv4Addr::at(buf, 24),
            },
        )
    }
}

pub fn parse(buf: &[u8]) -> (r: Result<ArpPacket>)
    ensures
        match r {
            Ok(p) => arp_in(buf@) == Ok::<_, Error>(p@),
            Err(e) => arp_in(buf@) == Err::<ArpPacketView, _>(e),
        },
{
    if buf.len() < PACKET_LEN {
        return Err(Error::Truncated);
    }
    if get_be16(buf, 0) != HTYPE_ETHERNET || get_be16(buf, 2) != ETHERTYPE_IPV4 {
        return Err(Error::Malformed("not Ethernet/IPv4 ARP"));
    }
    if buf[4] != 6 || buf[5] != 4 {
        return Err(Error::Malformed("unexpected ARP address sizes"));
    }
    let p = ArpPacket {
        op: get_be16(buf, 6),
        sender_mac: MacAddr([buf[8], buf[9], buf[10], buf[11], buf[12], buf[13]]),
        sender_ip: Ipv4Addr::from_slice_at(buf, 14),
        target_mac: MacAddr([buf[18], buf[19], buf[20], buf[21], buf[22], buf[23]]),
        target_ip: Ipv4Addr::from_slice_at(buf, 24),
    };
    assert(p.sender_mac@ =~= buf@.subrange(8, 14));
    assert(p.target_mac@ =~= buf@.subrange(18, 24));
    Ok(p)
}

/// An ARP packet as it stands on the wire.
pub open spec fn arp_bytes(p: ArpPacketView) -> Seq<u8> {
    be16(1) + be16(ETHERTYPE_IPV4) + seq![6u8, 4u8] + be16(p.op) + p.sender_mac
        + p.sender_ip.bytes() + p.target_mac + p.target_ip.bytes()
}

pub fn build(p: &ArpPacket) -> (b: Vec<u8>)
    ensures
        b@ == arp_bytes(p@),
{
    let mut b: Vec<u8> = Vec::new();
    put_be16(&mut b, HTYPE_ETHERNET);
    put_be16(&mut b, ETHERTYPE_IPV4);
    b.push(6);
    b.push(4);
    put_be16(&mut b, p.op);
    put_bytes(&mut b, &p.sender_mac.0);
    put_bytes(&mut b, &p.sender_ip.octets());
    put_bytes(&mut b, &p.target_mac.0);
    put_bytes(&mut b, &p.target_ip.octets());
    assert(b@ =~= arp_bytes(p@));
    b
}

#[derive(Clone, Copy)]
struct Entry {
    mac: MacAddr,
    learned: Instant,
}

/// ARP responder and resolver for one link.
pub struct Arp {
    host_mac: MacAddr,
    host_ip: Ipv4Addr,
    cache: HashMap<u32, Entry>,
    last_request: HashMap<u32, Instant>,
    clock: Clock,
}

/// What an ARP endpoint knows. Addresses are keyed by their bits.
#[verifier::ext_equal]
pub struct ArpState {
    pub host_mac: Seq<u8>,
    pub host_ip: Ipv4Addr,
    /// MAC and time of learning.
    pub cache: Map<u32, (Seq<u8>, Instant)>,
    /// When each address was last asked for.
    pub requested: Map<u32, Instant>,
}

impl ArpState {
    /// The MAC known for `ip` at `now`.
    pub open spec fn known(self, ip: Ipv4Addr, now: Instant) -> Option<Seq<u8>> {
        if self.cache.dom().contains(ip.bits) && now.since(self.cache[ip.bits].1).nanos
            < entry_ttl().nanos {
            Some(self.cache[ip.bits].0)
        } else {
            None
        }
    }

    /// After learning that `ip` is at `mac`.
    pub open spec fn learn(self, ip: Ipv4Addr, mac: Seq<u8>, now: Instant) -> ArpState {
        ArpState { cache: self.cache.insert(ip.bits, (mac, now)), ..self }
    }

    /// The frame that asks everyone for `ip`.
    pub open spec fn request_frame(self, ip: Ipv4Addr) -> Seq<u8> {
        padded(
            unpadded(
                MacAddr::broadcast()@,
                self.host_mac,
                ETHERTYPE_ARP,
                arp_bytes(
                    ArpPacketView {
                        op: OP_REQUEST,
                        sender_mac: self.host_mac,
                        sender_ip: self.host_ip,
                        target_mac: MacAddr::zero()@,
                        target_ip: ip,
                    },
                ),
            ),
        )
    }

    /// Whether `ip` was asked for less than the retry interval ago.
    pub open spec fn asked_recently(self, ip: Ipv4Addr, now: Instant) -> bool {
        self.requested.dom().contains(ip.bits) && now.since(self.requested[ip.bits]).nanos
            < retry_interval().nanos
    }

    /// A request for `ip`, unless one went out a moment ago.
    pub open spec fn ask(self, ip: Ipv4Addr, now: Instant) -> (Option<Seq<u8>>, ArpState) {
        if self.asked_recently(ip, now) {
            (None, self)
        } else {
            (
                Some(self.request_frame(ip)),
                ArpState { requested: self.requested.insert(ip.bits, now), ..self },
            )
        }
    }

    /// The frame that answers `p` with our address.
    pub open spec fn reply_frame(self, p: ArpPacketView) -> Seq<u8> {
        padded(
            unpadded(
                p.sender_mac,
                self.host_mac,
                ETHERTYPE_ARP,
                arp_bytes(
                    ArpPacketView {
                        op: OP_REPLY,
                        sender_mac: self.host_mac,
                        sender_ip: self.host_ip,
                        target_mac: p.sender_mac,
                        target_ip: p.sender_ip,
                    },
                ),
            ),
        )
    }

    /// Whether `p` asks for an address that is ours.
    pub open spec fn is_asked_by(self, p: ArpPacketView) -> bool {
        p.op == OP_REQUEST && p.target_ip == self.host_ip && !self.host_ip.is_unspecified()
    }

    /// What an inbound ARP payload does: the sender is learned unless it is
    /// unspecified or a group address, and a request for our address is answered.
    pub open spec fn hear(self, payload: Seq<u8>, now: Instant) -> (
        Result<Option<Seq<u8>>>,
        ArpState,
    ) {
        match arp_in(payload) {
            Err(e) => (Err(e), self),
            Ok(p) => {
                let after = if p.sender_ip.is_unspecified() || p.sender_mac[0] % 2 == 1 {
                    self
                } else {
                    self.learn(p.sender_ip, p.sender_mac, now)
                };
                if self.is_asked_by(p) {
                    (Ok(Some(self.reply_frame(p))), after)
                } else {
                    (Ok(None), after)
                }
            },
        }
    }
}

/// A frame that may be absent, as its bytes.
pub open spec fn frame_bytes(f: Option<Vec<u8>>) -> Option<Seq<u8>> {
    match f {
        Some(v) => Some(v@),
        None => None,
    }
}

/// A reply that may be absent or an error, as its bytes.
pub open spec fn reply_bytes(r: Result<Option<Vec<u8>>>) -> Result<Option<Seq<u8>>> {
    match r {
        Ok(f) => Ok(frame_bytes(f)),
        Err(e) => Err(e),
    }
}

impl View for Arp {
    type V = ArpState;

    closed spec fn view(&self) -> ArpState {
        ArpState {
            host_mac: self.host_mac@,
            host_ip: self.host_ip,
            cache: self.cache@.map_values(|e: Entry| (e.mac@, e.learned)),
            requested: self.last_request@,
        }
    }
}

impl Arp {
    pub fn new(host_mac: MacAddr, host_ip: Ipv4Addr) -> (r: Self)
        ensures
            r@ == (ArpState {
                host_mac: host_mac@,
                host_ip,
                cache: Map::empty(),
                requested: Map::empty(),
            }),
            call_ensures(std::time::Instant::now, (), r.own_clock().start()),
    {
        let r = Arp {
            host_mac,
            host_ip,
            cache: HashMap::new(),
            last_request: HashMap::new(),
            clock: Clock::new(),
        };
        assert(r@.cache =~= Map::empty());
        r
    }

    /// The clock that the functions without a given moment go by.
    pub closed spec fn own_clock(&self) -> Clock {
        self.clock
    }

    /// That clock, for callers that pass moments of their own.
    pub fn clock(&self) -> (r: Clock)
        ensures
            r == self.own_clock(),
    {
        self.clock
    }

    /// Our address changes when DHCP hands us a lease.
    pub fn set_host_ip(&mut self, ip: Ipv4Addr)
        ensures
            final(self)@ == (ArpState { host_ip: ip, ..old(self)@ }),
            final(self).own_clock() == old(self).own_clock(),
    {
        self.host_ip = ip;
    }

    /// The MAC known for `ip` at this moment.
    pub fn lookup(&self, ip: Ipv4Addr) -> (r: Option<MacAddr>)
        ensures
            exists|now: Instant|
                self.own_clock().reads(now) && #[trigger] self@.known(ip, now) == match r {
                    Some(mac) => Some(mac@),
                    None => None,
                },
    {
        let now = self.clock.now();
        self.lookup_at(ip, now)
    }

    /// The MAC known for `ip` at `now`.
    pub fn lookup_at(&self, ip: Ipv4Addr, now: Instant) -> (r: Option<MacAddr>)
        ensures
            self@.known(ip, now) == match r {
                Some(mac) => Some(mac@),
                None => None,
            },
    {
        match self.cache.get(&ip.bits) {
            Some(e) => {
                let age: Duration = now.duration_since(e.learned);
                if age.nanos < Duration::from_secs(300).nanos {
                    Some(e.mac)
                } else {
                    None
                }
            },
            None => None,
        }
    }

    /// Learn that `ip` is at `mac`, as of this moment.
    pub fn insert(&mut self, ip: Ipv4Addr, mac: MacAddr)
        ensures
            exists|now: Instant|
                old(self).own_clock().reads(now) && final(self)@ == #[trigger] old(self)@.learn(
                    ip,
                    mac@,
                    now,
                ),
            final(self).own_clock() == old(self).own_clock(),
    {
        let now = self.clock.now();
        self.insert_at(ip, mac, now)
    }

    /// Learn that `ip` is at `mac`, as of `now`.
    pub fn insert_at(&mut self, ip: Ipv4Addr, mac: MacAddr, now: Instant)
        ensures
            final(self)@ == old(self)@.learn(ip, mac@, now),
            final(self).own_clock() == old(self).own_clock(),
    {
        self.cache.insert(ip.bits, Entry { mac, learned: now });
        assert(self@.cache =~= old(self)@.learn(ip, mac@, now).cache);
    }

    /// A broadcast ARP request for `ip`, rate-limited to one per second.
    pub fn request(&mut self, ip: Ipv4Addr) -> (r: Option<Vec<u8>>)
        ensures
            exists|now: Instant|
                old(self).own_clock().reads(now) && (frame_bytes(r), final(self)@)
                    == #[trigger] old(self)@.ask(ip, now),
            final(self).own_clock() == old(self).own_clock(),
    {
        let now = self.clock.now();
        self.request_at(ip, now)
    }

    /// A broadcast ARP request for `ip` at `now`, unless one went out less than a
    /// second before.
    pub fn request_at(&mut self, ip: Ipv4Addr, now: Instant) -> (r: Option<Vec<u8>>)
        ensures
            (frame_bytes(r), final(self)@) == old(self)@.ask(ip, now),
            final(self).own_clock() == old(self).own_clock(),
    {
        if let Some(sent) = self.last_request.get(&ip.bits) {
            let gap: Duration = now.duration_since(*sent);
            if gap.nanos < Duration::from_secs(1).nanos {
                return None;
            }
        }
        self.last_request.insert(ip.bits, now);
        let packet = build(
            &ArpPacket {
                op: OP_REQUEST,
                sender_mac: self.host_mac,
                sender_ip: self.host_ip,
                target_mac: MacAddr::zero(),
                target_ip: ip,
            },
        );
        let frame = ethernet::build(
            MacAddr::broadcast(),
            self.host_mac,
            ETHERTYPE_ARP,
            packet.as_slice(),
        );
        assert(self@.cache =~= old(self)@.cache);
        Some(frame)
    }

    /// Handle an inbound ARP payload, learning what it tells us and returning a
    /// reply frame when the request is for our address.
    pub fn handle(&mut self, payload: &[u8]) -> (r: Result<Option<Vec<u8>>>)
        ensures
            exists|now: Instant|
                old(self).own_clock().reads(now) && (reply_bytes(r), final(self)@)
                    == #[trigger] old(self)@.hear(payload@, now),
            final(self).own_clock() == old(self).own_clock(),
    {
        let now = self.clock.now();
        self.handle_at(payload, now)
    }

    /// Handle an ARP payload that came in at `now`.
    pub fn handle_at(&mut self, payload: &[u8], now: Instant) -> (r: Result<Option<Vec<u8>>>)
        ensures
            (reply_bytes(r), final(self)@) == old(self)@.hear(payload@, now),
            final(self).own_clock() == old(self).own_clock(),
    {
        let p = parse(payload)?;

        // Learn from any ARP traffic, as hosts normally do — but never from an
        // unspecified sender, which would poison the cache.
        if !p.sender_ip.is_unspecified() && !p.sender_mac.is_multicast() {
            self.insert_at(p.sender_ip, p.sender_mac, now);
        }
        if p.op != OP_REQUEST || p.target_ip != self.host_ip || self.host_ip.is_unspecified() {
            return Ok(None);
        }
        let reply = build(
            &ArpPacket {
                op: OP_REPLY,
                sender_mac: self.host_mac,
                sender_ip: self.host_ip,
                target_mac: p.sender_mac,
                target_ip: p.sender_ip,
            },
        );
        Ok(
            Some(
                ethernet::build(p.sender_mac, self.host_mac, ETHERTYPE_ARP, reply.as_slice()),
            ),
        )
    }
}

/// Parsing a built packet gives it back, whatever padding follows.
pub proof fn built_packet_round_trips(p: ArpPacketView, rest: Seq<u8>)
    requires
        p.sender_mac.len() == 6,
        p.target_mac.len() == 6,
    ensures
        arp_in(arp_bytes(p) + rest) == Ok::<_, Error>(p),
{
    let b = arp_bytes(p) + rest;
    let s = p.sender_ip.bytes();
    let t = p.target_ip.bytes();
    lemma_be16_read_back(1);
    lemma_be16_read_back(ETHERTYPE_IPV4);
    lemma_be16_read_back(p.op);
    lemma_be32_read_back(p.sender_ip.bits);
    lemma_be32_read_back(p.target_ip.bits);
    assert(b[0] == be16(1)[0] && b[1] == be16(1)[1]);
    assert(b[2] == be16(ETHERTYPE_IPV4)[0] && b[3] == be16(ETHERTYPE_IPV4)[1]);
    assert(b[6] == be16(p.op)[0] && b[7] == be16(p.op)[1]);
    assert(b[14] == s[0] && b[15] == s[1] && b[16] == s[2] && b[17] == s[3]);
    assert(b[24] == t[0] && b[25] == t[1] && b[26] == t[2] && b[27] == t[3]);
    assert(b.subrange(8, 14) =~= p.sender_mac);
    assert(b.subrange(18, 24) =~= p.target_mac);
}

/// What is learned stays known for five minutes, and no longer.
pub proof fn learned_is_known_for_its_lifetime(
    st: ArpState,
    ip: Ipv4Addr,
    mac: Seq<u8>,
    learned: Instant,
    now: Instant,
)
    ensures
        st.learn(ip, mac, learned).known(ip, now) == (if now.since(learned).nanos
            < entry_ttl().nanos {
            Some(mac)
        } else {
            None
        }),
{
}

/// Learning one address changes nothing known of any other.
pub proof fn learning_leaves_other_addresses_alone(
    st: ArpState,
    ip: Ipv4Addr,
    mac: Seq<u8>,
    learned: Instant,
    other: Ipv4Addr,
    now: Instant,
)
    requires
        other != ip,
    ensures
        st.learn(ip, mac, learned).known(other, now) == st.known(other, now),
{
}

/// An unspecified sender, or one with a group MAC, never enters the cache.
pub proof fn implausible_senders_are_not_learned(st: ArpState, payload: Seq<u8>, now: Instant)
    requires
        arp_in(payload) is Ok,
        arp_in(payload)->Ok_0.sender_ip.is_unspecified() || arp_in(payload)->Ok_0.sender_mac[0] % 2
            == 1,
    ensures
        st.hear(payload, now).1 == st,
{
}

/// Any other sender is known from then on, for its lifetime, whatever it sent.
pub proof fn plausible_senders_are_learned(
    st: ArpState,
    payload: Seq<u8>,
    heard: Instant,
    now: Instant,
)
    requires
        arp_in(payload) is Ok,
        !arp_in(payload)->Ok_0.sender_ip.is_unspecified(),
        arp_in(payload)->Ok_0.sender_mac[0] % 2 == 0,
        now.since(heard).nanos < entry_ttl().nanos,
    ensures
        st.hear(payload, heard).1.known(arp_in(payload)->Ok_0.sender_ip, now) == Some(
            arp_in(payload)->Ok_0.sender_mac,
        ),
{
}

/// Only a request for our own address is answered, and nothing is before we have
/// one.
pub proof fn only_our_address_is_answered(st: ArpState, payload: Seq<u8>, now: Instant)
    requires
        st.hear(payload, now).0 matches Ok(Some(_)),
    ensures
        arp_in(payload) is Ok,
        arp_in(payload)->Ok_0.op == OP_REQUEST,
        arp_in(payload)->Ok_0.target_ip == st.host_ip,
        !st.host_ip.is_unspecified(),
{
}

/// The answer goes to whoever asked, from our MAC, and says that our address is
/// at our MAC.
pub proof fn answer_names_our_mac(st: ArpState, p: ArpPacketView, host_mac: MacAddr, asker: MacAddr)
    requires
        st.host_mac == host_mac@,
        p.sender_mac == asker@,
    ensures
        ({
            let frame = dissect(st.reply_frame(p));
            &&& frame.dst == p.sender_mac
            &&& frame.src == st.host_mac
            &&& frame.ethertype == ETHERTYPE_ARP
            &&& arp_in(frame.payload) == Ok::<_, Error>(
                ArpPacketView {
                    op: OP_REPLY,
                    sender_mac: st.host_mac,
                    sender_ip: st.host_ip,
                    target_mac: p.sender_mac,
                    target_ip: p.sender_ip,
                },
            )
        }),
{
    let answer = ArpPacketView {
        op: OP_REPLY,
        sender_mac: st.host_mac,
        sender_ip: st.host_ip,
        target_mac: p.sender_mac,
        target_ip: p.sender_ip,
    };
    let payload = arp_bytes(answer);
    built_frame_round_trips(asker, host_mac, ETHERTYPE_ARP, payload);
    let got = dissect(st.reply_frame(p)).payload;
    let rest = got.skip(payload.len() as int);
    assert(got =~= got.take(payload.len() as int) + rest);
    built_packet_round_trips(answer, rest);
}

/// Once an address was asked for, it is not asked for again within a second, and
/// can be asked for again after it.
pub proof fn requests_are_rate_limited(st: ArpState, ip: Ipv4Addr, first: Instant, second: Instant)
    requires
        st.ask(ip, first).0 is Some,
    ensures
        st.ask(ip, first).1.ask(ip, second).0 is Some <==> second.since(first).nanos
            >= retry_interval().nanos,
{
}

/// An ARP packet in an Ethernet frame, byte by byte: the addresses, the type, Ethernet
/// and IPv4 with address sizes of six and four, the operation, then who speaks and who
/// is spoken of, and zeros up to sixty bytes.
pub open spec fn is_arp_frame(
    f: Seq<u8>,
    dst: Seq<u8>,
    operation: u8,
    sender_mac: Seq<u8>,
    sender_ip: Ipv4Addr,
    target_mac: Seq<u8>,
    target_ip: Ipv4Addr,
) -> bool {
    &&& f.len() == 60
    &&& f.subrange(0, 6) == dst
    &&& f.subrange(6, 12) == sender_mac
    &&& f.subrange(12, 22) == seq![8u8, 6, 0, 1, 8, 0, 6, 4, 0, operation]
    &&& f.subrange(22, 28) == sender_mac
    &&& f.subrange(28, 32) == sender_ip.bytes()
    &&& f.subrange(32, 38) == target_mac
    &&& f.subrange(38, 42) == target_ip.bytes()
    &&& forall|i: int| 42 <= i < 60 ==> f[i] == 0
}

/// Asking for an address sends everyone a request for that address, from our MAC and
/// our address, with the MAC that is sought left blank.
pub proof fn requests_ask_for_the_address(
    st: ArpState,
    ip: Ipv4Addr,
    now: Instant,
    host_mac: MacAddr,
)
    requires
        st.host_mac == host_mac@,
    ensures
        st.ask(ip, now).0 matches Some(f) ==> is_arp_frame(
            f,
            seq![255u8, 255, 255, 255, 255, 255],
            1,
            host_mac@,
            st.host_ip,
            seq![0u8, 0, 0, 0, 0, 0],
            ip,
        ),
        st.ask(ip, now).1.host_mac == st.host_mac,
        st.ask(ip, now).1.host_ip == st.host_ip,
        st.ask(ip, now).1.cache == st.cache,
{
    let p = ArpPacketView {
        op: OP_REQUEST,
        sender_mac: st.host_mac,
        sender_ip: st.host_ip,
        target_mac: MacAddr::zero()@,
        target_ip: ip,
    };
    lemma_arp_frame(MacAddr::broadcast(), host_mac, p, 1);
    assert(MacAddr::broadcast()@ =~= seq![255u8, 255, 255, 255, 255, 255]);
    assert(MacAddr::zero()@ =~= seq![0u8, 0, 0, 0, 0, 0]);
}

/// A frame that asks for an address is answered by whoever has that address and by no
/// one else, and the answer tells the asker the owner's MAC. The owner learns where the
/// asker is at the same time.
pub proof fn asking_finds_the_owner(
    asker: ArpState,
    other: ArpState,
    ip: Ipv4Addr,
    asked: Instant,
    heard: Instant,
    answered: Instant,
    asker_mac: MacAddr,
    other_mac: MacAddr,
)
    requires
        asker.host_mac == asker_mac@,
        other.host_mac == other_mac@,
        asker.ask(ip, asked).0 is Some,
        !ip.is_unspecified(),
        !asker_mac.is_group(),
        !other_mac.is_group(),
    ensures
        ({
            let question = asker.ask(ip, asked).0->0;
            let (reply, knowing) = other.hear(question.skip(14), heard);
            &&& other.host_ip != ip ==> reply == Ok::<Option<Seq<u8>>, Error>(None)
            &&& other.host_ip == ip ==> {
                &&& reply matches Ok(Some(answer))
                &&& is_arp_frame(
                    answer,
                    asker_mac@,
                    2,
                    other_mac@,
                    ip,
                    asker_mac@,
                    asker.host_ip,
                )
                &&& asker.ask(ip, asked).1.hear(answer.skip(14), answered).1.known(ip, answered)
                    == Some(other_mac@)
            }
            &&& !asker.host_ip.is_unspecified() ==> knowing.known(asker.host_ip, heard) == Some(
                asker_mac@,
            )
        }),
{
    let question = ArpPacketView {
        op: OP_REQUEST,
        sender_mac: asker.host_mac,
        sender_ip: asker.host_ip,
        target_mac: MacAddr::zero()@,
        target_ip: ip,
    };
    lemma_arp_frame(MacAddr::broadcast(), asker_mac, question, 1);
    let q = asker.ask(ip, asked).0->0;
    assert(arp_in(q.skip(14)) == Ok::<_, Error>(question));
    if other.host_ip == ip {
        let answer = ArpPacketView {
            op: OP_REPLY,
            sender_mac: other.host_mac,
            sender_ip: other.host_ip,
            target_mac: asker.host_mac,
            target_ip: asker.host_ip,
        };
        lemma_arp_frame(asker_mac, other_mac, answer, 2);
        let (reply, _) = other.hear(q.skip(14), heard);
        let a = reply->Ok_0->0;
        assert(arp_in(a.skip(14)) == Ok::<_, Error>(answer));
    }
}

/// What is learned is known for three hundred seconds and forgotten then.
pub proof fn mappings_last_five_minutes(
    st: ArpState,
    ip: Ipv4Addr,
    mac: Seq<u8>,
    learned: Instant,
    now: Instant,
)
    requires
        learned.nanos <= now.nanos,
    ensures
        now.nanos - learned.nanos < 300_000_000_000 ==> st.learn(ip, mac, learned).known(ip, now)
            == Some(mac),
        now.nanos - learned.nanos >= 300_000_000_000 ==> st.learn(ip, mac, learned).known(ip, now)
            is None,
{
}

/// An address that was never asked for can be asked for at once, whatever else was; one
/// that was can be again a second later, and not before.
pub proof fn each_address_has_its_own_second(
    st: ArpState,
    ip: Ipv4Addr,
    other: Ipv4Addr,
    first: Instant,
    second: Instant,
)
    requires
        st.ask(ip, first).0 is Some,
        first.nanos <= second.nanos,
    ensures
        second.nanos - first.nanos < 1_000_000_000 ==> st.ask(ip, first).1.ask(ip, second).0
            is None,
        second.nanos - first.nanos >= 1_000_000_000 ==> st.ask(ip, first).1.ask(ip, second).0
            is Some,
        other != ip ==> st.ask(ip, first).1.ask(other, second).0 == st.ask(other, second).0,
        !st.requested.dom().contains(other.bits) ==> st.ask(other, second).0 is Some,
{
}

/// A packet is read by its fixed positions, and refused only if it is too short or is
/// not about IPv4 addresses on Ethernet.
pub proof fn packets_are_read_by_position(buf: Seq<u8>)
    ensures
        arp_in(buf) is Ok <==> buf.len() >= 28 && buf[0] == 0 && buf[1] == 1 && buf[2] == 8
            && buf[3] == 0 && buf[4] == 6 && buf[5] == 4,
        arp_in(buf) matches Ok(p) ==> {
            &&& p.op == 256 * buf[6] + buf[7]
            &&& p.sender_mac == buf.subrange(8, 14)
            &&& p.sender_ip.bytes() == buf.subrange(14, 18)
            &&& p.target_mac == buf.subrange(18, 24)
            &&& p.target_ip.bytes() == buf.subrange(24, 28)
        },
{
    if buf.len() >= 28 {
        lemma_be32_bytes_of_read(buf, 14);
        lemma_be32_bytes_of_read(buf, 24);
    }
}

/// A built frame, byte by byte, and what its payload parses to.
proof fn lemma_arp_frame(dst: MacAddr, src: MacAddr, p: ArpPacketView, operation: u8)
    requires
        p.sender_mac == src@,
        p.target_mac.len() == 6,
        p.op == operation,
    ensures
        ({
            let f = padded(unpadded(dst@, src@, ETHERTYPE_ARP, arp_bytes(p)));
            &&& is_arp_frame(
                f,
                dst@,
                operation,
                p.sender_mac,
                p.sender_ip,
                p.target_mac,
                p.target_ip,
            )
            &&& arp_in(f.skip(14)) == Ok::<_, Error>(p)
        }),
{
    let b = arp_bytes(p);
    let f = padded(unpadded(dst@, src@, ETHERTYPE_ARP, b));
    assert(forall|i: int| 0 <= i < 28 ==> f[14 + i] == #[trigger] b[i]);
    assert(f.subrange(14, 42) =~= b);
    assert(f.subrange(0, 6) =~= dst@);
    assert(f.subrange(6, 12) =~= src@);
    assert(f.subrange(12, 22) =~= seq![8u8, 6, 0, 1, 8, 0, 6, 4, 0, operation]);
    assert(f.subrange(22, 28) =~= p.sender_mac);
    assert(f.subrange(28, 32) =~= p.sender_ip.bytes());
    assert(f.subrange(32, 38) =~= p.target_mac);
    assert(f.subrange(38, 42) =~= p.target_ip.bytes());
    built_packet_round_trips(p, f.skip(42));
    assert(f.skip(14) =~= b + f.skip(42));
}

/// The answer to a request, byte by byte: to whoever asked, from our MAC and our
/// address.
pub proof fn answers_are_laid_out(st: ArpState, p: ArpPacketView, host_mac: MacAddr, asker: MacAddr)
    requires
        st.host_mac == host_mac@,
        p.sender_mac == asker@,
    ensures
        is_arp_frame(
            st.reply_frame(p),
            asker@,
            2,
            host_mac@,
            st.host_ip,
            asker@,
            p.sender_ip,
        ),
{
    let answer = ArpPacketView {
        op: OP_REPLY,
        sender_mac: st.host_mac,
        sender_ip: st.host_ip,
        target_mac: p.sender_mac,
        target_ip: p.sender_ip,
    };
    lemma_arp_frame(asker, host_mac, answer, 2);
}

} // verus!
