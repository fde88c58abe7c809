//! What inbound transfers lead to.

use vstd::prelude::*;
use vstd::slice::slice_to_vec;

use crate::addr::Ipv4Addr;
use crate::bytes::{be32_at, get_be32};
use crate::link::timer::DhcpTimer;
use crate::netstack::arp::{Arp, ArpState};
use crate::netstack::dhcp;
use crate::netstack::dhcp::{ClientState, DhcpClient, Event, EventView, Lease, LeaseView, State};
use crate::netstack::error::Error;
use crate::netstack::ethernet;
use crate::netstack::ethernet::{
    dissect, padded, unpadded, MacAddr, ETHERTYPE_ARP, ETHERTYPE_IPV4, HEADER_LEN,
};
use crate::netstack::ipv4;
use crate::netstack::ipv4::{udp_in, udp_packet, UdpDatagram, UdpView};
use crate::rndis::error::Result as RndisResult;
use crate::rndis::packet;
use crate::rndis::packet::frames;
use crate::time::Instant;
use crate::usb::error::UsbError;

verus! {

/// Reads kept queued on the bulk IN endpoint to cover USB round-trip latency.
pub const RX_DEPTH: usize = 16;

/// What the rest of the daemon hears from a link.
#[derive(Debug)]
pub enum LinkEvent {
    Bound(Box<Lease>),
    /// The link failed; the daemon should tear down and wait for a re-attach.
    Failed(String),
}

/// What the receive thread hears from the bulk IN endpoint.
#[derive(Debug)]
pub enum RxEvent {
    Data(Vec<u8>),
    Error(UsbError),
    /// Nothing came for a tick.
    Quiet,
}

/// What the receive thread is to do, in order.
#[derive(Debug)]
pub enum RxAction {
    /// Queue a read of this many bytes.
    Submit(usize),
    /// Queue a frame for the bulk OUT endpoint.
    Send(Vec<u8>),
    /// Hand an IP packet to the sink.
    Deliver(Vec<u8>),
    /// Tell the daemon.
    Report(LinkEvent),
}

/// An action as plain values.
#[verifier::ext_equal]
pub enum ActionView {
    Submit(usize),
    Send(Seq<u8>),
    Deliver(Seq<u8>),
    Bound(LeaseView),
    Failed(Seq<char>),
}

impl View for RxAction {
    type V = ActionView;

    open spec fn view(&self) -> ActionView {
        match self {
            RxAction::Submit(len) => ActionView::Submit(*len),
            RxAction::Send(frame) => ActionView::Send(frame@),
            RxAction::Deliver(packet) => ActionView::Deliver(packet@),
            RxAction::Report(LinkEvent::Bound(lease)) => ActionView::Bound((**lease)@),
            RxAction::Report(LinkEvent::Failed(why)) => ActionView::Failed(why@),
        }
    }
}

/// Actions as plain values.
pub open spec fn actions_of(v: Seq<RxAction>) -> Seq<ActionView> {
    v.map_values(|a: RxAction| a@)
}

/// Everything inbound traffic can change.
#[verifier::ext_equal]
pub struct RxState {
    pub host_mac: Seq<u8>,
    pub transfer_size: usize,
    pub dhcp: ClientState,
    pub timer: DhcpTimer,
    pub arp: ArpState,
}

/// The frame that broadcasts a DHCP message.
pub open spec fn dhcp_frame(host_mac: Seq<u8>, message: Seq<u8>) -> Seq<u8> {
    padded(
        unpadded(
            MacAddr::broadcast()@,
            host_mac,
            ETHERTYPE_IPV4,
            udp_packet(
                UdpView {
                    src_ip: Ipv4Addr::unspecified(),
                    dst_ip: Ipv4Addr::broadcast(),
                    src_port: dhcp::CLIENT_PORT,
                    dst_port: dhcp::SERVER_PORT,
                    payload: message,
                },
                0,
            ),
        ),
    )
}

/// Wrap a DHCP message in UDP/IP/Ethernet.
pub fn wrap_dhcp(host_mac: MacAddr, message: &[u8]) -> (frame: Vec<u8>)
    ensures
        frame@ == dhcp_frame(host_mac@, message@),
{
    let datagram = UdpDatagram {
        src_ip: Ipv4Addr::unspecified(),
        dst_ip: Ipv4Addr::broadcast(),
        src_port: dhcp::CLIENT_PORT,
        dst_port: dhcp::SERVER_PORT,
        payload: message,
    };
    let ip = ipv4::build_udp(&datagram, 0);
    ethernet::build(MacAddr::broadcast(), host_mac, ETHERTYPE_IPV4, ip.as_slice())
}

/// Whether a datagram is a reply from a DHCP server.
pub open spec fn is_dhcp_reply(d: UdpView) -> bool {
    d.dst_port == dhcp::CLIENT_PORT && d.src_port == dhcp::SERVER_PORT
}

impl RxState {
    /// What a DHCP reply that came from `src_mac` and `src_ip` leads to. The reply
    /// came straight from the phone, so its source address is the gateway's MAC.
    pub open spec fn on_dhcp(
        self,
        src_mac: Seq<u8>,
        src_ip: Ipv4Addr,
        message: Seq<u8>,
        now: Instant,
    ) -> (Seq<ActionView>, RxState) {
        let (outcome, client) = self.dhcp.hear(message);
        let heard = RxState { dhcp: client, ..self };
        match outcome {
            Ok(EventView::Send(reply)) => (
                seq![ActionView::Send(dhcp_frame(self.host_mac, reply))],
                heard,
            ),
            Ok(EventView::Bound(lease)) => (
                seq![ActionView::Bound(lease)],
                RxState {
                    timer: DhcpTimer::after_bound(now, lease.renewal_time),
                    arp: (ArpState { host_ip: lease.ip, ..self.arp }).learn(
                        src_ip,
                        src_mac,
                        now,
                    ),
                    ..heard
                },
            ),
            Ok(EventView::Nak) => (
                Seq::empty(),
                RxState { timer: DhcpTimer::restarted(now), ..heard },
            ),
            Ok(EventView::Ignored) => (Seq::empty(), heard),
            Err(_) => (Seq::empty(), heard),
        }
    }

    /// What an IPv4 packet leads to: DHCP replies are ours to consume; everything
    /// else goes to the tunnel.
    pub open spec fn on_ipv4(self, src_mac: Seq<u8>, payload: Seq<u8>, now: Instant) -> (
        Seq<ActionView>,
        RxState,
    ) {
        match udp_in(payload) {
            Ok(d) => if is_dhcp_reply(d) {
                self.on_dhcp(src_mac, d.src_ip, d.payload, now)
            } else {
                (seq![ActionView::Deliver(payload)], self)
            },
            Err(_) => (seq![ActionView::Deliver(payload)], self),
        }
    }

    /// What an Ethernet frame leads to. Anything not addressed to us or to a group
    /// is the phone talking to someone else.
    pub open spec fn on_frame(self, frame: Seq<u8>, now: Instant) -> (Seq<ActionView>, RxState) {
        let f = dissect(frame);
        if frame.len() < HEADER_LEN || (f.dst != self.host_mac && f.dst[0] % 2 == 0) {
            (Seq::empty(), self)
        } else if f.ethertype == ETHERTYPE_ARP {
            let (outcome, arp) = self.arp.hear(f.payload, now);
            let heard = RxState { arp, ..self };
            match outcome {
                Ok(Some(reply)) => (seq![ActionView::Send(reply)], heard),
                _ => (Seq::empty(), heard),
            }
        } else if f.ethertype == ETHERTYPE_IPV4 {
            self.on_ipv4(f.src, f.payload, now)
        } else {
            (Seq::empty(), self)
        }
    }

    /// What the items of a transfer lead to, one after another, up to the first
    /// malformed one.
    pub open spec fn on_items(self, items: Seq<RndisResult<Seq<u8>>>, now: Instant) -> (
        Seq<ActionView>,
        RxState,
    )
        decreases items.len(),
    {
        if items.len() == 0 {
            (Seq::empty(), self)
        } else {
            match items[0] {
                Err(_) => (Seq::empty(), self),
                Ok(frame) => {
                    let (first, next) = self.on_frame(frame, now);
                    let (rest, last) = next.on_items(items.skip(1), now);
                    (first + rest, last)
                },
            }
        }
    }

    /// What the DHCP timer leads to.
    pub open spec fn on_timer(self, now: Instant) -> (Seq<ActionView>, RxState) {
        let (message, timer, client) = self.timer.expired(now, self.dhcp);
        (
            match message {
                Some(m) => seq![ActionView::Send(dhcp_frame(self.host_mac, m))],
                None => Seq::empty(),
            },
            RxState { timer, dhcp: client, ..self },
        )
    }

    /// What an event of the receive thread leads to, and whether the link is over.
    pub open spec fn on_event(self, event: RxEvent, now: Instant) -> (
        Seq<ActionView>,
        RxState,
        bool,
    ) {
        let resubmit = seq![ActionView::Submit(self.transfer_size)];
        match event {
            RxEvent::Data(data) => {
                let (acts, heard) = self.on_items(frames(data@), now);
                let (timed, after) = heard.on_timer(now);
                (resubmit + acts + timed, after, false)
            },
            RxEvent::Error(e) => if e is Disconnected || e is NotFound {
                (resubmit.push(ActionView::Failed(e.text())), self, true)
            } else {
                let (timed, after) = self.on_timer(now);
                (resubmit + timed, after, false)
            },
            RxEvent::Quiet => {
                let (timed, after) = self.on_timer(now);
                (timed, after, false)
            },
        }
    }
}

/// The receiving half of a link.
pub struct Rx {
    host_mac: MacAddr,
    transfer_size: usize,
    dhcp: DhcpClient,
    timer: DhcpTimer,
}

/// How a link starts: reads are queued and discovery begins. The host MAC is
/// stable, so DHCP's transaction id is seeded from it.
pub open spec fn started(host_mac: Seq<u8>, transfer_size: usize, arp: ArpState, now: Instant) -> (
    Seq<ActionView>,
    RxState,
) {
    let fresh = ClientState {
        mac: host_mac,
        xid: be32_at(host_mac, 2),
        state: State::Init,
        offered: None,
        server_id: None,
        lease: None,
    };
    let dhcp = fresh.discovering();
    (
        Seq::new(RX_DEPTH as nat, |i: int| ActionView::Submit(transfer_size)).push(
            ActionView::Send(dhcp_frame(host_mac, dhcp.discover_message())),
        ),
        RxState { host_mac, transfer_size, dhcp, timer: DhcpTimer::started(now), arp },
    )
}

impl Rx {
    /// This half together with what is known of the neighbours.
    pub closed spec fn with(&self, arp: ArpState) -> RxState {
        RxState {
            host_mac: self.host_mac@,
            transfer_size: self.transfer_size,
            dhcp: self.dhcp@,
            timer: self.timer,
            arp,
        }
    }

    /// Begin receiving, and begin DHCP.
    pub fn start(host_mac: MacAddr, transfer_size: usize, now: Instant) -> (r: (Self, Vec<RxAction>))
        ensures
            forall|arp: ArpState| #[trigger]
                r.0.with(arp) == started(host_mac@, transfer_size, arp, now).1,
            forall|arp: ArpState|
                actions_of(r.1@) == #[trigger] started(host_mac@, transfer_size, arp, now).0,
    {
        let mut actions: Vec<RxAction> = Vec::new();
        for i in 0..RX_DEPTH
            invariant
                actions@.len() == i,
                forall|j: int| 0 <= j < i ==> actions@[j] == RxAction::Submit(transfer_size),
        {
            actions.push(RxAction::Submit(transfer_size));
        }
        let mut client = DhcpClient::new(host_mac, get_be32(host_mac.as_bytes(), 2));
        let message = client.discover();
        let frame = wrap_dhcp(host_mac, message.as_slice());
        let ghost before = actions@;
        actions.push(RxAction::Send(frame));
        let rx = Rx { host_mac, transfer_size, dhcp: client, timer: DhcpTimer::new(now) };
        proof {
            let want = Seq::new(
                RX_DEPTH as nat,
                |i: int| ActionView::Submit(transfer_size),
            ).push(ActionView::Send(dhcp_frame(host_mac@, rx.dhcp@.discover_message())));
            assert(actions_of(actions@) =~= want);
        }
        (rx, actions)
    }

    /// The message the DHCP timer calls for, if any, as an action.
    fn tick(&mut self, actions: &mut Vec<RxAction>, now: Instant, arp: Ghost<ArpState>)
        ensures
            ({
                let (timed, after) = old(self).with(arp@).on_timer(now);
                &&& final(self).with(arp@) == after
                &&& actions_of(final(actions)@) == actions_of(old(actions)@) + timed
            }),
    {
        if let Some(message) = self.timer.due(&mut self.dhcp, now) {
            actions.push(RxAction::Send(wrap_dhcp(self.host_mac, message.as_slice())));
        }
        assert(actions_of(actions@) =~= actions_of(old(actions)@) + old(self).with(
            arp@,
        ).on_timer(now).0);
    }

    /// React to an event of the receive thread. The second result says whether the
    /// link is over.
    pub fn step(&mut self, arp: &mut Arp, event: RxEvent, now: Instant) -> (r: (
        Vec<RxAction>,
        bool,
    ))
        ensures
            final(arp).own_clock() == old(arp).own_clock(),
            (actions_of(r.0@), final(self).with(final(arp)@), r.1) == old(self).with(
                old(arp)@,
            ).on_event(event, now),
    {
        let mut actions: Vec<RxAction> = Vec::new();
        assert(actions_of(actions@) =~= Seq::empty());
        match event {
            RxEvent::Data(data) => {
                actions.push(RxAction::Submit(self.transfer_size));
                assert(actions_of(actions@) =~= seq![ActionView::Submit(self.transfer_size)]);
                self.handle_transfer(arp, data.as_slice(), now, &mut actions);
                self.tick(&mut actions, now, Ghost(arp@));
                (actions, false)
            },
            RxEvent::Error(e) => {
                actions.push(RxAction::Submit(self.transfer_size));
                assert(actions_of(actions@) =~= seq![ActionView::Submit(self.transfer_size)]);
                if e.is_fatal() {
                    let ghost before = actions@;
                    let why = e.message();
                    actions.push(RxAction::Report(LinkEvent::Failed(why)));
                    assert(actions_of(actions@) =~= actions_of(before).push(
                        ActionView::Failed(e.text()),
                    ));
                    return (actions, true);
                }
                self.tick(&mut actions, now, Ghost(arp@));
                (actions, false)
            },
            RxEvent::Quiet => {
                self.tick(&mut actions, now, Ghost(arp@));
                assert(actions_of(actions@) =~= old(self).with(old(arp)@).on_timer(now).0);
                (actions, false)
            },
        }
    }

    /// Take in one bulk transfer.
    pub fn handle_transfer(
        &mut self,
        arp: &mut Arp,
        data: &[u8],
        now: Instant,
        actions: &mut Vec<RxAction>,
    )
        ensures
            final(arp).own_clock() == old(arp).own_clock(),
            ({
                let (acts, after) = old(self).with(old(arp)@).on_items(frames(data@), now);
                &&& final(self).with(final(arp)@) == after
                &&& actions_of(final(actions)@) == actions_of(old(actions)@) + acts
            }),
    {
        let ghost start = self.with(arp@);
        let ghost before = actions_of(actions@);
        let mut items = packet::decode(data);
        let mut going: bool = true;
        assert(before + start.on_items(frames(items@), now).0 =~= before + start.on_items(
            frames(data@),
            now,
        ).0);
        while going
            invariant
                before == actions_of(old(actions)@),
                start == old(self).with(old(arp)@),
                arp.own_clock() == old(arp).own_clock(),
                going ==> ({
                    let (acts, after) = self.with(arp@).on_items(frames(items@), now);
                    &&& start.on_items(frames(data@), now).1 == after
                    &&& before + start.on_items(frames(data@), now).0 == actions_of(actions@)
                        + acts
                }),
                !going ==> ({
                    &&& start.on_items(frames(data@), now).1 == self.with(arp@)
                    &&& before + start.on_items(frames(data@), now).0 == actions_of(actions@)
                }),
            decreases items@.len() + (if going {
                1int
            } else {
                0int
            }),
        {
            let ghost st = self.with(arp@);
            let ghost left = frames(items@);
            let ghost held = actions_of(actions@);
            match items.next() {
                None => {
                    assert(held + st.on_items(left, now).0 =~= held);
                    going = false;
                },
                // A malformed packet makes the rest of the transfer meaningless.
                Some(Err(_)) => {
                    assert(held + st.on_items(left, now).0 =~= held);
                    going = false;
                },
                Some(Ok(frame)) => {
                    self.handle_frame(arp, frame, now, actions);
                    proof {
                        assert(left.skip(1) =~= frames(items@));
                        let (first, next) = st.on_frame(frame@, now);
                        let (rest, last) = next.on_items(frames(items@), now);
                        assert(held + (first + rest) =~= (held + first) + rest);
                    }
                },
            }
        }
    }

    fn handle_frame(
        &mut self,
        arp: &mut Arp,
        bytes: &[u8],
        now: Instant,
        actions: &mut Vec<RxAction>,
    )
        ensures
            final(arp).own_clock() == old(arp).own_clock(),
            ({
                let (acts, after) = old(self).with(old(arp)@).on_frame(bytes@, now);
                &&& final(self).with(final(arp)@) == after
                &&& actions_of(final(actions)@) == actions_of(old(actions)@) + acts
            }),
    {
        let ghost before = actions_of(actions@);
        assert(before + Seq::<ActionView>::empty() =~= before);
        let frame = match ethernet::parse(bytes) {
            Ok(f) => f,
            Err(_) => return ,
        };
        // Our own MAC is synthesized, so anything not addressed to us or to
        // broadcast is the phone talking to someone else.
        if frame.dst != self.host_mac && !frame.dst.is_multicast() {
            return ;
        }
        if frame.ethertype == ETHERTYPE_ARP {
            match arp.handle_at(frame.payload, now) {
                Ok(Some(reply)) => {
                    let ghost sent = reply@;
                    actions.push(RxAction::Send(reply));
                    assert(actions_of(actions@) =~= before + seq![ActionView::Send(sent)]);
                },
                Ok(None) => {},
                Err(_) => {},
            }
        } else if frame.ethertype == ETHERTYPE_IPV4 {
            self.handle_ipv4(arp, frame.src, frame.payload, now, actions);
        }
    }

    fn handle_ipv4(
        &mut self,
        arp: &mut Arp,
        src_mac: MacAddr,
        payload: &[u8],
        now: Instant,
        actions: &mut Vec<RxAction>,
    )
        ensures
            final(arp).own_clock() == old(arp).own_clock(),
            ({
                let (acts, after) = old(self).with(old(arp)@).on_ipv4(src_mac@, payload@, now);
                &&& final(self).with(final(arp)@) == after
                &&& actions_of(final(actions)@) == actions_of(old(actions)@) + acts
            }),
    {
        // DHCP replies are ours to consume; everything else goes to the tunnel.
        if let Ok(d) = ipv4::parse_udp(payload) {
            if d.dst_port == dhcp::CLIENT_PORT && d.src_port == dhcp::SERVER_PORT {
                self.handle_dhcp(arp, src_mac, d.src_ip, d.payload, now, actions);
                return ;
            }
        }
        let ghost before = actions_of(actions@);
        actions.push(RxAction::Deliver(slice_to_vec(payload)));
        assert(actions_of(actions@) =~= before + seq![ActionView::Deliver(payload@)]);
    }

    fn handle_dhcp(
        &mut self,
        arp: &mut Arp,
        src_mac: MacAddr,
        src_ip: Ipv4Addr,
        message: &[u8],
        now: Instant,
        actions: &mut Vec<RxAction>,
    )
        ensures
            final(arp).own_clock() == old(arp).own_clock(),
            ({
                let (acts, after) = old(self).with(old(arp)@).on_dhcp(
                    src_mac@,
                    src_ip,
                    message@,
                    now,
                );
                &&& final(self).with(final(arp)@) == after
                &&& actions_of(final(actions)@) == actions_of(old(actions)@) + acts
            }),
    {
        let ghost before = actions_of(actions@);
        assert(before + Seq::<ActionView>::empty() =~= before);
        match self.dhcp.handle(message) {
            Ok(Event::Send(reply)) => {
                let frame = wrap_dhcp(self.host_mac, reply.as_slice());
                let ghost sent = frame@;
                actions.push(RxAction::Send(frame));
                assert(actions_of(actions@) =~= before + seq![ActionView::Send(sent)]);
            },
            Ok(Event::Bound(lease)) => {
                self.timer.bound(&lease, now);
                arp.set_host_ip(lease.ip);
                // The reply came straight from the phone, so its source
                // address is the gateway's MAC.
                arp.insert_at(src_ip, src_mac, now);
                let ghost bound = (*lease)@;
                actions.push(RxAction::Report(LinkEvent::Bound(lease)));
                assert(actions_of(actions@) =~= before + seq![ActionView::Bound(bound)]);
            },
            Ok(Event::Nak) => {
                self.timer.restart(now);
            },
            Ok(Event::Ignored) => {},
            Err(_) => {},
        }
    }
}

/// How many reads a list of actions queues.
pub open spec fn reads_queued(acts: Seq<ActionView>) -> nat
    decreases acts.len(),
{
    if acts.len() == 0 {
        0
    } else {
        reads_queued(acts.drop_last()) + (if acts.last() is Submit {
            1nat
        } else {
            0
        })
    }
}

proof fn lemma_reads_queued_concat(a: Seq<ActionView>, b: Seq<ActionView>)
    ensures
        reads_queued(a + b) == reads_queued(a) + reads_queued(b),
    decreases b.len(),
{
    if b.len() == 0 {
        assert(a + b =~= a);
    } else {
        lemma_reads_queued_concat(a, b.drop_last());
        assert((a + b).drop_last() =~= a + b.drop_last());
    }
}

proof fn lemma_reads_queued_one(a: ActionView)
    ensures
        reads_queued(seq![a]) == (if a is Submit {
            1nat
        } else {
            0
        }),
{
    assert(seq![a].drop_last() =~= Seq::empty());
    assert(reads_queued(seq![a].drop_last()) == 0);
}

proof fn lemma_traffic_queues_no_reads(
    st: RxState,
    items: Seq<RndisResult<Seq<u8>>>,
    now: Instant,
)
    ensures
        reads_queued(st.on_items(items, now).0) == 0,
    decreases items.len(),
{
    if items.len() > 0 {
        if let Ok(frame) = items[0] {
            let (first, next) = st.on_frame(frame, now);
            let (rest, _) = next.on_items(items.skip(1), now);
            lemma_traffic_queues_no_reads(next, items.skip(1), now);
            lemma_reads_queued_concat(first, rest);
            if first.len() > 0 {
                assert(first =~= seq![first[0]]);
                lemma_reads_queued_one(first[0]);
            }
        }
    }
}

proof fn lemma_timer_queues_no_reads(st: RxState, now: Instant)
    ensures
        reads_queued(st.on_timer(now).0) == 0,
{
    let acts = st.on_timer(now).0;
    if acts.len() > 0 {
        assert(acts =~= seq![acts[0]]);
        lemma_reads_queued_one(acts[0]);
    }
}

/// The number of reads in flight never changes: each one that ends, well or not, is
/// replaced by exactly one, and nothing else queues any.
pub proof fn every_read_is_replaced(st: RxState, event: RxEvent, now: Instant)
    ensures
        reads_queued(st.on_event(event, now).0) == (if event is Quiet {
            0nat
        } else {
            1
        }),
{
    let resubmit = seq![ActionView::Submit(st.transfer_size)];
    lemma_reads_queued_one(resubmit[0]);
    match event {
        RxEvent::Data(data) => {
            let (acts, heard) = st.on_items(frames(data@), now);
            let (timed, _) = heard.on_timer(now);
            lemma_traffic_queues_no_reads(st, frames(data@), now);
            lemma_timer_queues_no_reads(heard, now);
            lemma_reads_queued_concat(resubmit, acts);
            lemma_reads_queued_concat(resubmit + acts, timed);
        },
        RxEvent::Error(e) => {
            let gone = ActionView::Failed(e.text());
            lemma_reads_queued_one(gone);
            lemma_reads_queued_concat(resubmit, seq![gone]);
            assert(resubmit.push(gone) =~= resubmit + seq![gone]);
            lemma_timer_queues_no_reads(st, now);
            lemma_reads_queued_concat(resubmit, st.on_timer(now).0);
        },
        RxEvent::Quiet => {
            lemma_timer_queues_no_reads(st, now);
        },
    }
}

/// An IP packet that is not a DHCP reply reaches the tunnel exactly as it came, and
/// a DHCP reply never does.
pub proof fn ip_packets_pass_unchanged(
    st: RxState,
    src_mac: Seq<u8>,
    payload: Seq<u8>,
    now: Instant,
)
    ensures
        ({
            let acts = st.on_ipv4(src_mac, payload, now).0;
            if udp_in(payload) is Ok && is_dhcp_reply(udp_in(payload)->Ok_0) {
                forall|i: int| 0 <= i < acts.len() ==> !(#[trigger] acts[i] is Deliver)
            } else {
                acts == seq![ActionView::Deliver(payload)] && st.on_ipv4(src_mac, payload, now).1
                    == st
            }
        }),
{
}

/// A frame addressed to someone else does nothing.
pub proof fn frames_for_others_do_nothing(st: RxState, frame: Seq<u8>, now: Instant)
    requires
        frame.len() >= HEADER_LEN,
        dissect(frame).dst != st.host_mac,
        dissect(frame).dst[0] % 2 == 0,
    ensures
        st.on_frame(frame, now) == (Seq::<ActionView>::empty(), st),
{
}

/// A lease makes the link usable: its address is ours from then on, the phone's MAC
/// is known for the address the lease came from, and renewal is scheduled.
pub proof fn lease_makes_the_link_usable(
    st: RxState,
    src_mac: Seq<u8>,
    src_ip: Ipv4Addr,
    message: Seq<u8>,
    now: Instant,
)
    requires
        st.dhcp.hear(message).0 matches Ok(EventView::Bound(_)),
    ensures
        ({
            let (acts, after) = st.on_dhcp(src_mac, src_ip, message, now);
            let lease = after.dhcp.lease->0;
            &&& acts == seq![ActionView::Bound(lease)]
            &&& after.dhcp.state == State::Bound
            &&& after.arp.host_ip == lease.ip
            &&& after.arp.known(src_ip, now) == Some(src_mac)
            &&& after.timer.renew_at == Some(now.after(lease.renewal_time))
        }),
{
}

/// Whatever comes in, the DHCP client stays valid and the host MAC stays the same.
pub proof fn every_event_keeps_the_link_valid(st: RxState, event: RxEvent, now: Instant)
    requires
        st.dhcp.valid(),
    ensures
        st.on_event(event, now).1.dhcp.valid(),
        st.on_event(event, now).1.host_mac == st.host_mac,
        st.on_event(event, now).1.transfer_size == st.transfer_size,
{
    if let RxEvent::Data(data) = event {
        lemma_items_keep_the_link_valid(st, frames(data@), now);
    }
}

proof fn lemma_items_keep_the_link_valid(
    st: RxState,
    items: Seq<RndisResult<Seq<u8>>>,
    now: Instant,
)
    requires
        st.dhcp.valid(),
    ensures
        st.on_items(items, now).1.dhcp.valid(),
        st.on_items(items, now).1.host_mac == st.host_mac,
        st.on_items(items, now).1.transfer_size == st.transfer_size,
    decreases items.len(),
{
    if items.len() > 0 {
        if let Ok(frame) = items[0] {
            lemma_items_keep_the_link_valid(st.on_frame(frame, now).1, items.skip(1), now);
        }
    }
}

/// A DHCP message that is sent arrives as it was: the frame is a broadcast from our
/// MAC, and the datagram in it carries exactly the message, from the client port to
/// the server port.
pub proof fn dhcp_messages_arrive_intact(host_mac: MacAddr, message: Seq<u8>)
    requires
        28 + message.len() <= 65535,
    ensures
        ({
            let f = dissect(dhcp_frame(host_mac@, message));
            &&& f.dst == MacAddr::broadcast()@
            &&& f.src == host_mac@
            &&& f.ethertype == ETHERTYPE_IPV4
            &&& udp_in(f.payload) == Ok::<_, Error>(
                UdpView {
                    src_ip: Ipv4Addr::unspecified(),
                    dst_ip: Ipv4Addr::broadcast(),
                    src_port: dhcp::CLIENT_PORT,
                    dst_port: dhcp::SERVER_PORT,
                    payload: message,
                },
            )
        }),
{
    let d = UdpView {
        src_ip: Ipv4Addr::unspecified(),
        dst_ip: Ipv4Addr::broadcast(),
        src_port: dhcp::CLIENT_PORT,
        dst_port: dhcp::SERVER_PORT,
        payload: message,
    };
    let packet = udp_packet(d, 0);
    ethernet::built_frame_round_trips(MacAddr::broadcast(), host_mac, ETHERTYPE_IPV4, packet);
    let got = dissect(dhcp_frame(host_mac@, message)).payload;
    let rest = got.skip(packet.len() as int);
    assert(got =~= got.take(packet.len() as int) + rest);
    ipv4::built_datagram_round_trips(d, 0, rest);
}

} // verus!
