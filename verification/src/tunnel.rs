//! The utun side of the shim: what the system is told about a lease, and what
//! becomes of the packets it hands us.

use vstd::arithmetic::power2::{lemma2_to64, lemma_pow2_unfold, pow2};
use vstd::prelude::*;
use vstd::string::*;

use crate::addr::Ipv4Addr;
use crate::netstack::arp::{
    frame_bytes, is_arp_frame, requests_ask_for_the_address, Arp, ArpState,
};
use crate::netstack::dhcp::{ones, Lease, LeaseView};
use crate::netstack::ethernet;
use crate::netstack::ethernet::{
    frames_are_laid_out, padded, unpadded, MacAddr, ETHERTYPE_IPV4,
};
use crate::time::Instant;
use crate::tun::dns::{
    dns_entries, ipv4_entries, published, store_continues, Dns, DnsError, DynamicStore, Registry,
    StoreEvent,
};
use crate::tun::net::{
    add_command, configure_command, configure_interface, continues, delete_command,
    installed_routes_are_in_place, lemma_routes_installed_stays,
    routes_installed, routes_removed, subnet_of, subnet_route, Ran, Routes, RunError, Runner, Shell,
};
use crate::tun::utun::AF_HEADER_LEN;

verus! {

/// Ethernet payload limit; the phone's tether link is a normal 1500-byte MTU.
pub const DEFAULT_MTU: u16 = 1500;

/// Bound on how long the reader blocks before re-checking for shutdown.
pub const READ_TIMEOUT_MS: i64 = 250;

/// What a lease means for the tunnel.
#[derive(Clone, Copy, Debug, PartialEq, Eq, Structural)]
pub struct TunnelPlan {
    pub address: Ipv4Addr,
    pub gateway: Ipv4Addr,
    pub mtu: u16,
    pub subnet: Ipv4Addr,
    pub prefix: u8,
    /// Room for one packet with its header, and a little over.
    pub buffer_len: usize,
}

/// What a lease means for the tunnel; one without a gateway means nothing.
pub open spec fn planned(lease: LeaseView) -> Option<TunnelPlan> {
    let mtu = match lease.mtu {
        Some(mtu) => mtu,
        None => DEFAULT_MTU,
    };
    match lease.router {
        Some(gateway) => Some(
            TunnelPlan {
                address: lease.ip,
                gateway,
                mtu,
                subnet: Ipv4Addr { bits: lease.ip.bits & lease.netmask.bits },
                prefix: ones(lease.netmask.bits as nat) as u8,
                buffer_len: (mtu + AF_HEADER_LEN + 64) as usize,
            },
        ),
        None => None,
    }
}

impl TunnelPlan {
    /// What `lease` means for the tunnel. Without a gateway nothing can be routed
    /// through the phone.
    pub fn for_lease(lease: &Lease) -> (r: Result<TunnelPlan, TunnelError>)
        ensures
            match r {
                Ok(plan) => planned(lease@) == Some(plan),
                Err(e) => planned(lease@) is None && e is NoGateway,
            },
    {
        let gateway = match lease.router {
            Some(gateway) => gateway,
            None => return Err(TunnelError::NoGateway),
        };
        let mtu: u16 = match lease.mtu {
            Some(mtu) => mtu,
            None => DEFAULT_MTU,
        };
        Ok(
            TunnelPlan {
                address: lease.ip,
                gateway,
                mtu,
                subnet: subnet_of(lease.ip, lease.netmask),
                prefix: lease.prefix_len(),
                buffer_len: mtu as usize + AF_HEADER_LEN + 64,
            },
        )
    }
}

/// Why a tunnel could not be brought up.
#[derive(Debug)]
pub enum TunnelError {
    NoGateway,
    Interface(RunError),
    Routes(RunError),
    Service(DnsError),
}

impl TunnelError {
    pub open spec fn text(self) -> Seq<char> {
        match self {
            TunnelError::NoGateway => "lease has no gateway; cannot route through the phone"@,
            TunnelError::Interface(e) => e.message@,
            TunnelError::Routes(e) => e.message@,
            TunnelError::Service(e) => "publishing the tunnel as a network service: "@ + e.text(),
        }
    }

    /// The text shown for this error.
    pub fn message(&self) -> (s: String)
        ensures
            s@ == self.text(),
    {
        match self {
            TunnelError::NoGateway =>
                "lease has no gateway; cannot route through the phone".to_owned(),
            TunnelError::Interface(e) => e.message.clone(),
            TunnelError::Routes(e) => e.message.clone(),
            TunnelError::Service(e) => {
                let mut s = "publishing the tunnel as a network service: ".to_owned();
                s.append(e.message().as_str());
                s
            },
        }
    }
}

/// How telling the system about a tunnel comes out: the interface is addressed, the
/// subnet routed, and the service published, each only if what came before
/// succeeded; routes that went in are removed if the service is refused.
pub open spec fn raised(
    commands: Seq<Ran>,
    from: int,
    stored: Seq<StoreEvent>,
    since: int,
    name: Seq<char>,
    lease: LeaseView,
    plan: TunnelPlan,
    r: Result<(Routes, Dns), TunnelError>,
) -> bool {
    let wanted = seq![subnet_route(name, plan.subnet, plan.prefix)];
    let installed = routes_installed(commands, from + 1, wanted, Seq::empty());
    let ipv4 = ipv4_entries(name, plan.address, plan.gateway);
    let dns = dns_entries(lease.dns, lease.domain);
    &&& from < commands.len()
    &&& commands[from].command == configure_command(name, plan.address, plan.gateway, plan.mtu)
    &&& match commands[from].outcome {
        Err(e) => {
            &&& r == Err::<(Routes, Dns), TunnelError>(TunnelError::Interface(e))
            &&& commands.len() == from + 1
            &&& stored.len() == since
        },
        Ok(_) => match installed {
            None => false,
            Some((Err(e), next)) => {
                &&& r == Err::<(Routes, Dns), TunnelError>(TunnelError::Routes(e))
                &&& commands.len() == next
                &&& stored.len() == since
            },
            Some((Ok(destinations), next)) => match r {
                Ok((routes, service)) => {
                    &&& routes@ == destinations
                    &&& commands.len() == next
                    &&& lease.dns.len() > 0
                    &&& published(stored, since, ipv4, dns, Ok(service))
                },
                Err(TunnelError::Service(e)) => {
                    &&& routes_removed(commands, next, destinations) == Some(
                        commands.len() as int,
                    )
                    &&& if lease.dns.len() == 0 {
                        e is NoServers && stored.len() == since
                    } else {
                        published(stored, since, ipv4, dns, Err(e))
                    }
                },
                Err(_) => false,
            },
        },
    }
}

/// Tell the system about the tunnel `name`: its address, the route to the phone's
/// subnet, and the network service macOS derives the default route from.
pub fn raise<R: Runner, S: DynamicStore>(
    shell: &mut Shell<R>,
    registry: &mut Registry<S>,
    name: &str,
    lease: &Lease,
    plan: &TunnelPlan,
) -> (r: Result<(Routes, Dns), TunnelError>)
    ensures
        continues(final(shell).log(), old(shell).log()),
        store_continues(final(registry).log(), old(registry).log()),
        raised(
            final(shell).log(),
            old(shell).log().len() as int,
            final(registry).log(),
            old(registry).log().len() as int,
            name@,
            lease@,
            *plan,
            r,
        ),
{
    let ghost from = shell.log().len() as int;
    let ghost wanted = seq![subnet_route(name@, plan.subnet, plan.prefix)];
    if let Err(e) = configure_interface(shell, name, plan.address, plan.gateway, plan.mtu) {
        return Err(TunnelError::Interface(e));
    }
    let ghost addressed = shell.log();
    let mut routes = match Routes::install(shell, name, plan.subnet, plan.prefix) {
        Ok(routes) => routes,
        Err(e) => {
            assert(shell.log()[from] == addressed[from]);
            return Err(TunnelError::Routes(e));
        },
    };
    let ghost routed = shell.log();
    assert(routed[from] == addressed[from]);
    match Dns::install(registry, name, plan.address, plan.gateway, &lease.dns, &lease.domain) {
        Ok(service) => Ok((routes, service)),
        Err(e) => {
            routes.remove(shell);
            proof {
                lemma_routes_installed_stays(routed, shell.log(), from + 1, wanted, Seq::empty());
                assert(shell.log()[from] == routed[from]);
            }
            Err(TunnelError::Service(e))
        },
    }
}

/// A tunnel that could not be brought up leaves no route behind: where its route
/// went in, it was deleted again behind that.
pub proof fn failed_tunnels_leave_no_routes(
    commands: Seq<Ran>,
    from: int,
    stored: Seq<StoreEvent>,
    since: int,
    name: Seq<char>,
    lease: LeaseView,
    plan: TunnelPlan,
    r: Result<(Routes, Dns), TunnelError>,
    i: int,
)
    requires
        from >= 0,
        raised(commands, from, stored, since, name, lease, plan, r),
        r is Err,
        from <= i < commands.len(),
        commands[i].command == add_command(subnet_route(name, plan.subnet, plan.prefix)),
        commands[i].outcome is Ok,
    ensures
        exists|j: int|
            i < j < commands.len() && (#[trigger] commands[j]).command == delete_command(
                subnet_route(name, plan.subnet, plan.prefix).destination,
            ),
{
    let route = subnet_route(name, plan.subnet, plan.prefix);
    let wanted = seq![route];
    reveal_strlit("/sbin/ifconfig");
    reveal_strlit("/sbin/route");
    reveal_strlit("add");
    reveal_strlit("delete");
    assert(configure_command(name, plan.address, plan.gateway, plan.mtu).program.len()
        != add_command(route).program.len());
    assert(add_command(route).args[1].len() != delete_command(route.destination).args[1].len());
    assert(i > from);
    assert(wanted.skip(1) =~= Seq::empty());
    reveal_with_fuel(routes_installed, 2);
    reveal_with_fuel(routes_removed, 2);
    let done = Seq::<Seq<char>>::empty().push(route.destination);
    assert(done.drop_last() =~= Seq::empty());
    assert(i == from + 2);
    assert(commands[from + 3].command == delete_command(route.destination));
}

/// The frame that carries an IP packet to the gateway.
pub open spec fn carried_by(gateway_mac: Seq<u8>, host_mac: Seq<u8>, packet: Seq<u8>) -> Seq<u8> {
    padded(unpadded(gateway_mac, host_mac, ETHERTYPE_IPV4, packet))
}

/// What a packet from the tunnel leads to. Without the gateway's MAC the frame has
/// nowhere to go; the request is queued and the packet dropped, as ARP resolution
/// normally does.
pub open spec fn outbound_frame(
    arp: ArpState,
    host_mac: Seq<u8>,
    gateway: Ipv4Addr,
    packet: Seq<u8>,
    now: Instant,
) -> (Option<Seq<u8>>, ArpState) {
    match arp.known(gateway, now) {
        Some(mac) => (Some(carried_by(mac, host_mac, packet)), arp),
        None => arp.ask(gateway, now),
    }
}

/// The frame to send for a packet from the tunnel, if any.
pub fn outbound(
    arp: &mut Arp,
    host_mac: MacAddr,
    gateway: Ipv4Addr,
    packet: &[u8],
    now: Instant,
) -> (r: Option<Vec<u8>>)
    ensures
        (frame_bytes(r), final(arp)@) == outbound_frame(
            old(arp)@,
            host_mac@,
            gateway,
            packet@,
            now,
        ),
        final(arp).own_clock() == old(arp).own_clock(),
{
    match arp.lookup_at(gateway, now) {
        Some(mac) => Some(ethernet::build(mac, host_mac, ETHERTYPE_IPV4, packet)),
        None => arp.request_at(gateway, now),
    }
}

/// An IP packet reaches the gateway as it was: behind the Ethernet header stands the
/// packet, and behind that only padding.
pub proof fn packets_reach_the_gateway_intact(mac: MacAddr, host_mac: MacAddr, packet: Seq<u8>)
    ensures
        ({
            let f = ethernet::dissect(carried_by(mac@, host_mac@, packet));
            &&& f.dst == mac@
            &&& f.src == host_mac@
            &&& f.ethertype == ETHERTYPE_IPV4
            &&& f.payload.take(packet.len() as int) == packet
        }),
{
    ethernet::built_frame_round_trips(mac, host_mac, ETHERTYPE_IPV4, packet);
}

/// A lease with a gateway makes a tunnel with its address, its gateway, its MTU or the
/// usual one, and its subnet: the address where the mask has ones, and zeros elsewhere.
/// A lease without one makes none.
pub proof fn plans_follow_the_lease(lease: LeaseView)
    ensures
        planned(lease) is Some <==> lease.router is Some,
        planned(lease) matches Some(plan) ==> {
            &&& plan.address == lease.ip
            &&& lease.router == Some(plan.gateway)
            &&& lease.mtu is Some ==> lease.mtu == Some(plan.mtu)
            &&& lease.mtu is None ==> plan.mtu == 1500
            &&& (plan.subnet.bits ^ lease.ip.bits) & lease.netmask.bits == 0
            &&& plan.subnet.bits & !lease.netmask.bits == 0
            &&& plan.prefix == ones(lease.netmask.bits as nat)
            &&& plan.buffer_len == plan.mtu + 68
        },
{
    lemma2_to64();
    lemma_ones_bounded(lease.netmask.bits as nat, 32);
    let ip: u32 = lease.ip.bits;
    let mask: u32 = lease.netmask.bits;
    assert(((ip & mask) ^ ip) & mask == 0 && (ip & mask) & !mask == 0) by (bit_vector);
}

/// A number of so many binary digits has no more ones than that.
proof fn lemma_ones_bounded(n: nat, digits: nat)
    requires
        n < pow2(digits),
    ensures
        ones(n) <= digits,
    decreases digits,
{
    lemma2_to64();
    if digits > 0 {
        lemma_pow2_unfold(digits);
        lemma_ones_bounded(n / 2, (digits - 1) as nat);
    }
}

/// A packet from the tunnel goes to the gateway's MAC if that is known, whole and behind
/// our own. If it is not known, everyone is asked for the gateway, at most once a second.
pub proof fn packets_go_to_the_gateway(
    arp: ArpState,
    host_mac: MacAddr,
    gateway_mac: MacAddr,
    gateway: Ipv4Addr,
    packet: Seq<u8>,
    now: Instant,
)
    requires
        arp.host_mac == host_mac@,
    ensures
        ({
            let (frame, after) = outbound_frame(arp, host_mac@, gateway, packet, now);
            &&& arp.known(gateway, now) == Some(gateway_mac@) ==> ({
                &&& after == arp
                &&& frame matches Some(f)
                &&& f.subrange(0, 6) == gateway_mac@
                &&& f.subrange(6, 12) == host_mac@
                &&& f[12] == 8 && f[13] == 0
                &&& f.len() >= 14 + packet.len()
                &&& f.subrange(14, 14 + packet.len() as int) == packet
            })
            &&& arp.known(gateway, now) is None ==> {
                &&& frame matches Some(f) ==> is_arp_frame(
                    f,
                    seq![255u8, 255, 255, 255, 255, 255],
                    1,
                    host_mac@,
                    arp.host_ip,
                    seq![0u8, 0, 0, 0, 0, 0],
                    gateway,
                )
                &&& !arp.requested.dom().contains(gateway.bits) ==> frame is Some
                &&& after.ask(gateway, now).0 is None
            }
        }),
{
    if arp.known(gateway, now) is Some {
        frames_are_laid_out(gateway_mac, host_mac, 0x0800, packet);
    } else {
        requests_ask_for_the_address(arp, gateway, now, host_mac);
    }
}

/// A tunnel that is up was told to the system in full: the interface got its address,
/// the subnet its route, and the service was published with the lease's name servers.
/// The routes that are handed back are those that went in.
pub proof fn tunnels_that_are_up_are_known_to_the_system(
    commands: Seq<Ran>,
    from: int,
    stored: Seq<StoreEvent>,
    since: int,
    name: Seq<char>,
    lease: LeaseView,
    plan: TunnelPlan,
    routes: Routes,
    service: Dns,
)
    requires
        from >= 0,
        since >= 0,
        raised(commands, from, stored, since, name, lease, plan, Ok((routes, service))),
    ensures
        commands.len() == from + 3,
        commands[from].command == configure_command(name, plan.address, plan.gateway, plan.mtu),
        commands[from].outcome is Ok,
        commands[from + 2].command == add_command(subnet_route(name, plan.subnet, plan.prefix)),
        commands[from + 2].outcome is Ok,
        routes@ == seq![subnet_route(name, plan.subnet, plan.prefix).destination],
        stored.len() == since + 3,
        stored[since] == (StoreEvent::Opened { ready: true }),
        stored[since + 1] == (StoreEvent::Stored {
            key: "State:/Network/Service/muta/IPv4"@,
            entries: ipv4_entries(name, plan.address, plan.gateway),
            taken: true,
        }),
        stored[since + 2] == (StoreEvent::Stored {
            key: "State:/Network/Service/muta/DNS"@,
            entries: dns_entries(lease.dns, lease.domain),
            taken: true,
        }),
        service@ == seq![
            "State:/Network/Service/muta/IPv4"@,
            "State:/Network/Service/muta/DNS"@,
        ],
        lease.dns.len() > 0,
{
    let route = subnet_route(name, plan.subnet, plan.prefix);
    installed_routes_are_in_place(commands, from + 1, seq![route], Seq::empty(), 0);
    assert(routes@ =~= seq![route.destination]);
}

/// What kept a tunnel from coming up is said: that there is no gateway, what a command
/// reported, or that the service could not be published and why.
pub proof fn tunnel_errors_say_what_went_wrong(e: RunError, d: DnsError)
    ensures
        TunnelError::NoGateway.text() == "lease has no gateway; cannot route through the phone"@,
        TunnelError::Interface(e).text() == e.message@,
        TunnelError::Routes(e).text() == e.message@,
        TunnelError::Service(d).text() == "publishing the tunnel as a network service: "@
            + d.text(),
{
}

} // verus!
