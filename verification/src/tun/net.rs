//! Interface addressing and routing.
//!
//! These go through `ifconfig` and `route` rather than hand-built ioctl and
//! PF_ROUTE structs: the same thing every macOS VPN client does, and the
//! commands are auditable and easy to undo.

use vstd::prelude::*;
use vstd::string::*;

use crate::addr::Ipv4Addr;
use crate::text::{decimal, joined, push_decimal, texts, trim, trimmed};

verus! {

pub const IFCONFIG: &'static str = "/sbin/ifconfig";

pub const ROUTE: &'static str = "/sbin/route";

/// A command to run.
#[derive(Debug)]
pub struct Command {
    pub program: String,
    pub args: Vec<String>,
}

/// A command as plain text.
#[verifier::ext_equal]
pub struct CommandView {
    pub program: Seq<char>,
    pub args: Seq<Seq<char>>,
}

impl View for Command {
    type V = CommandView;

    open spec fn view(&self) -> CommandView {
        CommandView { program: self.program@, args: texts(self.args@) }
    }
}

/// Words between blanks.
pub open spec fn spaced(words: Seq<Seq<char>>) -> Seq<char>
    decreases words.len(),
{
    if words.len() == 0 {
        Seq::empty()
    } else if words.len() == 1 {
        words[0]
    } else {
        spaced(words.drop_last()) + " "@ + words.last()
    }
}

pub(crate) fn push_spaced(out: &mut String, words: &Vec<String>)
    ensures
        final(out)@ == old(out)@ + spaced(texts(words@)),
{
    let ghost start = out@;
    let ghost all = texts(words@);
    if words.len() == 0 {
        assert(out@ =~= start + spaced(all));
        return ;
    }
    out.append(words[0].as_str());
    assert(all.take(1)[0] == words@[0]@);
    for i in 1..words.len()
        invariant
            1 <= i,
            words@.len() > 0,
            all == texts(words@),
            out@ == start + spaced(all.take(i as int)),
    {
        let ghost upto = all.take(i + 1);
        assert(upto.drop_last() =~= all.take(i as int));
        out.append(" ");
        out.append(words[i].as_str());
        assert(out@ =~= start + spaced(upto));
    }
    assert(all.take(words@.len() as int) =~= all);
}

impl CommandView {
    /// The command line.
    pub open spec fn line(self) -> Seq<char> {
        self.program + " "@ + spaced(self.args)
    }
}

impl Command {
    /// The command line.
    pub fn line(&self) -> (s: String)
        ensures
            s@ == self@.line(),
    {
        let mut s = self.program.clone();
        s.append(" ");
        push_spaced(&mut s, &self.args);
        s
    }

    /// What is reported when the command fails.
    pub fn failure(&self, stderr: &str) -> (s: String)
        ensures
            s@ == self@.line() + " failed: "@ + trimmed(stderr@),
    {
        let mut s = self.line();
        s.append(" failed: ");
        s.append(trim(stderr).as_str());
        s
    }
}

/// Why a command did not succeed.
#[derive(Debug)]
pub struct RunError {
    pub message: String,
}

/// Something that runs commands and gives what they print.
pub trait Runner {
    fn run(&mut self, command: &Command) -> Result<String, RunError>;
}

/// A command that was run, and how it came out.
#[verifier::ext_equal]
pub struct Ran {
    pub command: CommandView,
    pub outcome: Result<String, RunError>,
}

/// A runner together with a record of what was run, which exists for specification
/// only.
pub struct Shell<R> {
    runner: R,
    log: Ghost<Seq<Ran>>,
}

impl<R> Shell<R> {
    /// Everything that was run, oldest first.
    pub closed spec fn log(&self) -> Seq<Ran> {
        self.log@
    }

    /// The runner as it stands.
    pub closed spec fn runner(&self) -> R {
        self.runner
    }
}

impl<R: Runner> Shell<R> {
    pub fn new(runner: R) -> (r: Self)
        ensures
            r.log() == Seq::<Ran>::empty(),
            r.runner() == runner,
    {
        Shell { runner, log: Ghost(Seq::empty()) }
    }

    pub fn run(&mut self, command: &Command) -> (r: Result<String, RunError>)
        ensures
            exists|t: &mut R|
                {
                    &&& #[trigger] call_ensures(R::run, (t, command), r)
                    &&& *t == old(self).runner()
                    &&& *final(t) == final(self).runner()
                },
            final(self).log() == old(self).log().push(Ran { command: command@, outcome: r }),
    {
        let r = self.runner.run(command);
        self.log = Ghost(self.log@.push(Ran { command: command@, outcome: r }));
        r
    }
}

/// Whether `log` continues `earlier`.
pub open spec fn continues(log: Seq<Ran>, earlier: Seq<Ran>) -> bool {
    &&& earlier.len() <= log.len()
    &&& forall|i: int| 0 <= i < earlier.len() ==> #[trigger] log[i] == earlier[i]
}

/// The words of `ws`, as text.
pub open spec fn words(ws: Seq<&str>) -> Seq<Seq<char>> {
    ws.map_values(|w: &str| w@)
}

pub(crate) fn owned(ws: &[&str]) -> (r: Vec<String>)
    ensures
        texts(r@) == words(ws@),
{
    let mut r: Vec<String> = Vec::new();
    assert(texts(r@) =~= words(ws@).take(0));
    for i in 0..ws.len()
        invariant
            texts(r@) == words(ws@).take(i as int),
    {
        let ghost before = texts(r@);
        let w = ws[i].to_owned();
        let ghost text = w@;
        r.push(w);
        assert(texts(r@) =~= before.push(text));
        assert(texts(r@) =~= words(ws@).take(i + 1));
    }
    assert(words(ws@).take(ws@.len() as int) =~= words(ws@));
    r
}

/// The command that gives the tunnel an address, with the phone's gateway as the
/// peer. A point-to-point tunnel; reachability comes from explicit routes.
pub open spec fn configure_command(
    interface: Seq<char>,
    ip: Ipv4Addr,
    peer: Ipv4Addr,
    mtu: u16,
) -> CommandView {
    CommandView {
        program: IFCONFIG@,
        args: seq![
            interface,
            "inet"@,
            ip.text(),
            peer.text(),
            "netmask"@,
            "255.255.255.255"@,
            "mtu"@,
            decimal(mtu as nat),
            "up"@,
        ],
    }
}

/// Give the tunnel an address, with the phone's gateway as the peer.
pub fn configure_interface<R: Runner>(
    shell: &mut Shell<R>,
    interface: &str,
    ip: Ipv4Addr,
    peer: Ipv4Addr,
    mtu: u16,
) -> (r: Result<(), RunError>)
    ensures
        final(shell).log().len() == old(shell).log().len() + 1,
        continues(final(shell).log(), old(shell).log()),
        final(shell).log().last().command == configure_command(interface@, ip, peer, mtu),
        match (r, final(shell).log().last().outcome) {
            (Ok(_), Ok(_)) => true,
            (Err(e), Err(f)) => e == f,
            _ => false,
        },
{
    let ip_text = ip.to_text();
    let peer_text = peer.to_text();
    let mut mtu_text = String::new();
    push_decimal(&mut mtu_text, mtu as u64);
    let ws: [&str; 9] = [
        interface,
        "inet",
        ip_text.as_str(),
        peer_text.as_str(),
        "netmask",
        "255.255.255.255",
        "mtu",
        mtu_text.as_str(),
        "up",
    ];
    let command = Command { program: IFCONFIG.to_owned(), args: owned(&ws) };
    assert(mtu_text@ =~= decimal(mtu as nat));
    assert(command@ =~= configure_command(interface@, ip, peer, mtu));
    match shell.run(&command) {
        Ok(_) => Ok(()),
        Err(e) => Err(e),
    }
}

/// A route: where to, and through what.
#[derive(Debug)]
pub struct Route {
    pub destination: String,
    pub via: Vec<String>,
}

/// A route as plain text.
#[verifier::ext_equal]
pub struct RouteView {
    pub destination: Seq<char>,
    pub via: Seq<Seq<char>>,
}

impl View for Route {
    type V = RouteView;

    open spec fn view(&self) -> RouteView {
        RouteView { destination: self.destination@, via: texts(self.via@) }
    }
}

/// Routes as plain text.
pub open spec fn routes_of(v: Seq<Route>) -> Seq<RouteView> {
    v.map_values(|r: Route| r@)
}

/// The command that deletes a route.
pub open spec fn delete_command(destination: Seq<char>) -> CommandView {
    CommandView { program: ROUTE@, args: seq!["-n"@, "delete"@, "-net"@, destination] }
}

/// The command that adds a route.
pub open spec fn add_command(route: RouteView) -> CommandView {
    CommandView {
        program: ROUTE@,
        args: seq!["-n"@, "add"@, "-net"@, route.destination] + route.via,
    }
}

fn delete_route(destination: &str) -> (r: Command)
    ensures
        r@ == delete_command(destination@),
{
    let ws: [&str; 4] = ["-n", "delete", "-net", destination];
    let r = Command { program: ROUTE.to_owned(), args: owned(&ws) };
    assert(r@ =~= delete_command(destination@));
    r
}

fn add_route(route: &Route) -> (r: Command)
    ensures
        r@ == add_command(route@),
{
    let ws: [&str; 4] = ["-n", "add", "-net", route.destination.as_str()];
    let mut args = owned(&ws);
    let ghost head = texts(args@);
    for i in 0..route.via.len()
        invariant
            texts(args@) == head + texts(route.via@).take(i as int),
    {
        let ghost before = texts(args@);
        let word = route.via[i].clone();
        let ghost text = word@;
        args.push(word);
        assert(texts(args@) =~= before.push(text));
        assert(texts(args@) =~= head + texts(route.via@).take(i + 1));
    }
    let r = Command { program: ROUTE.to_owned(), args };
    assert(texts(route.via@).take(route.via@.len() as int) =~= texts(route.via@));
    assert(head =~= seq!["-n"@, "add"@, "-net"@, route.destination@]);
    assert(r@ =~= add_command(route@));
    r
}

/// Where removing the routes to `destinations`, one after another, leaves the
/// record. Whether a deletion succeeds makes no difference.
pub open spec fn routes_removed(es: Seq<Ran>, at: int, destinations: Seq<Seq<char>>) -> Option<int>
    decreases destinations.len(),
{
    if destinations.len() == 0 {
        Some(at)
    } else {
        match routes_removed(es, at, destinations.drop_last()) {
            Some(next) => if next < es.len() && es[next].command == delete_command(
                destinations.last(),
            ) {
                Some(next + 1)
            } else {
                None
            },
            None => None,
        }
    }
}

/// How installing `wanted` comes out, with the routes to `done` already in place.
/// Each one replaces any leftover from an unclean shutdown; where one cannot be
/// added, those in place are removed again.
pub open spec fn routes_installed(
    es: Seq<Ran>,
    at: int,
    wanted: Seq<RouteView>,
    done: Seq<Seq<char>>,
) -> Option<(Result<Seq<Seq<char>>, RunError>, int)>
    decreases wanted.len(),
{
    if wanted.len() == 0 {
        Some((Ok(done), at))
    } else if at + 2 > es.len() || es[at].command != delete_command(wanted[0].destination) || es[at
        + 1].command != add_command(wanted[0]) {
        None
    } else {
        match es[at + 1].outcome {
            Ok(_) => routes_installed(
                es,
                at + 2,
                wanted.skip(1),
                done.push(wanted[0].destination),
            ),
            Err(e) => match routes_removed(es, at + 2, done) {
                Some(next) => Some((Err(e), next)),
                None => None,
            },
        }
    }
}

/// The route to the phone's own subnet, reachable directly over the tunnel. The
/// /32 point-to-point address reaches the router, but not the rest of the subnet
/// behind it.
pub open spec fn subnet_route(interface: Seq<char>, subnet: Ipv4Addr, prefix: u8) -> RouteView {
    RouteView {
        destination: subnet.text() + "/"@ + decimal(prefix as nat),
        via: seq!["-interface"@, interface],
    }
}

/// The routes of the VPN split-default trick: two halves of the address space beat
/// the physical default without replacing it.
pub open spec fn default_routes(
    interface: Seq<char>,
    gateway: Ipv4Addr,
    subnet: Ipv4Addr,
    prefix: u8,
) -> Seq<RouteView> {
    seq![
        subnet_route(interface, subnet, prefix),
        RouteView { destination: "0.0.0.0/1"@, via: seq![gateway.text()] },
        RouteView { destination: "128.0.0.0/1"@, via: seq![gateway.text()] },
    ]
}

fn make_subnet_route(interface: &str, subnet: Ipv4Addr, prefix: u8) -> (r: Route)
    ensures
        r@ == subnet_route(interface@, subnet, prefix),
{
    let mut destination = subnet.to_text();
    destination.append("/");
    push_decimal(&mut destination, prefix as u64);
    let ws: [&str; 2] = ["-interface", interface];
    let r = Route { destination, via: owned(&ws) };
    assert(r@ =~= subnet_route(interface@, subnet, prefix));
    r
}

fn make_half_route(half: &str, gateway: Ipv4Addr) -> (r: Route)
    ensures
        r@ == (RouteView { destination: half@, via: seq![gateway.text()] }),
{
    let gateway_text = gateway.to_text();
    let ws: [&str; 1] = [gateway_text.as_str()];
    let r = Route { destination: half.to_owned(), via: owned(&ws) };
    assert(r@ =~= (RouteView { destination: half@, via: seq![gateway.text()] }));
    r
}

/// Routes we installed, removed on teardown.
#[derive(Debug)]
pub struct Routes {
    destinations: Vec<String>,
}

impl View for Routes {
    type V = Seq<Seq<char>>;

    /// The destinations, in the order they were added.
    closed spec fn view(&self) -> Seq<Seq<char>> {
        texts(self.destinations@)
    }
}

/// What installing routes gives, as plain text.
pub open spec fn installed_of(r: Result<Routes, RunError>) -> Result<Seq<Seq<char>>, RunError> {
    match r {
        Ok(routes) => Ok(routes@),
        Err(e) => Err(e),
    }
}

impl Routes {
    /// Install the on-link route for the phone's subnet.
    ///
    /// The default route deliberately is not ours. macOS installs one from the
    /// service `Dns` publishes, for as long as that service ranks primary, and
    /// steps aside when a VPN outranks it. Claiming the address space directly —
    /// the `0.0.0.0/1` plus `128.0.0.0/1` pair VPNs use — would beat any VPN
    /// layered on the tether and send its traffic out in the clear.
    pub fn install<R: Runner>(
        shell: &mut Shell<R>,
        interface: &str,
        subnet: Ipv4Addr,
        prefix: u8,
    ) -> (r: Result<Self, RunError>)
        ensures
            continues(final(shell).log(), old(shell).log()),
            routes_installed(
                final(shell).log(),
                old(shell).log().len() as int,
                seq![subnet_route(interface@, subnet, prefix)],
                Seq::empty(),
            ) == Some((installed_of(r), final(shell).log().len() as int)),
    {
        let mut wanted: Vec<Route> = Vec::new();
        wanted.push(make_subnet_route(interface, subnet, prefix));
        assert(routes_of(wanted@) =~= seq![subnet_route(interface@, subnet, prefix)]);
        Self::install_all(shell, wanted)
    }

    /// Take over routing with the VPN split-default trick: two halves of the
    /// address space beat the physical default without replacing it, so
    /// teardown is a clean delete rather than a restore.
    pub fn install_default<R: Runner>(
        shell: &mut Shell<R>,
        interface: &str,
        gateway: Ipv4Addr,
        subnet: Ipv4Addr,
        prefix: u8,
    ) -> (r: Result<Self, RunError>)
        ensures
            continues(final(shell).log(), old(shell).log()),
            routes_installed(
                final(shell).log(),
                old(shell).log().len() as int,
                default_routes(interface@, gateway, subnet, prefix),
                Seq::empty(),
            ) == Some((installed_of(r), final(shell).log().len() as int)),
    {
        let mut wanted: Vec<Route> = Vec::new();
        wanted.push(make_subnet_route(interface, subnet, prefix));
        wanted.push(make_half_route("0.0.0.0/1", gateway));
        wanted.push(make_half_route("128.0.0.0/1", gateway));
        assert(routes_of(wanted@) =~= default_routes(interface@, gateway, subnet, prefix));
        Self::install_all(shell, wanted)
    }

    fn install_all<R: Runner>(shell: &mut Shell<R>, wanted: Vec<Route>) -> (r: Result<
        Self,
        RunError,
    >)
        ensures
            continues(final(shell).log(), old(shell).log()),
            routes_installed(
                final(shell).log(),
                old(shell).log().len() as int,
                routes_of(wanted@),
                Seq::empty(),
            ) == Some((installed_of(r), final(shell).log().len() as int)),
    {
        let ghost start = shell.log();
        let ghost all = routes_of(wanted@);
        let mut routes = Routes { destinations: Vec::new() };
        assert(routes@ =~= Seq::empty());
        assert(all.skip(0) =~= all);
        for i in 0..wanted.len()
            invariant
                start == old(shell).log(),
                all == routes_of(wanted@),
                continues(shell.log(), start),
                forall|l: Seq<Ran>| #[trigger]
                    continues(l, shell.log()) ==> routes_installed(
                        l,
                        start.len() as int,
                        all,
                        Seq::empty(),
                    ) == routes_installed(
                        l,
                        shell.log().len() as int,
                        all.skip(i as int),
                        routes@,
                    ),
        {
            let ghost held = shell.log();
            let ghost left = all.skip(i as int);
            let ghost done = routes@;
            let route = &wanted[i];
            assert(left[0] == route@);
            // Replace any leftover from an unclean shutdown.
            let _ = shell.run(&delete_route(route.destination.as_str()));
            let added = shell.run(&add_route(route));
            let ghost tried = shell.log();
            proof {
                assert(tried[held.len() as int].command == delete_command(route@.destination));
                assert(tried[held.len() + 1int].command == add_command(route@));
                assert(tried[held.len() + 1int].outcome == added);
                assert forall|l: Seq<Ran>| #[trigger] continues(l, tried) implies continues(
                    l,
                    held,
                ) by {}
                assert(left.skip(1) =~= all.skip(i + 1));
            }
            match added {
                Ok(_) => {
                    let destination = route.destination.clone();
                    routes.destinations.push(destination);
                    assert(routes@ =~= done.push(route@.destination));
                },
                Err(e) => {
                    routes.remove(shell);
                    proof {
                        assert(continues(shell.log(), shell.log()));
                        assert(continues(shell.log(), tried));
                    }
                    return Err(e);
                },
            }
        }
        proof {
            assert(all.skip(wanted@.len() as int) =~= Seq::empty());
            assert(continues(shell.log(), shell.log()));
        }
        Ok(routes)
    }

    /// Remove everything we added. Safe to call more than once.
    pub fn remove<R: Runner>(&mut self, shell: &mut Shell<R>)
        ensures
            final(self)@ == Seq::<Seq<char>>::empty(),
            continues(final(shell).log(), old(shell).log()),
            routes_removed(final(shell).log(), old(shell).log().len() as int, old(self)@) == Some(
                final(shell).log().len() as int,
            ),
    {
        let ghost start = shell.log();
        let ghost all = self@;
        assert(all.take(0) =~= Seq::empty());
        for i in 0..self.destinations.len()
            invariant
                start == old(shell).log(),
                all == texts(self.destinations@),
                continues(shell.log(), start),
                forall|l: Seq<Ran>| #[trigger]
                    continues(l, shell.log()) ==> routes_removed(
                        l,
                        start.len() as int,
                        all.take(i as int),
                    ) == Some(shell.log().len() as int),
        {
            let ghost held = shell.log();
            let ghost upto = all.take(i + 1);
            let _ = shell.run(&delete_route(self.destinations[i].as_str()));
            proof {
                assert(upto.drop_last() =~= all.take(i as int));
                assert(upto.last() == self.destinations@[i as int]@);
                assert(shell.log()[held.len() as int].command == delete_command(upto.last()));
                assert forall|l: Seq<Ran>| #[trigger] continues(
                    l,
                    shell.log(),
                ) implies continues(l, held) by {}
            }
        }
        proof {
            assert(all.take(self.destinations@.len() as int) =~= all);
            assert(continues(shell.log(), shell.log()));
        }
        self.destinations = Vec::new();
        assert(self@ =~= Seq::empty());
    }
}

/// What is on record stays: later commands do not change how an installation came
/// out.
pub proof fn lemma_routes_installed_stays(
    es: Seq<Ran>,
    l: Seq<Ran>,
    at: int,
    wanted: Seq<RouteView>,
    done: Seq<Seq<char>>,
)
    requires
        at >= 0,
        continues(l, es),
        routes_installed(es, at, wanted, done) is Some,
    ensures
        routes_installed(l, at, wanted, done) == routes_installed(es, at, wanted, done),
    decreases wanted.len(),
{
    if wanted.len() > 0 {
        match es[at + 1].outcome {
            Ok(_) => lemma_routes_installed_stays(
                es,
                l,
                at + 2,
                wanted.skip(1),
                done.push(wanted[0].destination),
            ),
            Err(_) => lemma_routes_removed_stays(es, l, at + 2, done),
        }
    }
}

proof fn lemma_routes_removed_stays(
    es: Seq<Ran>,
    l: Seq<Ran>,
    at: int,
    destinations: Seq<Seq<char>>,
)
    requires
        at >= 0,
        continues(l, es),
        routes_removed(es, at, destinations) is Some,
    ensures
        routes_removed(l, at, destinations) == routes_removed(es, at, destinations),
        routes_removed(es, at, destinations)->0 >= at,
    decreases destinations.len(),
{
    if destinations.len() > 0 {
        lemma_routes_removed_stays(es, l, at, destinations.drop_last());
    }
}

/// The network address of `ip` under `netmask`.
pub fn subnet_of(ip: Ipv4Addr, netmask: Ipv4Addr) -> (r: Ipv4Addr)
    ensures
        r.bits == ip.bits & netmask.bits,
{
    Ipv4Addr { bits: ip.bits & netmask.bits }
}

/// The network address keeps the bits the mask selects and clears the others, and
/// taking it again changes nothing.
pub proof fn network_address_is_stable(ip: u32, netmask: u32)
    ensures
        (ip & netmask) & netmask == ip & netmask,
        (ip & netmask) & !netmask == 0,
{
    assert((ip & netmask) & netmask == ip & netmask && (ip & netmask) & !netmask == 0)
        by (bit_vector);
}

/// Removing routes that are gone runs nothing.
pub proof fn removing_twice_runs_nothing_more(es: Seq<Ran>, at: int)
    ensures
        routes_removed(es, at, Seq::empty()) == Some(at),
{
}

/// Every route that was installed is deleted on removal, in the order it was added,
/// and nothing else is run.
pub proof fn every_route_is_deleted(es: Seq<Ran>, at: int, destinations: Seq<Seq<char>>, i: int)
    requires
        routes_removed(es, at, destinations) is Some,
        0 <= i < destinations.len(),
    ensures
        routes_removed(es, at, destinations) == Some(at + destinations.len()),
        at + i < es.len(),
        es[at + i].command == delete_command(destinations[i]),
    decreases destinations.len(),
{
    let init = destinations.drop_last();
    if init.len() > 0 {
        every_route_is_deleted(
            es,
            at,
            init,
            if i < init.len() {
                i
            } else {
                0
            },
        );
        assert(i < init.len() ==> init[i] == destinations[i]);
    } else {
        assert(routes_removed(es, at, init) == Some(at));
    }
}

/// The commands word by word.
pub proof fn commands_are_worded(
    interface: Seq<char>,
    ip: Ipv4Addr,
    peer: Ipv4Addr,
    mtu: u16,
    route: RouteView,
    prefix: u8,
)
    ensures
        configure_command(interface, ip, peer, mtu).program == "/sbin/ifconfig"@,
        configure_command(interface, ip, peer, mtu).args == seq![
            interface,
            "inet"@,
            ip.text(),
            peer.text(),
            "netmask"@,
            "255.255.255.255"@,
            "mtu"@,
            decimal(mtu as nat),
            "up"@,
        ],
        delete_command(route.destination).program == "/sbin/route"@,
        delete_command(route.destination).args == seq![
            "-n"@,
            "delete"@,
            "-net"@,
            route.destination,
        ],
        add_command(route).program == "/sbin/route"@,
        add_command(route).args == seq!["-n"@, "add"@, "-net"@, route.destination] + route.via,
        subnet_route(interface, ip, prefix).destination == ip.text() + "/"@ + decimal(
            prefix as nat,
        ),
        subnet_route(interface, ip, prefix).via == seq!["-interface"@, interface],
{
}

/// Routes that are installed are all in place, in the order wanted: for each, a leftover
/// was deleted and the route added, and adding it worked.
pub proof fn installed_routes_are_in_place(
    es: Seq<Ran>,
    at: int,
    wanted: Seq<RouteView>,
    done: Seq<Seq<char>>,
    i: int,
)
    requires
        0 <= at,
        routes_installed(es, at, wanted, done) matches Some((Ok(_), _)),
        0 <= i < wanted.len(),
    ensures
        routes_installed(es, at, wanted, done) matches Some((Ok(kept), next)) && {
            &&& next == at + 2 * wanted.len()
            &&& kept.len() == done.len() + wanted.len()
            &&& kept[done.len() + i] == wanted[i].destination
            &&& kept.take(done.len() as int) == done
            &&& next <= es.len()
            &&& es[at + 2 * i].command == delete_command(wanted[i].destination)
            &&& es[at + 2 * i + 1].command == add_command(wanted[i])
            &&& es[at + 2 * i + 1].outcome is Ok
        },
    decreases wanted.len(),
{
    let rest = wanted.skip(1);
    let more = done.push(wanted[0].destination);
    if rest.len() > 0 {
        let k = if i > 0 {
            i - 1
        } else {
            0
        };
        installed_routes_are_in_place(es, at + 2, rest, more, k);
        let (r, _) = routes_installed(es, at, wanted, done)->0;
        let kept = r->Ok_0;
        assert(kept.take(more.len() as int) == more);
        assert(kept[done.len() as int] == more[done.len() as int]) by {
            assert(kept.take(more.len() as int)[done.len() as int] == more[done.len() as int]);
        }
        assert(kept.take(done.len() as int) =~= done) by {
            assert(kept.take(done.len() as int) =~= kept.take(more.len() as int).take(
                done.len() as int,
            ));
            assert(more.take(done.len() as int) =~= done);
        }
        if i > 0 {
            assert(rest[i - 1] == wanted[i]);
        }
    } else {
        assert(routes_installed(es, at + 2, rest, more) == Some(
            (Ok::<Seq<Seq<char>>, RunError>(more), at + 2),
        ));
        assert(more.take(done.len() as int) =~= done);
    }
}

/// An installation that fails says why the first route that could not be added was not,
/// and deletes every route that it had added, in order; nothing more is run.
pub proof fn failed_installations_are_undone(
    es: Seq<Ran>,
    at: int,
    wanted: Seq<RouteView>,
    done: Seq<Seq<char>>,
)
    requires
        0 <= at,
        routes_installed(es, at, wanted, done) matches Some((Err(_), _)),
    ensures
        routes_installed(es, at, wanted, done) matches Some((Err(e), next)) && exists|k: int|
            {
                &&& 0 <= k < wanted.len()
                &&& #[trigger] stops_at(es, at, wanted, done, k, e, next)
            },
    decreases wanted.len(),
{
    let (r, next) = routes_installed(es, at, wanted, done)->0;
    let e = r->Err_0;
    if es[at + 1].outcome is Err {
        if done.len() > 0 {
            every_route_is_deleted(es, at + 2, done, 0);
        }
        assert forall|j: int| 0 <= j < done.len() implies es[at + 2 + j].command
            == delete_command(#[trigger] added_before(done, wanted, 0)[j]) by {
            every_route_is_deleted(es, at + 2, done, j);
            assert(added_before(done, wanted, 0) =~= done);
        }
        assert(stops_at(es, at, wanted, done, 0, e, next));
    } else {
        let rest = wanted.skip(1);
        let more = done.push(wanted[0].destination);
        failed_installations_are_undone(es, at + 2, rest, more);
        let k = choose|k: int|
            0 <= k < rest.len() && #[trigger] stops_at(es, at + 2, rest, more, k, e, next);
        assert(added_before(more, rest, k) =~= added_before(done, wanted, k + 1));
        assert(rest[k] == wanted[k + 1]);
        assert(stops_at(es, at, wanted, done, k + 1, e, next));
    }
}

/// The destinations in place once the first `k` of `wanted` were added behind `done`.
pub open spec fn added_before(done: Seq<Seq<char>>, wanted: Seq<RouteView>, k: int) -> Seq<
    Seq<char>,
> {
    done + wanted.take(k).map_values(|r: RouteView| r.destination)
}

/// Whether the record shows that route `k` could not be added, for `e`, and that all
/// routes in place by then were deleted behind that, up to `next`.
pub open spec fn stops_at(
    es: Seq<Ran>,
    at: int,
    wanted: Seq<RouteView>,
    done: Seq<Seq<char>>,
    k: int,
    e: RunError,
    next: int,
) -> bool {
    let tried = at + 2 * k;
    let placed = added_before(done, wanted, k);
    &&& es[tried + 1].command == add_command(wanted[k])
    &&& es[tried + 1].outcome == Err::<String, RunError>(e)
    &&& next == tried + 2 + placed.len()
    &&& next <= es.len()
    &&& forall|j: int|
        0 <= j < placed.len() ==> es[tried + 2 + j].command == delete_command(#[trigger] placed[j])
}

/// A command line is the program and its words, a blank between each two.
pub proof fn command_lines_are_words_between_blanks(c: CommandView)
    requires
        c.args.len() > 0,
    ensures
        c.line() == joined(seq![c.program] + c.args, ' '),
    decreases c.args.len(),
{
    let all = seq![c.program] + c.args;
    reveal_strlit(" ");
    reveal_with_fuel(joined, 2);
    if c.args.len() == 1 {
        assert(all.drop_last() =~= seq![c.program]);
        assert(c.line() =~= joined(all, ' '));
    } else {
        let shorter = CommandView { program: c.program, args: c.args.drop_last() };
        command_lines_are_words_between_blanks(shorter);
        assert(all.drop_last() =~= seq![c.program] + c.args.drop_last());
        assert(c.line() =~= joined(all, ' '));
    }
}

/// The split default covers all addresses in two halves through the gateway, behind the
/// route to the subnet.
pub proof fn default_routes_are_two_halves(
    interface: Seq<char>,
    gateway: Ipv4Addr,
    subnet: Ipv4Addr,
    prefix: u8,
)
    ensures
        ({
            let routes = default_routes(interface, gateway, subnet, prefix);
            &&& routes.len() == 3
            &&& routes[0].destination == subnet.text() + "/"@ + decimal(prefix as nat)
            &&& routes[0].via == seq!["-interface"@, interface]
            &&& routes[1].destination == "0.0.0.0/1"@
            &&& routes[1].via == seq![gateway.text()]
            &&& routes[2].destination == "128.0.0.0/1"@
            &&& routes[2].via == seq![gateway.text()]
        }),
{
}

/// What is said of a command and of a route is what stands in it.
pub proof fn commands_and_routes_show_all_they_hold(c: Command, r: Route)
    ensures
        c@.program == c.program@,
        c@.args == texts(c.args@),
        r@.destination == r.destination@,
        r@.via == texts(r.via@),
{
}

} // verus!
