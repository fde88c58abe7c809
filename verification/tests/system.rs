use std::collections::VecDeque;
use std::sync::{Arc, Mutex};

use muta::addr::Ipv4Addr;
use muta::netstack::Lease;
use muta::time::Duration;
use muta::tun::dns::{Dns, DnsError, DynamicStore, Entry, Registry, Value};
use muta::tun::net::{configure_interface, Command, Routes, RunError, Runner, Shell};
use muta::tun::units::Units as Recorded;
use muta::tun::utun::{
    self, frame_packet, kernel_unit, name_len, read_timeout, strip_header, Families, UnitError,
    UnitOpener,
};
use muta::tunnel::{raise, TunnelError, TunnelPlan};

/// Records what is run; the commands named fail.
#[derive(Clone, Default)]
struct Recorder {
    ran: Arc<Mutex<Vec<String>>>,
    failing: Vec<&'static str>,
}

impl Runner for Recorder {
    fn run(&mut self, command: &Command) -> Result<String, RunError> {
        let line = command.line();
        let fails = self.failing.iter().any(|f| line.contains(f));
        self.ran.lock().unwrap().push(line);
        if fails {
            Err(RunError {
                message: command.failure(" no luck \n"),
            })
        } else {
            Ok(String::new())
        }
    }
}

/// Keeps what it is told, unless told to refuse a key.
#[derive(Clone, Default)]
struct Keeper {
    told: Arc<Mutex<Vec<String>>>,
    refusing: Option<&'static str>,
    closed: bool,
}

fn shown(v: &Value) -> String {
    match v {
        Value::Text(s) => s.clone(),
        Value::List(l) => format!("[{}]", l.join(" ")),
    }
}

impl DynamicStore for Keeper {
    fn open(&mut self) -> bool {
        self.told.lock().unwrap().push("open".into());
        !self.closed
    }

    fn set(&mut self, key: &str, entries: &Vec<Entry>) -> bool {
        let entries: Vec<String> = entries
            .iter()
            .map(|e| format!("{}={}", e.name, shown(&e.value)))
            .collect();
        self.told
            .lock()
            .unwrap()
            .push(format!("{key}: {}", entries.join(" ")));
        self.refusing.map_or(true, |r| !key.ends_with(r))
    }

    fn remove(&mut self, key: &str) -> bool {
        self.told.lock().unwrap().push(format!("remove {key}"));
        true
    }
}

fn lease() -> Lease {
    Lease {
        ip: Ipv4Addr::new(192, 168, 42, 130),
        netmask: Ipv4Addr::new(255, 255, 255, 0),
        router: Some(Ipv4Addr::new(192, 168, 42, 129)),
        dns: vec![Ipv4Addr::new(8, 8, 8, 8), Ipv4Addr::new(1, 1, 1, 1)],
        domain: Some("lan".into()),
        mtu: Some(1400),
        server_id: Ipv4Addr::new(192, 168, 42, 129),
        lease_time: Duration::from_secs(3600),
        renewal_time: Duration::from_secs(1800),
    }
}

#[test]
fn an_interface_is_configured_with_its_peer() {
    let runner = Recorder::default();
    let mut shell = Shell::new(runner.clone());
    configure_interface(
        &mut shell,
        "utun4",
        Ipv4Addr::new(10, 0, 0, 2),
        Ipv4Addr::new(10, 0, 0, 1),
        1500,
    )
    .unwrap();
    assert_eq!(
        *runner.ran.lock().unwrap(),
        ["/sbin/ifconfig utun4 inet 10.0.0.2 10.0.0.1 netmask 255.255.255.255 mtu 1500 up"]
    );
}

#[test]
fn routes_replace_leftovers_and_are_removed_once() {
    let runner = Recorder {
        failing: vec!["delete"],
        ..Recorder::default()
    };
    let mut shell = Shell::new(runner.clone());
    let mut routes =
        Routes::install(&mut shell, "utun4", Ipv4Addr::new(192, 168, 42, 0), 24).unwrap();
    routes.remove(&mut shell);
    routes.remove(&mut shell);
    assert_eq!(
        *runner.ran.lock().unwrap(),
        [
            "/sbin/route -n delete -net 192.168.42.0/24",
            "/sbin/route -n add -net 192.168.42.0/24 -interface utun4",
            "/sbin/route -n delete -net 192.168.42.0/24",
        ]
    );
}

#[test]
fn routes_that_went_in_are_taken_out_when_one_fails() {
    let runner = Recorder {
        failing: vec!["add -net 128.0.0.0/1"],
        ..Recorder::default()
    };
    let mut shell = Shell::new(runner.clone());
    let e = Routes::install_default(
        &mut shell,
        "utun4",
        Ipv4Addr::new(192, 168, 42, 129),
        Ipv4Addr::new(192, 168, 42, 0),
        24,
    )
    .unwrap_err();
    assert_eq!(
        e.message,
        "/sbin/route -n add -net 128.0.0.0/1 192.168.42.129 failed: no luck"
    );
    assert_eq!(
        *runner.ran.lock().unwrap(),
        [
            "/sbin/route -n delete -net 192.168.42.0/24",
            "/sbin/route -n add -net 192.168.42.0/24 -interface utun4",
            "/sbin/route -n delete -net 0.0.0.0/1",
            "/sbin/route -n add -net 0.0.0.0/1 192.168.42.129",
            "/sbin/route -n delete -net 128.0.0.0/1",
            "/sbin/route -n add -net 128.0.0.0/1 192.168.42.129",
            "/sbin/route -n delete -net 192.168.42.0/24",
            "/sbin/route -n delete -net 0.0.0.0/1",
        ]
    );
}

#[test]
fn a_tunnel_is_addressed_routed_and_published() {
    let runner = Recorder::default();
    let keeper = Keeper::default();
    let mut shell = Shell::new(runner.clone());
    let mut registry = Registry::new(keeper.clone());
    let lease = lease();
    let plan = TunnelPlan::for_lease(&lease).unwrap();
    assert_eq!(plan.buffer_len, 1400 + 4 + 64);
    assert_eq!(plan.prefix, 24);
    let (mut routes, mut dns) =
        raise(&mut shell, &mut registry, "utun4", &lease, &plan).unwrap();
    assert_eq!(
        *runner.ran.lock().unwrap(),
        [
            "/sbin/ifconfig utun4 inet 192.168.42.130 192.168.42.129 netmask 255.255.255.255 mtu 1400 up",
            "/sbin/route -n delete -net 192.168.42.0/24",
            "/sbin/route -n add -net 192.168.42.0/24 -interface utun4",
        ]
    );
    assert_eq!(
        *keeper.told.lock().unwrap(),
        [
            "open",
            "State:/Network/Service/muta/IPv4: Addresses=[192.168.42.130] SubnetMasks=[255.255.255.255] Router=192.168.42.129 InterfaceName=utun4",
            "State:/Network/Service/muta/DNS: ServerAddresses=[8.8.8.8 1.1.1.1] SupplementalMatchDomains=[] DomainName=lan SearchDomains=[lan]",
        ]
    );
    routes.remove(&mut shell);
    dns.remove(&mut registry);
    dns.remove(&mut registry);
    assert_eq!(
        keeper.told.lock().unwrap()[3..],
        [
            "remove State:/Network/Service/muta/IPv4",
            "remove State:/Network/Service/muta/DNS"
        ]
    );
}

#[test]
fn a_tunnel_that_is_refused_leaves_nothing_behind() {
    let runner = Recorder::default();
    let keeper = Keeper {
        refusing: Some("DNS"),
        ..Keeper::default()
    };
    let mut shell = Shell::new(runner.clone());
    let mut registry = Registry::new(keeper.clone());
    let lease = lease();
    let plan = TunnelPlan::for_lease(&lease).unwrap();
    let e = raise(&mut shell, &mut registry, "utun4", &lease, &plan).unwrap_err();
    assert_eq!(
        e.message(),
        "publishing the tunnel as a network service: SCDynamicStore rejected State:/Network/Service/muta/DNS"
    );
    assert_eq!(
        runner.ran.lock().unwrap().last().unwrap(),
        "/sbin/route -n delete -net 192.168.42.0/24"
    );
    assert_eq!(
        keeper.told.lock().unwrap().last().unwrap(),
        "remove State:/Network/Service/muta/IPv4"
    );
}

#[test]
fn each_step_of_a_tunnel_can_fail() {
    let mut bare = lease();
    bare.router = None;
    assert!(matches!(
        TunnelPlan::for_lease(&bare),
        Err(TunnelError::NoGateway)
    ));
    assert_eq!(
        TunnelError::NoGateway.message(),
        "lease has no gateway; cannot route through the phone"
    );

    let mut lease = lease();
    lease.mtu = None;
    let plan = TunnelPlan::for_lease(&lease).unwrap();
    assert_eq!(plan.mtu, 1500);
    let mut registry = Registry::new(Keeper::default());
    let mut shell = Shell::new(Recorder {
        failing: vec!["ifconfig"],
        ..Recorder::default()
    });
    assert!(matches!(
        raise(&mut shell, &mut registry, "utun4", &lease, &plan),
        Err(TunnelError::Interface(_))
    ));
    let mut shell = Shell::new(Recorder {
        failing: vec!["add"],
        ..Recorder::default()
    });
    assert!(matches!(
        raise(&mut shell, &mut registry, "utun4", &lease, &plan),
        Err(TunnelError::Routes(_))
    ));
    lease.dns.clear();
    let mut shell = Shell::new(Recorder::default());
    assert!(matches!(
        raise(&mut shell, &mut registry, "utun4", &lease, &plan),
        Err(TunnelError::Service(DnsError::NoServers))
    ));
    assert_eq!(DnsError::NoServers.message(), "no DNS servers in the lease");
    let keeper = Keeper {
        refusing: Some("IPv4"),
        ..Keeper::default()
    };
    let mut registry = Registry::new(keeper.clone());
    let e = Dns::install(
        &mut registry,
        "utun4",
        lease.ip,
        lease.server_id,
        &vec![lease.server_id],
        &None,
    )
    .unwrap_err();
    assert!(matches!(e, DnsError::Rejected(k) if k.ends_with("IPv4")));
    assert_eq!(keeper.told.lock().unwrap().len(), 2);
}

#[test]
fn a_store_that_does_not_open_is_told_apart() {
    let runner = Recorder::default();
    let keeper = Keeper {
        closed: true,
        ..Keeper::default()
    };
    let mut shell = Shell::new(runner.clone());
    let mut registry = Registry::new(keeper.clone());
    let lease = lease();
    let plan = TunnelPlan::for_lease(&lease).unwrap();
    let e = raise(&mut shell, &mut registry, "utun4", &lease, &plan).unwrap_err();
    assert_eq!(
        e.message(),
        "publishing the tunnel as a network service: could not open SCDynamicStore (is the daemon running as root?)"
    );
    assert_eq!(*keeper.told.lock().unwrap(), ["open"]);
    // The interface was configured first, and the route is gone again.
    assert!(runner.ran.lock().unwrap()[0].starts_with("/sbin/ifconfig"));
    assert_eq!(
        runner.ran.lock().unwrap().last().unwrap(),
        "/sbin/route -n delete -net 192.168.42.0/24"
    );
}

#[derive(Clone)]
struct Units(Arc<Mutex<VecDeque<UnitError>>>);

impl UnitOpener for Units {
    type Device = u32;

    fn open_unit(&self, unit: u32) -> Result<u32, UnitError> {
        match self.0.lock().unwrap().pop_front() {
            Some(e) => Err(e),
            None => Ok(unit),
        }
    }
}

fn units(errors: Vec<UnitError>) -> Units {
    Units(Arc::new(Mutex::new(errors.into())))
}

#[test]
fn the_first_free_unit_is_taken() {
    let busy = |n: usize| (0..n).map(|i| UnitError::Busy(format!("{i}"))).collect();
    assert_eq!(utun::open(&mut Recorded::new(units(busy(0)))).unwrap(), 0);
    assert_eq!(utun::open(&mut Recorded::new(units(busy(254)))).unwrap(), 254);
    assert_eq!(
        utun::open(&mut Recorded::new(units(busy(255)))).unwrap_err().message(),
        "no free utun device: 254"
    );
}

#[test]
fn a_failure_of_every_unit_is_not_repeated() {
    let opener = units(vec![
        UnitError::Busy("taken".into()),
        UnitError::Other("not root".into()),
        UnitError::Other("never reached".into()),
    ]);
    assert_eq!(
        utun::open(&mut Recorded::new(opener.clone()))
            .unwrap_err()
            .message(),
        "not root"
    );
    assert_eq!(opener.0.lock().unwrap().len(), 1);
}

#[test]
fn packets_carry_their_family() {
    let families = Families { inet: 2, inet6: 30 };
    assert_eq!(
        frame_packet(&[0x45, 9], families).unwrap(),
        [0, 0, 0, 2, 0x45, 9]
    );
    assert_eq!(
        frame_packet(&[0x60], families).unwrap(),
        [0, 0, 0, 30, 0x60]
    );
    let mut buf = vec![0, 0, 0, 2, 0x45, 9, 7, 7];
    assert_eq!(strip_header(&mut buf, 6), 2);
    assert_eq!(&buf[..2], &[0x45, 9]);
    assert_eq!(strip_header(&mut buf, 3), 0);
}

#[test]
fn small_facts_about_utun() {
    assert_eq!(kernel_unit(0), 1);
    assert_eq!(name_len(b"utun4\0\0"), 5);
    assert_eq!(name_len(b"abc"), 3);
    let t = read_timeout(1250);
    assert_eq!((t.seconds, t.micros), (1, 250_000));
    let t = read_timeout(-1250);
    assert_eq!((t.seconds, t.micros), (-1, -250_000));
}
