use muta::addr::Ipv4Addr;
use muta::daemon::session::Traffic;
use muta::daemon::{Session, SessionAction, SessionEvent, Watch, WatchAction, WatchEvent};
use muta::device::Scan;
use muta::link::LinkEvent;
use muta::netstack::Lease;
use muta::status::Status;
use muta::time::{Clock, Duration, Instant};
use muta::usb::{DeviceId, DeviceInfo, RndisFunction, UsbError};

fn lease(last: u8) -> Box<Lease> {
    Box::new(Lease {
        ip: Ipv4Addr::new(192, 168, 42, last),
        netmask: Ipv4Addr::new(255, 255, 255, 0),
        router: Some(Ipv4Addr::new(192, 168, 42, 129)),
        dns: vec![Ipv4Addr::new(8, 8, 8, 8)],
        domain: None,
        mtu: None,
        server_id: Ipv4Addr::new(192, 168, 42, 129),
        lease_time: Duration::from_secs(3600),
        renewal_time: Duration::from_secs(1800),
    })
}

fn at(secs: u64) -> Instant {
    Instant {
        nanos: secs * 1_000_000_000,
    }
}

/// A session that has heard of this lease and brought its tunnel up.
fn connected() -> Session {
    let mut s = Session::new(at(0));
    assert!(matches!(
        s.step(SessionEvent::Stop(false)),
        SessionAction::Listen(d) if d == Duration::from_millis(100)
    ));
    let heard = s.step(SessionEvent::Heard(Some(LinkEvent::Bound(lease(130)))));
    assert!(matches!(heard, SessionAction::Replace(l) if l.ip == lease(130).ip));
    assert!(matches!(
        s.step(SessionEvent::Raised(Ok(()))),
        SessionAction::ReadClock
    ));
    s
}

fn assert_ends(s: &mut Session, first: SessionAction, why: Option<&str>) {
    assert!(matches!(first, SessionAction::Detach));
    assert!(matches!(s.step(SessionEvent::Done), SessionAction::Lower));
    assert!(matches!(s.step(SessionEvent::Done), SessionAction::Halt));
    assert!(matches!(s.step(SessionEvent::Done), SessionAction::StopLink));
    match s.step(SessionEvent::Done) {
        SessionAction::End(reason) => assert_eq!(reason.as_deref(), why),
        other => panic!("expected the end, got {other:?}"),
    }
}

#[test]
fn a_renewed_address_keeps_its_tunnel() {
    let mut s = connected();
    assert!(matches!(
        s.step(SessionEvent::Time(at(1))),
        SessionAction::AskStop
    ));
    s.step(SessionEvent::Stop(false));
    assert!(matches!(
        s.step(SessionEvent::Heard(Some(LinkEvent::Bound(lease(130))))),
        SessionAction::ReadClock
    ));
    s.step(SessionEvent::Time(at(2)));
    s.step(SessionEvent::Stop(false));
    assert!(matches!(
        s.step(SessionEvent::Heard(Some(LinkEvent::Bound(lease(131))))),
        SessionAction::Replace(_)
    ));
}

#[test]
fn keepalives_go_out_every_ten_seconds() {
    let mut s = connected();
    assert!(matches!(
        s.step(SessionEvent::Time(at(9))),
        SessionAction::AskStop
    ));
    s.step(SessionEvent::Stop(false));
    s.step(SessionEvent::Heard(None));
    assert!(matches!(
        s.step(SessionEvent::Time(at(10))),
        SessionAction::Keepalive
    ));
    let count = Traffic {
        bytes_in: 500,
        bytes_out: 70,
    };
    assert!(matches!(
        s.step(SessionEvent::KeptAlive(Ok(count))),
        SessionAction::Report(t) if t == count
    ));
    assert!(matches!(s.step(SessionEvent::Done), SessionAction::AskStop));
    s.step(SessionEvent::Stop(false));
    s.step(SessionEvent::Heard(None));
    assert!(matches!(
        s.step(SessionEvent::Time(at(19))),
        SessionAction::AskStop
    ));
    s.step(SessionEvent::Stop(false));
    s.step(SessionEvent::Heard(None));
    s.step(SessionEvent::Time(at(20)));
    let later = Traffic {
        bytes_in: 800,
        bytes_out: 60,
    };
    let since = Traffic {
        bytes_in: 300,
        bytes_out: 0,
    };
    assert!(matches!(
        s.step(SessionEvent::KeptAlive(Ok(later))),
        SessionAction::Report(t) if t == since
    ));
}

#[test]
fn every_way_out_restores_the_system_in_order() {
    let mut s = connected();
    s.step(SessionEvent::Time(at(1)));
    let first = s.step(SessionEvent::Stop(true));
    assert_ends(&mut s, first, None);

    let mut s = connected();
    s.step(SessionEvent::Time(at(1)));
    s.step(SessionEvent::Stop(false));
    let first = s.step(SessionEvent::Heard(Some(LinkEvent::Failed("gone".into()))));
    assert_ends(&mut s, first, Some("link failed: gone"));

    let mut s = connected();
    s.step(SessionEvent::Time(at(10)));
    let first = s.step(SessionEvent::KeptAlive(Err("no response from device".into())));
    assert_ends(
        &mut s,
        first,
        Some("keepalive failed: no response from device"),
    );

    let mut s = Session::new(at(0));
    s.step(SessionEvent::Stop(false));
    s.step(SessionEvent::Heard(Some(LinkEvent::Bound(lease(130)))));
    let first = s.step(SessionEvent::Raised(Err("no free utun device: busy".into())));
    assert_ends(&mut s, first, Some("no free utun device: busy"));
}

#[test]
fn an_answer_to_nothing_ends_the_session() {
    let mut s = Session::new(at(0));
    let first = s.step(SessionEvent::Time(at(1)));
    assert_ends(&mut s, first, Some("the session lost its place"));
}

fn phone() -> (DeviceInfo, RndisFunction) {
    (
        DeviceInfo {
            id: DeviceId(7),
            vendor_id: 1,
            product_id: 2,
            manufacturer: None,
            product: Some("Phone".into()),
            serial: None,
        },
        RndisFunction {
            config_value: 1,
            control_interface: 0,
            data_interface: 1,
            data_alt_setting: 0,
            interrupt_in: None,
            bulk_in: 0x81,
            bulk_out: 0x01,
            bulk_max_packet_size: 512,
        },
    )
}

fn idle(labels: &[&str]) -> WatchEvent {
    WatchEvent::Scanned(Ok(Scan {
        rndis: None,
        idle: labels.iter().map(|l| l.to_string()).collect(),
    }))
}

#[test]
fn idle_devices_are_named_once_per_change() {
    let mut w = Watch::new();
    assert!(matches!(w.step(WatchEvent::Stop(false)), WatchAction::Scan));
    let WatchAction::Wait(said, time) = w.step(idle(&["Hub (1:2)"])) else {
        panic!("expected a wait");
    };
    assert_eq!(
        said,
        ["Hub (1:2) is attached but not tethering; enable USB tethering on the phone"]
    );
    assert_eq!(time, Duration::from_secs(2));

    assert!(matches!(w.step(WatchEvent::Done), WatchAction::AskStop));
    w.step(WatchEvent::Stop(false));
    assert!(matches!(w.step(idle(&["Hub (1:2)"])), WatchAction::Wait(said, _) if said.is_empty()));
    w.step(WatchEvent::Done);
    w.step(WatchEvent::Stop(false));
    assert!(matches!(w.step(idle(&["Hub (1:2)", "Key"])), WatchAction::Wait(said, _) if said.len() == 2));
}

#[test]
fn a_phone_gets_a_session_and_then_a_pause() {
    let mut w = Watch::new();
    w.step(WatchEvent::Stop(false));
    let scan = Scan {
        rndis: Some(phone()),
        idle: Vec::new(),
    };
    let WatchAction::Hold(info, function) = w.step(WatchEvent::Scanned(Ok(scan))) else {
        panic!("expected a session");
    };
    assert_eq!(info.id, DeviceId(7));
    assert_eq!(function, phone().1);
    assert!(matches!(w.step(WatchEvent::Done), WatchAction::AskStop));
    assert!(matches!(
        w.step(WatchEvent::Stop(false)),
        WatchAction::Rest(d) if d == Duration::from_secs(2)
    ));
    assert!(matches!(w.step(WatchEvent::Done), WatchAction::AskStop));
    assert!(matches!(w.step(WatchEvent::Stop(true)), WatchAction::Finish));
}

#[test]
fn a_failed_look_is_tried_again() {
    let mut w = Watch::new();
    w.step(WatchEvent::Stop(false));
    assert!(matches!(
        w.step(WatchEvent::Scanned(Err(UsbError::Timeout))),
        WatchAction::Retry(UsbError::Timeout, d) if d == Duration::from_secs(2)
    ));
    assert!(matches!(w.step(WatchEvent::Done), WatchAction::AskStop));
    assert!(matches!(w.step(WatchEvent::Stop(false)), WatchAction::Scan));
}

#[test]
fn the_status_follows_the_session() {
    let mut st = Status::default();
    st.show_device("Phone".into());
    st.show_tunnel("utun7".into(), &lease(130));
    st.show_packets(3, 4);
    assert_eq!(
        st.encode(),
        "state=connected\tdevice=Phone\tinterface=utun7\taddress=192.168.42.130\tgateway=192.168.42.129\tdns=8.8.8.8\tin=3\tout=4\n"
    );
}

#[test]
fn the_clock_moves_forward() {
    let clock = Clock::new();
    let first = clock.now();
    let start = std::time::Instant::now();
    while start.elapsed() < std::time::Duration::from_millis(5) {}
    let second = clock.now();
    assert!(first.is_before(second));
    assert!(second.duration_since(first) >= Duration::from_millis(5));
    assert_eq!(first.duration_since(second), Duration::from_secs(0));
}

#[test]
fn time_saturates() {
    assert_eq!(Duration::from_secs(u64::MAX).nanos, u64::MAX);
    assert_eq!(Duration::from_millis(1_500).as_secs(), 1);
    let end = Instant { nanos: u64::MAX };
    assert_eq!(end.plus(Duration::from_secs(1)), end);
}
