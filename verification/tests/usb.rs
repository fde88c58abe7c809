use std::collections::VecDeque;
use std::sync::{Arc, Mutex};

use muta::bus::Bus as Recorded;
use muta::device;
use muta::probe;
use muta::rndis::channel::ControlTransport;
use muta::rndis::error::Error as RndisError;
use muta::rndis::wire;
use muta::time::Duration;
use muta::transport::UsbControlTransport;
use muta::usb::adapter::{
    bus_device_id, changes, control_request, device_error, libusb_error, max_packet_size,
    named_bus_device_id, read_len, transfer_error, worker_step, Demand, DeviceFault, LibusbFault,
    Received, TransferFault,
};
use muta::usb::port::Port;
use muta::usb::{
    ConfigDescriptor, ControlSetup, DeviceId, DeviceInfo, Direction, EndpointDescriptor,
    HotplugEvent, HotplugWatch, InEndpoint, InterfaceDescriptor, OutEndpoint, Result,
    RndisFunction, TransferType, UsbBackend, UsbDevice, UsbError, UsbInterface,
};

type Log = Arc<Mutex<Vec<String>>>;

fn note(log: &Log, what: String) {
    log.lock().unwrap().push(what);
}

/// A phone that answers RNDIS requests, behind a hub that cannot be opened and one
/// that has nothing to offer.
#[derive(Clone, Default)]
struct Bus {
    log: Log,
    active: Option<u8>,
    refuse_data: bool,
    no_phone: bool,
    stalls: bool,
    refuse_in: bool,
}

struct Phone {
    bus: Bus,
    id: u64,
}

struct Face {
    bus: Bus,
    number: u8,
    replies: Mutex<VecDeque<Vec<u8>>>,
}

struct Pipe {
    log: Log,
    name: String,
    reads: VecDeque<Result<Vec<u8>>>,
}

struct NoWatch;

fn info(id: u64) -> DeviceInfo {
    DeviceInfo {
        id: DeviceId(id),
        vendor_id: 0x18d1,
        product_id: id as u16,
        manufacturer: None,
        product: Some(format!("Device {id}")),
        serial: None,
    }
}

fn endpoint(address: u8, transfer_type: TransferType) -> EndpointDescriptor {
    EndpointDescriptor {
        address,
        transfer_type,
        max_packet_size: 512,
    }
}

fn phone_config() -> ConfigDescriptor {
    ConfigDescriptor {
        value: 2,
        interfaces: vec![
            InterfaceDescriptor {
                number: 0,
                alt_setting: 0,
                class: 0xE0,
                subclass: 0x01,
                protocol: 0x03,
                endpoints: vec![endpoint(0x82, TransferType::Interrupt)],
                extra: vec![],
            },
            InterfaceDescriptor {
                number: 1,
                alt_setting: 1,
                class: 0x0A,
                subclass: 0,
                protocol: 0,
                endpoints: vec![
                    endpoint(0x81, TransferType::Bulk),
                    endpoint(0x01, TransferType::Bulk),
                ],
                extra: vec![],
            },
        ],
    }
}

impl UsbBackend for Bus {
    type Device = Phone;
    type Watch = NoWatch;

    fn list(&self) -> Result<Vec<DeviceInfo>> {
        Ok(if self.no_phone {
            vec![info(1), info(2)]
        } else {
            vec![info(1), info(2), info(3), info(4)]
        })
    }

    fn open(&self, id: DeviceId) -> Result<Phone> {
        if id == DeviceId(1) {
            return Err(UsbError::Other("in use".into()));
        }
        Ok(Phone {
            bus: self.clone(),
            id: id.0,
        })
    }

    fn watch(&self) -> Result<NoWatch> {
        Ok(NoWatch)
    }
}

impl HotplugWatch for NoWatch {
    fn next_event(&mut self, _timeout: Duration) -> Option<HotplugEvent> {
        None
    }
}

impl UsbDevice for Phone {
    type Interface = Face;

    fn configurations(&self) -> Result<Vec<ConfigDescriptor>> {
        match self.id {
            2 => Ok(vec![]),
            4 => Err(UsbError::Stall),
            _ => Ok(vec![phone_config()]),
        }
    }

    fn active_configuration(&self) -> Result<u8> {
        self.bus.active.ok_or(UsbError::NotFound)
    }

    fn set_configuration(&self, value: u8) -> Result<()> {
        note(&self.bus.log, format!("configuration {value}"));
        Ok(())
    }

    fn claim_interface(&self, number: u8) -> Result<Face> {
        note(&self.bus.log, format!("claim {number}"));
        if number == 1 && self.bus.refuse_data {
            return Err(UsbError::Disconnected);
        }
        Ok(Face {
            bus: self.bus.clone(),
            number,
            replies: Mutex::new(VecDeque::new()),
        })
    }
}

fn words(ws: &[u32]) -> Vec<u8> {
    ws.iter().flat_map(|w| w.to_le_bytes()).collect()
}

impl UsbInterface for Face {
    type In = Pipe;
    type Out = Pipe;

    fn set_alt_setting(&self, alt: u8) -> Result<()> {
        note(&self.bus.log, format!("alt {alt} of {}", self.number));
        Ok(())
    }

    fn control_out(&self, setup: ControlSetup, data: &[u8], timeout: Duration) -> Result<()> {
        assert_eq!(setup.request, wire::REQ_SEND_ENCAPSULATED);
        assert_eq!((setup.value, setup.index), (0, self.number as u16));
        assert_eq!(timeout, Duration::from_secs(2));
        let kind = wire::u32_at(data, 0).unwrap();
        let id = wire::u32_at(data, 8).unwrap();
        note(&self.bus.log, format!("send {kind}"));
        let reply = match kind {
            wire::MSG_INIT => words(&[
                wire::MSG_INIT_C,
                52,
                id,
                wire::STATUS_SUCCESS,
                1,
                0,
                0,
                0,
                0,
                16384,
                3,
                0,
                0,
            ]),
            wire::MSG_QUERY => {
                let mut r = words(&[wire::MSG_QUERY_C, 30, id, wire::STATUS_SUCCESS, 6, 16]);
                r.extend_from_slice(&[2, 0, 0, 0, 0, 9]);
                r
            }
            _ => words(&[kind | wire::MSG_COMPLETION, 16, id, wire::STATUS_SUCCESS]),
        };
        self.replies.lock().unwrap().push_back(reply);
        Ok(())
    }

    fn control_in(&self, setup: ControlSetup, len: u16, _timeout: Duration) -> Result<Vec<u8>> {
        assert_eq!(setup.request, wire::REQ_GET_ENCAPSULATED);
        assert_eq!(len, 1024);
        Ok(self.replies.lock().unwrap().pop_front().unwrap_or_default())
    }

    fn open_in(&self, address: u8, ty: TransferType) -> Result<Pipe> {
        note(&self.bus.log, format!("in {address:#x} {ty:?}"));
        if self.bus.refuse_in {
            return Err(UsbError::Stall);
        }
        Ok(Pipe {
            log: self.bus.log.clone(),
            name: format!("{address:#x}"),
            reads: VecDeque::from([
                Ok(vec![1, 0, 0, 0, 0, 0, 0, 0]),
                Ok(vec![]),
                if self.bus.stalls {
                    Err(UsbError::Stall)
                } else {
                    Ok(vec![1, 0, 0, 0])
                },
            ]),
        })
    }

    fn open_out(&self, address: u8, ty: TransferType) -> Result<Pipe> {
        note(&self.bus.log, format!("out {address:#x} {ty:?}"));
        Ok(Pipe {
            log: self.bus.log.clone(),
            name: format!("{address:#x}"),
            reads: VecDeque::new(),
        })
    }

    fn pause(&self, timeout: Duration) {
        note(&self.bus.log, format!("pause {}", timeout.nanos));
    }
}

impl InEndpoint for Pipe {
    fn submit(&mut self, len: usize) {
        note(&self.log, format!("read {len} from {}", self.name));
    }

    fn wait(&mut self, _timeout: Duration) -> Option<Result<Vec<u8>>> {
        self.reads.pop_front()
    }
}

impl OutEndpoint for Pipe {
    fn max_packet_size(&self) -> usize {
        512
    }

    fn pending(&self) -> usize {
        0
    }

    fn submit(&mut self, _data: Vec<u8>) {}

    fn wait(&mut self, _timeout: Duration) -> Option<Result<()>> {
        None
    }
}

fn phone_function() -> RndisFunction {
    RndisFunction {
        config_value: 2,
        control_interface: 0,
        data_interface: 1,
        data_alt_setting: 1,
        interrupt_in: Some(0x82),
        bulk_in: 0x81,
        bulk_out: 0x01,
        bulk_max_packet_size: 512,
    }
}

#[test]
fn the_first_phone_is_found_and_idle_devices_named() {
    let scan = device::scan(&mut Recorded::new(&Bus::default())).unwrap();
    let (found, function) = scan.rndis.unwrap();
    assert_eq!(found.id, DeviceId(3));
    assert_eq!(function, phone_function());
    assert_eq!(scan.idle, ["Device 2 (18d1:0002)"]);
    let bus = Bus::default();
    device::scan(&mut Recorded::new(&bus)).unwrap();
    // Nothing was claimed or configured.
    assert!(bus.log.lock().unwrap().is_empty());
    let (found, _) = device::find(&mut Recorded::new(&Bus::default())).unwrap().unwrap();
    assert_eq!(found.id, DeviceId(3));
}

#[test]
fn without_a_phone_every_readable_device_is_idle() {
    let bus = Bus {
        no_phone: true,
        ..Bus::default()
    };
    let scan = device::scan(&mut Recorded::new(&bus)).unwrap();
    assert!(scan.rndis.is_none());
    assert_eq!(scan.idle, ["Device 2 (18d1:0002)"]);
}

#[test]
fn opening_a_phone_runs_the_whole_bring_up() {
    let bus = Bus {
        active: Some(1),
        ..Bus::default()
    };
    let opened = device::open(&mut Recorded::new(&bus), info(3), phone_function()).ok().unwrap();
    assert_eq!(opened.session.host_mac, [2, 0, 0, 0, 0, 9]);
    assert_eq!(opened.session.packet_alignment, 8);
    assert_eq!(opened.session.max_packets_per_transfer, 1);
    assert_eq!(
        *bus.log.lock().unwrap(),
        [
            "configuration 2",
            "claim 0",
            "claim 1",
            "alt 1 of 1",
            "in 0x82 Interrupt",
            "read 8 from 0x82",
            "read 8 from 0x82",
            "send 2",
            "read 8 from 0x82",
            "send 4",
            "read 8 from 0x82",
            "send 5",
            "read 8 from 0x82",
            "in 0x81 Bulk",
            "out 0x1 Bulk",
        ]
    );
}

#[test]
fn a_selected_configuration_is_left_alone() {
    let bus = Bus {
        active: Some(2),
        ..Bus::default()
    };
    device::open(&mut Recorded::new(&bus), info(3), phone_function()).ok().unwrap();
    assert_eq!(bus.log.lock().unwrap()[0], "claim 0");
}

#[test]
fn what_failed_is_said() {
    let bus = Bus {
        refuse_data: true,
        ..Bus::default()
    };
    let e = device::open(&mut Recorded::new(&bus), info(3), phone_function()).err().unwrap();
    assert_eq!(
        e.message(),
        "claiming data interface 1: device disconnected"
    );
    // Nothing follows the failure.
    assert_eq!(bus.log.lock().unwrap().last().unwrap(), "claim 1");
    let e = device::open(&mut Recorded::new(&bus), info(1), phone_function()).err().unwrap();
    assert_eq!(e.message(), "opening Device 1 (18d1:0001): in use");
}

#[test]
fn the_transport_keeps_its_notifications_queued() {
    let bus = Bus {
        stalls: true,
        ..Bus::default()
    };
    let face = Face {
        bus: bus.clone(),
        number: 0,
        replies: Mutex::new(VecDeque::new()),
    };
    let mut t = UsbControlTransport::new(Port::new(face), 0, Some(0x82))
        .ok()
        .unwrap();
    let wait = Duration::from_millis(50);
    t.await_response(wait).unwrap();
    // A short notification is harmless.
    t.await_response(wait).unwrap();
    assert!(matches!(
        t.await_response(wait),
        Err(RndisError::Transport(e)) if e == "endpoint stalled"
    ));
    // Nothing came in time.
    t.await_response(wait).unwrap();
    let reads = bus
        .log
        .lock()
        .unwrap()
        .iter()
        .filter(|l| l.starts_with("read"))
        .count();
    assert_eq!(reads, 5);
}

#[test]
fn without_notifications_the_transport_just_waits() {
    let bus = Bus::default();
    let face = Face {
        bus: bus.clone(),
        number: 0,
        replies: Mutex::new(VecDeque::new()),
    };
    let mut t = UsbControlTransport::new(Port::new(face), 0, None)
        .ok()
        .unwrap();
    t.await_response(Duration::from_millis(50)).unwrap();
    assert_eq!(*bus.log.lock().unwrap(), ["pause 50000000"]);
}

#[test]
fn the_probe_shows_what_was_matched() {
    let lines = probe::scan(&mut Recorded::new(&Bus::default())).unwrap();
    assert_eq!(
        lines,
        [
            "Device 1 (18d1:0001): cannot open (in use)",
            "\n=== Device 3 (18d1:0003) id=0x3 ===",
            "  config 2",
            "    iface 0.0 class e0/01/03",
            "      ep 0x82 Interrupt In mps 512",
            "    iface 1.1 class 0a/00/00",
            "      ep 0x81 Bulk In mps 512",
            "      ep 0x01 Bulk Out mps 512",
            "  RNDIS: RndisFunction {\n    config_value: 2,\n    control_interface: 0,\n    data_interface: 1,\n    data_alt_setting: 1,\n    interrupt_in: Some(\n        130,\n    ),\n    bulk_in: 129,\n    bulk_out: 1,\n    bulk_max_packet_size: 512,\n}",
            "Device 4 (18d1:0004): cannot read configs (endpoint stalled)",
        ]
    );
    assert_eq!(
        probe::describe_function(&phone_function()),
        format!("  RNDIS: {:#?}", phone_function())
    );
    let mut silent = phone_function();
    silent.interrupt_in = None;
    assert_eq!(
        probe::describe_function(&silent),
        format!("  RNDIS: {silent:#?}")
    );
}

#[test]
fn the_probe_says_when_nothing_matches() {
    let bus = Bus {
        no_phone: true,
        ..Bus::default()
    };
    assert_eq!(
        probe::scan(&mut Recorded::new(&bus)).unwrap(),
        [
            "Device 1 (18d1:0001): cannot open (in use)",
            "no RNDIS device found — enable USB tethering on the phone"
        ]
    );
    let (notice, again) = probe::on_hotplug(&HotplugEvent::Connected(info(2)));
    assert_eq!((notice.as_str(), again), ("\n+ connected: Device 2 (18d1:0002)", true));
    let (notice, again) = probe::on_hotplug(&HotplugEvent::Disconnected(DeviceId(0xab)));
    assert_eq!((notice.as_str(), again), ("\n- disconnected: 0xab", false));
}

#[test]
fn requests_go_to_the_interface_as_class_requests() {
    let setup = ControlSetup {
        request: 1,
        value: 2,
        index: 3,
    };
    let r = control_request(Direction::In, setup);
    assert_eq!((r.request_type, r.request, r.value, r.index), (0xA1, 1, 2, 3));
    assert_eq!(control_request(Direction::Out, setup).request_type, 0x21);
    assert_eq!(
        r.request_type,
        rusb::request_type(
            rusb::Direction::In,
            rusb::RequestType::Class,
            rusb::Recipient::Interface
        )
    );
}

#[test]
fn reads_are_rounded_up_to_packets() {
    assert_eq!(read_len(0, 512), 512);
    assert_eq!(read_len(8, 16), 16);
    assert_eq!(read_len(512, 512), 512);
    assert_eq!(read_len(513, 512), 1024);
    assert_eq!(read_len(7, 0), 7);
    assert_eq!(read_len(usize::MAX - 511, 512), usize::MAX - 511);
}

#[test]
fn ids_tell_devices_apart() {
    assert_eq!(bus_device_id(1, 2), DeviceId(0x102));
    assert_eq!(named_bus_device_id(3, 4), DeviceId(0x3_0000_0004));
}

#[test]
fn faults_are_told_in_our_terms() {
    assert!(matches!(transfer_error(TransferFault::Cancelled), UsbError::Timeout));
    assert!(matches!(transfer_error(TransferFault::Stall), UsbError::Stall));
    assert!(matches!(
        transfer_error(TransferFault::Disconnected),
        UsbError::Disconnected
    ));
    assert!(matches!(
        transfer_error(TransferFault::Other("x".into())),
        UsbError::Other(s) if s == "x"
    ));
    assert!(matches!(device_error(DeviceFault::NotFound), UsbError::NotFound));
    assert!(matches!(
        device_error(DeviceFault::Disconnected),
        UsbError::Disconnected
    ));
    assert_eq!(
        device_error(DeviceFault::Other("odd".into())).message(),
        "odd"
    );
    assert_eq!(
        libusb_error(LibusbFault::NoDevice).message(),
        "device disconnected"
    );
    assert_eq!(libusb_error(LibusbFault::Pipe).message(), "endpoint stalled");
    assert_eq!(
        libusb_error(LibusbFault::Timeout).message(),
        "transfer timed out"
    );
    assert!(libusb_error(LibusbFault::NotFound).is_fatal());
    assert!(!UsbError::Timeout.is_fatal());
}

#[test]
fn a_reading_worker_stops_at_the_first_failure() {
    let step = worker_step(Ok(vec![1]));
    assert!(matches!(step.message, Some(Ok(d)) if d == [1]));
    assert!(!step.stop);
    let step = worker_step(Err(LibusbFault::Timeout));
    assert!(step.message.is_none() && !step.stop);
    let step = worker_step(Err(LibusbFault::NoDevice));
    assert!(matches!(step.message, Some(Err(UsbError::Disconnected))));
    assert!(step.stop);
}

#[test]
fn demand_is_settled_once_per_transfer() {
    let mut d = Demand::new();
    d.ask();
    d.ask();
    assert!(d.settle::<u8>(Received::Nothing).is_none());
    assert_eq!(d.outstanding, 2);
    assert!(matches!(d.settle(Received::Finished(Ok(7u8))), Some(Ok(7))));
    assert!(matches!(
        d.settle::<u8>(Received::Closed),
        Some(Err(UsbError::Disconnected))
    ));
    assert_eq!(d.outstanding, 0);
}

#[test]
fn the_packet_size_is_read_from_the_configuration() {
    let mut config = phone_config();
    config.interfaces[1].endpoints[1].max_packet_size = 64;
    assert_eq!(max_packet_size(Some(&config), 0x01), 64);
    assert_eq!(max_packet_size(Some(&config), 0x07), 512);
    assert_eq!(max_packet_size(None, 0x01), 512);
}

#[test]
fn comings_and_goings_are_told() {
    let known = vec![info(1), info(2)];
    let current = vec![info(2), info(3)];
    let told = changes(&known, &current);
    assert!(matches!(
        told.as_slice(),
        [HotplugEvent::Connected(i), HotplugEvent::Disconnected(DeviceId(1))] if i.id == DeviceId(3)
    ));
    assert!(changes(&known, &known).is_empty());
}

#[test]
fn a_device_listed_twice_is_told_once() {
    let mut renamed = info(3);
    renamed.product = Some("renamed".into());
    let told = changes(&vec![info(1), info(1)], &vec![info(3), renamed]);
    assert!(matches!(
        told.as_slice(),
        [HotplugEvent::Connected(i), HotplugEvent::Disconnected(DeviceId(1))]
            if i.product.as_deref() == Some("renamed")
    ));
}

#[test]
fn a_transport_that_cannot_be_opened_was_tried_once() {
    let bus = Bus {
        refuse_in: true,
        ..Bus::default()
    };
    let face = Face {
        bus: bus.clone(),
        number: 0,
        replies: Mutex::new(VecDeque::new()),
    };
    let (_, e) = UsbControlTransport::new(Port::new(face), 0, Some(0x82))
        .err()
        .unwrap();
    assert!(matches!(e, RndisError::Transport(e) if e == "endpoint stalled"));
    assert_eq!(*bus.log.lock().unwrap(), ["in 0x82 Interrupt"]);
}
