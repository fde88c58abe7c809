//! What the backends need besides the bus: request types, transfer lengths,
//! identifiers, faults, and the accounting of transfers in flight.

use vstd::prelude::*;

use crate::usb::backend::{ControlSetup, HotplugEvent};
use crate::usb::descriptor::{
    ConfigDescriptor, DeviceId, DeviceInfo, DeviceInfoView, Direction, EndpointDescriptor,
};
use crate::usb::error::{Result, UsbError};

verus! {

/// What kind of request a control transfer makes.
#[derive(Clone, Copy, Debug, PartialEq, Eq, Structural)]
pub enum ControlType {
    Standard,
    Class,
    Vendor,
}

/// What a control transfer is addressed to.
#[derive(Clone, Copy, Debug, PartialEq, Eq, Structural)]
pub enum Recipient {
    Device,
    Interface,
    Endpoint,
    Other,
}

/// The request type of a control transfer: the direction in the top bit, the kind in
/// the two below, the recipient in the lowest five.
pub open spec fn request_type_of(direction: Direction, kind: ControlType, to: Recipient) -> int {
    (match direction {
        Direction::Out => 0x00int,
        Direction::In => 0x80,
    }) + (match kind {
        ControlType::Standard => 0x00int,
        ControlType::Class => 0x20,
        ControlType::Vendor => 0x40,
    }) + match to {
        Recipient::Device => 0int,
        Recipient::Interface => 1,
        Recipient::Endpoint => 2,
        Recipient::Other => 3,
    }
}

/// `rusb::request_type`: the three parts, each in its own bits.
#[verifier::external_body]
fn request_type(direction: Direction, kind: ControlType, to: Recipient) -> (r: u8)
    ensures
        r == request_type_of(direction, kind, to),
{
    let direction = match direction { Direction::In => rusb::Direction::In, Direction::Out => rusb::Direction::Out };
    let kind = match kind {
        ControlType::Standard => rusb::RequestType::Standard,
        ControlType::Class => rusb::RequestType::Class,
        ControlType::Vendor => rusb::RequestType::Vendor,
    };
    let to = match to {
        Recipient::Device => rusb::Recipient::Device,
        Recipient::Interface => rusb::Recipient::Interface,
        Recipient::Endpoint => rusb::Recipient::Endpoint,
        Recipient::Other => rusb::Recipient::Other,
    };
    rusb::request_type(direction, kind, to)
}

/// The setup stage of a control transfer.
#[derive(Clone, Copy, Debug, PartialEq, Eq, Structural)]
pub struct ControlRequest {
    pub request_type: u8,
    pub request: u8,
    pub value: u16,
    pub index: u16,
}

/// The setup stage of a class request to an interface.
pub fn control_request(direction: Direction, setup: ControlSetup) -> (r: ControlRequest)
    ensures
        r.request_type == (if direction == Direction::In {
            0xA1u8
        } else {
            0x21u8
        }),
        r.request == setup.request,
        r.value == setup.value,
        r.index == setup.index,
{
    ControlRequest {
        request_type: request_type(direction, ControlType::Class, Recipient::Interface),
        request: setup.request,
        value: setup.value,
        index: setup.index,
    }
}

/// `len` bytes in whole packets of `m`.
pub open spec fn whole_packets(len: nat, m: nat) -> nat {
    if len % m == 0 {
        len
    } else {
        (len - len % m + m) as nat
    }
}

/// A packet size, at least one byte.
pub open spec fn packet_size(max_packet_size: usize) -> nat {
    if max_packet_size == 0 {
        1
    } else {
        max_packet_size as nat
    }
}

/// The length to read for `len` bytes: whole packets, and at least one, as USB
/// requires.
pub fn read_len(len: usize, max_packet_size: usize) -> (r: usize)
    requires
        whole_packets(len as nat, packet_size(max_packet_size)) <= usize::MAX,
    ensures
        r == (if len == 0 {
            packet_size(max_packet_size)
        } else {
            whole_packets(len as nat, packet_size(max_packet_size))
        }),
{
    let m: usize = if max_packet_size == 0 {
        1
    } else {
        max_packet_size
    };
    if len == 0 {
        return m;
    }
    let over: usize = len % m;
    proof {
        vstd::arithmetic::div_mod::lemma_mod_decreases(len as nat, m as nat);
    }
    if over == 0 {
        len
    } else {
        len - over + m
    }
}

/// A read is whole packets, at least one, enough, and less than a packet over.
pub proof fn reads_are_whole_packets(len: nat, m: nat)
    requires
        m > 0,
    ensures
        whole_packets(len, m) % m == 0,
        len <= whole_packets(len, m) < len + m,
        len > 0 ==> whole_packets(len, m) >= m,
{
    vstd::arithmetic::div_mod::lemma_mod_bound(len as int, m as int);
    vstd::arithmetic::div_mod::lemma_fundamental_div_mod(len as int, m as int);
    let q = len as int / m as int;
    let over = len as int % m as int;
    if over != 0 {
        assert(len - over + m == (q + 1) * (m as int)) by (nonlinear_arith)
            requires
                len == (m as int) * q + over,
        ;
        vstd::arithmetic::div_mod::lemma_mod_multiples_basic(q + 1, m as int);
    } else if 0 < len < m {
        vstd::arithmetic::div_mod::lemma_small_mod(len, m);
    }
}

/// A handle made of a device's place on its bus.
pub fn bus_device_id(bus: u8, address: u8) -> (r: DeviceId)
    ensures
        r.0 == bus * 256 + address,
{
    DeviceId(bus as u64 * 256 + address as u64)
}

/// A handle made of the length of a bus name and a device address.
pub fn named_bus_device_id(bus_name_len: u32, address: u8) -> (r: DeviceId)
    ensures
        r.0 == bus_name_len * 0x1_0000_0000 + address,
{
    DeviceId(bus_name_len as u64 * 0x1_0000_0000 + address as u64)
}

/// How a transfer can fail.
#[derive(Debug)]
pub enum TransferFault {
    Cancelled,
    Stall,
    Disconnected,
    Other(String),
}

/// A transfer is cancelled when its time is up.
pub fn transfer_error(fault: TransferFault) -> (r: UsbError)
    ensures
        r == (match fault {
            TransferFault::Cancelled => UsbError::Timeout,
            TransferFault::Stall => UsbError::Stall,
            TransferFault::Disconnected => UsbError::Disconnected,
            TransferFault::Other(what) => UsbError::Other(what),
        }),
{
    match fault {
        TransferFault::Cancelled => UsbError::Timeout,
        TransferFault::Stall => UsbError::Stall,
        TransferFault::Disconnected => UsbError::Disconnected,
        TransferFault::Other(what) => UsbError::Other(what),
    }
}

/// How an operation on a device can fail.
#[derive(Debug)]
pub enum DeviceFault {
    Disconnected,
    NotFound,
    Other(String),
}

pub fn device_error(fault: DeviceFault) -> (r: UsbError)
    ensures
        r == (match fault {
            DeviceFault::Disconnected => UsbError::Disconnected,
            DeviceFault::NotFound => UsbError::NotFound,
            DeviceFault::Other(what) => UsbError::Other(what),
        }),
{
    match fault {
        DeviceFault::Disconnected => UsbError::Disconnected,
        DeviceFault::NotFound => UsbError::NotFound,
        DeviceFault::Other(what) => UsbError::Other(what),
    }
}

/// How libusb reports failure.
#[derive(Debug)]
pub enum LibusbFault {
    NoDevice,
    NotFound,
    Timeout,
    Pipe,
    Other(String),
}

/// What a libusb failure means.
pub open spec fn meaning(fault: LibusbFault) -> UsbError {
    match fault {
        LibusbFault::NoDevice => UsbError::Disconnected,
        LibusbFault::NotFound => UsbError::NotFound,
        LibusbFault::Timeout => UsbError::Timeout,
        LibusbFault::Pipe => UsbError::Stall,
        LibusbFault::Other(what) => UsbError::Other(what),
    }
}

pub fn libusb_error(fault: LibusbFault) -> (r: UsbError)
    ensures
        r == meaning(fault),
{
    match fault {
        LibusbFault::NoDevice => UsbError::Disconnected,
        LibusbFault::NotFound => UsbError::NotFound,
        LibusbFault::Timeout => UsbError::Timeout,
        LibusbFault::Pipe => UsbError::Stall,
        LibusbFault::Other(what) => UsbError::Other(what),
    }
}

/// What a reading worker passes on, and whether it stops.
#[derive(Debug)]
pub struct WorkerStep {
    pub message: Option<Result<Vec<u8>>>,
    pub stop: bool,
}

/// What a reading worker does with the outcome of one read: data is passed on, a
/// timeout just means nothing arrived, and any other failure is passed on and ends
/// the worker.
pub fn worker_step(read: std::result::Result<Vec<u8>, LibusbFault>) -> (r: WorkerStep)
    ensures
        match read {
            Ok(data) => r.message == Some(Ok::<_, UsbError>(data)) && !r.stop,
            Err(LibusbFault::Timeout) => r.message is None && !r.stop,
            Err(fault) => r.message == Some(Err::<Vec<u8>, _>(meaning(fault))) && r.stop,
        },
{
    match read {
        Ok(data) => WorkerStep { message: Some(Ok(data)), stop: false },
        Err(LibusbFault::Timeout) => WorkerStep { message: None, stop: false },
        Err(fault) => WorkerStep { message: Some(Err(libusb_error(fault))), stop: true },
    }
}

/// What a queue of finished transfers gave within some time.
#[derive(Debug)]
pub enum Received<T> {
    Finished(T),
    Nothing,
    Closed,
}

/// Transfers asked for and not yet collected.
#[derive(Clone, Copy, Debug, PartialEq, Eq, Structural)]
pub struct Demand {
    pub outstanding: usize,
}

impl Demand {
    pub fn new() -> (r: Self)
        ensures
            r.outstanding == 0,
    {
        Demand { outstanding: 0 }
    }

    /// One more transfer was asked for.
    pub fn ask(&mut self)
        requires
            old(self).outstanding < usize::MAX,
        ensures
            final(self).outstanding == old(self).outstanding + 1,
    {
        self.outstanding = self.outstanding + 1;
    }

    /// What a wait comes to: a finished transfer, or a queue that was closed, takes
    /// one off; time running out changes nothing.
    pub fn settle<T>(&mut self, received: Received<Result<T>>) -> (r: Option<Result<T>>)
        requires
            old(self).outstanding > 0,
        ensures
            match received {
                Received::Finished(result) => r == Some(result) && final(self).outstanding
                    == old(self).outstanding - 1,
                Received::Nothing => r is None && *final(self) == *old(self),
                Received::Closed => r == Some(Err::<T, UsbError>(UsbError::Disconnected))
                    && final(self).outstanding == old(self).outstanding - 1,
            },
    {
        match received {
            Received::Finished(result) => {
                self.outstanding = self.outstanding - 1;
                Some(result)
            },
            Received::Nothing => None,
            Received::Closed => {
                self.outstanding = self.outstanding - 1;
                Some(Err(UsbError::Disconnected))
            },
        }
    }
}

/// The packet size of the first endpoint with this address from `from` on.
pub open spec fn size_from(es: Seq<EndpointDescriptor>, address: u8, from: int) -> Option<u16>
    decreases es.len() - from,
{
    if from < 0 || from >= es.len() {
        None
    } else if es[from].address == address {
        Some(es[from].max_packet_size)
    } else {
        size_from(es, address, from + 1)
    }
}

/// The packet size of an endpoint in the interfaces from `from` on.
pub open spec fn size_in(config: ConfigDescriptor, address: u8, from: int) -> Option<u16>
    decreases config.interfaces@.len() - from,
{
    if from < 0 || from >= config.interfaces@.len() {
        None
    } else {
        match size_from(config.interfaces@[from].endpoints@, address, 0) {
            Some(size) => Some(size),
            None => size_in(config, address, from + 1),
        }
    }
}

fn endpoint_size(es: &Vec<EndpointDescriptor>, address: u8) -> (r: Option<u16>)
    ensures
        r == size_from(es@, address, 0),
{
    for i in 0..es.len()
        invariant
            size_from(es@, address, 0) == size_from(es@, address, i as int),
    {
        if es[i].address == address {
            return Some(es[i].max_packet_size);
        }
    }
    None
}

/// Endpoint max packet size, read back from the active configuration; 512 where
/// that does not name the endpoint or cannot be read.
pub fn max_packet_size(config: Option<&ConfigDescriptor>, address: u8) -> (r: usize)
    ensures
        r == (match config {
            Some(c) => match size_in(*c, address, 0) {
                Some(size) => size as int,
                None => 512,
            },
            None => 512,
        }),
{
    match config {
        Some(c) => {
            for i in 0..c.interfaces.len()
                invariant
                    config == Some(c),
                    size_in(*c, address, 0) == size_in(*c, address, i as int),
            {
                if let Some(size) = endpoint_size(&c.interfaces[i].endpoints, address) {
                    return size as usize;
                }
            }
            512
        },
        None => 512,
    }
}

/// Whether a device with this id is listed.
pub open spec fn lists(devices: Seq<DeviceInfo>, id: DeviceId) -> bool {
    exists|i: int| 0 <= i < devices.len() && (#[trigger] devices[i]).id == id
}

fn is_listed(devices: &Vec<DeviceInfo>, id: DeviceId) -> (r: bool)
    ensures
        r == lists(devices@, id),
{
    for i in 0..devices.len()
        invariant
            forall|j: int| 0 <= j < i ==> (#[trigger] devices@[j]).id != id,
    {
        if devices[i].id == id {
            return true;
        }
    }
    false
}

/// What a hotplug event tells: who came, or which id went.
pub enum Told {
    Came(DeviceInfoView),
    Went(DeviceId),
}

/// A hotplug event as what it tells.
pub open spec fn told(e: HotplugEvent) -> Told {
    match e {
        HotplugEvent::Connected(info) => Told::Came(info@),
        HotplugEvent::Disconnected(id) => Told::Went(id),
    }
}

/// Whether no later device goes by the id of device `i`. A list that names an id twice
/// means the device it names last.
pub open spec fn is_last(devices: Seq<DeviceInfo>, i: int) -> bool {
    forall|j: int| i < j < devices.len() ==> (#[trigger] devices[j]).id != devices[i].id
}

/// Those among the first `n` devices of `a` whose id `b` does not list, in order.
pub open spec fn missing_upto(a: Seq<DeviceInfo>, b: Seq<DeviceInfo>, n: int) -> Seq<
    DeviceInfoView,
>
    decreases n,
{
    if n <= 0 {
        Seq::empty()
    } else {
        let before = missing_upto(a, b, n - 1);
        if is_last(a, n - 1) && !lists(b, a[n - 1].id) {
            before.push(a[n - 1]@)
        } else {
            before
        }
    }
}

/// The devices of `a` whose id `b` does not list, in order.
pub open spec fn missing_from(a: Seq<DeviceInfo>, b: Seq<DeviceInfo>) -> Seq<DeviceInfoView> {
    missing_upto(a, b, a.len() as int)
}

fn is_named_later(devices: &Vec<DeviceInfo>, i: usize) -> (r: bool)
    requires
        i < devices@.len(),
    ensures
        r == !is_last(devices@, i as int),
{
    let id = devices[i].id;
    for j in i + 1..devices.len()
        invariant
            i < devices@.len(),
            id == devices@[i as int].id,
            forall|k: int| i < k < j ==> (#[trigger] devices@[k]).id != id,
    {
        if devices[j].id == id {
            return true;
        }
    }
    false
}

/// What changed between two looks at the bus: those that came, then those that
/// went, each once.
pub fn changes(known: &Vec<DeviceInfo>, current: &Vec<DeviceInfo>) -> (r: Vec<HotplugEvent>)
    ensures
        r@.map_values(|e: HotplugEvent| told(e)) == missing_from(current@, known@).map_values(
            |d: DeviceInfoView| Told::Came(d),
        ) + missing_from(known@, current@).map_values(|d: DeviceInfoView| Told::Went(d.id)),
{
    let ghost tell = |e: HotplugEvent| told(e);
    let ghost came = |d: DeviceInfoView| Told::Came(d);
    let ghost went = |d: DeviceInfoView| Told::Went(d.id);
    let mut events: Vec<HotplugEvent> = Vec::new();
    assert(events@.map_values(tell) =~= missing_upto(current@, known@, 0).map_values(came));
    for i in 0..current.len()
        invariant
            tell == (|e: HotplugEvent| told(e)),
            came == (|d: DeviceInfoView| Told::Came(d)),
            events@.map_values(tell) == missing_upto(current@, known@, i as int).map_values(came),
    {
        let ghost before = events@;
        let ghost upto = missing_upto(current@, known@, i as int);
        if !is_named_later(current, i) && !is_listed(known, current[i].id) {
            let info = current[i].clone();
            events.push(HotplugEvent::Connected(info));
            assert(events@.map_values(tell) =~= before.map_values(tell).push(Told::Came(info@)));
            assert(upto.push(info@).map_values(came) =~= upto.map_values(came).push(
                Told::Came(info@),
            ));
        }
    }
    let ghost arrivals = missing_from(current@, known@).map_values(came);
    assert(arrivals + missing_upto(known@, current@, 0).map_values(went) =~= arrivals);
    for i in 0..known.len()
        invariant
            tell == (|e: HotplugEvent| told(e)),
            went == (|d: DeviceInfoView| Told::Went(d.id)),
            events@.map_values(tell) == arrivals + missing_upto(
                known@,
                current@,
                i as int,
            ).map_values(went),
    {
        let ghost before = events@;
        let ghost upto = missing_upto(known@, current@, i as int);
        if !is_named_later(known, i) && !is_listed(current, known[i].id) {
            let id = known[i].id;
            events.push(HotplugEvent::Disconnected(id));
            assert(events@.map_values(tell) =~= before.map_values(tell).push(Told::Went(id)));
            assert(arrivals + upto.push(known@[i as int]@).map_values(went) =~= (arrivals
                + upto.map_values(went)).push(Told::Went(id)));
        }
    }
    events
}

/// Whether a device with this id is among these.
pub open spec fn names(devices: Seq<DeviceInfoView>, id: DeviceId) -> bool {
    exists|i: int| 0 <= i < devices.len() && (#[trigger] devices[i]).id == id
}

/// A device is told to have come if and only if it is there now and was not before,
/// and to have gone if and only if it was there and is not now.
pub proof fn every_change_is_told(a: Seq<DeviceInfo>, b: Seq<DeviceInfo>, id: DeviceId)
    ensures
        names(missing_from(a, b), id) <==> lists(a, id) && !lists(b, id),
{
    if lists(a, id) {
        let i = choose|i: int| 0 <= i < a.len() && (#[trigger] a[i]).id == id;
        let last = lemma_last_of(a, i);
        lemma_missing(a, b, id, a.len() as int);
        assert(is_last(a, last) && a[last].id == id);
    } else {
        lemma_missing(a, b, id, a.len() as int);
    }
}

/// The last device that goes by the id of device `i`.
proof fn lemma_last_of(a: Seq<DeviceInfo>, i: int) -> (last: int)
    requires
        0 <= i < a.len(),
    ensures
        i <= last < a.len(),
        a[last].id == a[i].id,
        is_last(a, last),
    decreases a.len() - i,
{
    if is_last(a, i) {
        i
    } else {
        let j = choose|j: int| i < j < a.len() && (#[trigger] a[j]).id == a[i].id;
        lemma_last_of(a, j)
    }
}

proof fn lemma_missing(a: Seq<DeviceInfo>, b: Seq<DeviceInfo>, id: DeviceId, n: int)
    requires
        0 <= n <= a.len(),
    ensures
        names(missing_upto(a, b, n), id) <==> !lists(b, id) && exists|i: int|
            0 <= i < n && #[trigger] is_last(a, i) && a[i].id == id,
        names(missing_upto(a, b, n), id) ==> lists(a, id),
    decreases n,
{
    if n > 0 {
        lemma_missing(a, b, id, n - 1);
        let before = missing_upto(a, b, n - 1);
        let now = missing_upto(a, b, n);
        if names(before, id) {
            let i = choose|i: int| 0 <= i < before.len() && (#[trigger] before[i]).id == id;
            assert(now[i] == before[i]);
        }
        if is_last(a, n - 1) && !lists(b, a[n - 1].id) {
            assert(now[now.len() - 1] == a[n - 1]@);
            assert(a[n - 1]@.id == a[n - 1].id);
            if names(now, id) {
                let i = choose|i: int| 0 <= i < now.len() && (#[trigger] now[i]).id == id;
                if i < before.len() {
                    assert(before[i].id == id);
                }
            }
        }
    }
}

/// No device is told twice, even if a look lists it twice.
pub proof fn no_change_is_told_twice(a: Seq<DeviceInfo>, b: Seq<DeviceInfo>, i: int, j: int)
    requires
        0 <= i < j < missing_from(a, b).len(),
    ensures
        missing_from(a, b)[i].id != missing_from(a, b)[j].id,
{
    lemma_told_once(a, b, a.len() as int, i, j);
}

proof fn lemma_told_once(a: Seq<DeviceInfo>, b: Seq<DeviceInfo>, n: int, i: int, j: int)
    requires
        0 <= n <= a.len(),
        0 <= i < j < missing_upto(a, b, n).len(),
    ensures
        missing_upto(a, b, n)[i].id != missing_upto(a, b, n)[j].id,
    decreases n,
{
    let before = missing_upto(a, b, n - 1);
    if j < before.len() {
        lemma_told_once(a, b, n - 1, i, j);
    } else {
        let id = a[n - 1].id;
        lemma_missing(a, b, id, n - 1);
        if before[i].id == id {
            assert(names(before, id));
            let k = choose|k: int| 0 <= k < n - 1 && #[trigger] is_last(a, k) && a[k].id == id;
            assert(a[n - 1].id != a[k].id);
        }
    }
}

/// Whether endpoint `k` of interface `i` goes by this address.
pub open spec fn has_address(config: ConfigDescriptor, i: int, k: int, address: u8) -> bool {
    &&& 0 <= i < config.interfaces@.len()
    &&& 0 <= k < config.interfaces@[i].endpoints@.len()
    &&& config.interfaces@[i].endpoints@[k].address == address
}

/// Every endpoint of every interface is looked at: no size is found only if none goes by
/// the address, and the size found is that of the first that does.
pub proof fn no_endpoint_is_overlooked(config: ConfigDescriptor, address: u8, from: int)
    requires
        0 <= from,
    ensures
        match size_in(config, address, from) {
            Some(size) => exists|i: int, k: int|
                {
                    &&& from <= i
                    &&& #[trigger] has_address(config, i, k, address)
                    &&& config.interfaces@[i].endpoints@[k].max_packet_size == size
                    &&& forall|j: int, l: int| #[trigger]
                        has_address(config, j, l, address) && from <= j ==> i < j || (i == j && k
                            <= l)
                },
            None => forall|i: int, k: int|
                from <= i ==> !#[trigger] has_address(config, i, k, address),
        },
    decreases config.interfaces@.len() - from,
{
    if from < config.interfaces@.len() {
        let es = config.interfaces@[from].endpoints@;
        lemma_size_from(es, address, 0);
        match size_from(es, address, 0) {
            Some(size) => {
                let k = choose|k: int|
                    {
                        &&& 0 <= k
                        &&& #[trigger] goes_by(es, k, address)
                        &&& es[k].max_packet_size == size
                        &&& forall|l: int| 0 <= l < k ==> !#[trigger] goes_by(es, l, address)
                    };
                assert(has_address(config, from, k, address));
                assert forall|j: int, l: int| #[trigger] has_address(config, j, l, address) && from
                    <= j implies from < j || (from == j && k <= l) by {
                    if j == from {
                        assert(goes_by(es, l, address));
                    }
                }
            },
            None => {
                no_endpoint_is_overlooked(config, address, from + 1);
                assert forall|l: int| !#[trigger] has_address(config, from, l, address) by {
                    if 0 <= l {
                        assert(!goes_by(es, l, address));
                    }
                }
                if let Some(size) = size_in(config, address, from) {
                    let (i, k) = choose|i: int, k: int|
                        {
                            &&& from + 1 <= i
                            &&& #[trigger] has_address(config, i, k, address)
                            &&& config.interfaces@[i].endpoints@[k].max_packet_size == size
                            &&& forall|j: int, l: int| #[trigger]
                                has_address(config, j, l, address) && from + 1 <= j ==> i < j || (i
                                    == j && k <= l)
                        };
                    assert(has_address(config, i, k, address));
                }
            },
        }
    }
}

/// Whether endpoint `k` goes by this address.
spec fn goes_by(es: Seq<EndpointDescriptor>, k: int, address: u8) -> bool {
    0 <= k < es.len() && es[k].address == address
}

proof fn lemma_size_from(es: Seq<EndpointDescriptor>, address: u8, from: int)
    requires
        0 <= from,
    ensures
        match size_from(es, address, from) {
            Some(size) => exists|k: int|
                {
                    &&& from <= k
                    &&& #[trigger] goes_by(es, k, address)
                    &&& es[k].max_packet_size == size
                    &&& forall|l: int| from <= l < k ==> !#[trigger] goes_by(es, l, address)
                },
            None => forall|l: int| from <= l ==> !#[trigger] goes_by(es, l, address),
        },
    decreases es.len() - from,
{
    if from < es.len() {
        if es[from].address == address {
            assert(goes_by(es, from, address));
        } else {
            lemma_size_from(es, address, from + 1);
            assert(!goes_by(es, from, address));
            if let Some(size) = size_from(es, address, from) {
                let k = choose|k: int|
                    {
                        &&& from + 1 <= k
                        &&& #[trigger] goes_by(es, k, address)
                        &&& es[k].max_packet_size == size
                        &&& forall|l: int|
                            from + 1 <= l < k ==> !#[trigger] goes_by(es, l, address)
                    };
                assert(goes_by(es, k, address));
            }
        }
    }
}

/// What is told of a device is what the list says of it, in the list's order: the one
/// named last where an id stands twice.
pub proof fn changes_are_told_as_listed(a: Seq<DeviceInfo>, b: Seq<DeviceInfo>, n: int, i: int)
    requires
        0 <= n <= a.len(),
        0 <= i < missing_upto(a, b, n).len(),
    ensures
        exists|k: int|
            {
                &&& 0 <= k < n
                &&& #[trigger] is_last(a, k)
                &&& missing_upto(a, b, n)[i] == a[k]@
                &&& !lists(b, a[k].id)
                &&& i == missing_upto(a, b, k).len()
            },
    decreases n,
{
    let before = missing_upto(a, b, n - 1);
    if i < before.len() {
        changes_are_told_as_listed(a, b, n - 1, i);
        let k = choose|k: int|
            {
                &&& 0 <= k < n - 1
                &&& #[trigger] is_last(a, k)
                &&& before[i] == a[k]@
                &&& !lists(b, a[k].id)
                &&& i == missing_upto(a, b, k).len()
            };
        assert(is_last(a, k));
    } else {
        assert(is_last(a, n - 1));
    }
}

/// What libusb reports means what it says: a device that is gone, one that was not
/// found, time that ran out, a stalled pipe, or else its own words.
pub proof fn faults_keep_their_meaning(what: String)
    ensures
        meaning(LibusbFault::NoDevice) == UsbError::Disconnected,
        meaning(LibusbFault::NotFound) == UsbError::NotFound,
        meaning(LibusbFault::Timeout) == UsbError::Timeout,
        meaning(LibusbFault::Pipe) == UsbError::Stall,
        meaning(LibusbFault::Other(what)) == UsbError::Other(what),
{
}

} // verus!
