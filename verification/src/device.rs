//! Opening a phone's RNDIS function and bringing the link up.

use vstd::prelude::*;
use vstd::string::*;

use crate::bus::{
    happened, lemma_made_more, unsealed, unsealed_claim, Bus, Call, ConnectError, ControlOf, InterfaceOf,
    Opened,
};
use crate::rndis::control::{Rndis, Session};
use crate::rndis::error::Error as RndisError;
use crate::text::{decimal, push_decimal, texts};
use crate::transport::UsbControlTransport;
use crate::usb::backend::{UsbBackend, UsbDevice, UsbInterface};
use crate::usb::descriptor::{ConfigDescriptor, DeviceId, DeviceInfo, DeviceInfoView, TransferType};
use crate::usb::error::{Result as UsbResult, UsbError};
use crate::usb::matcher::{
    find_rndis, found_from, is_first_function, is_first_in_any, no_configuration_is_overlooked,
    RndisFunction,
};

verus! {

/// What looking at one device came to. Devices claimed by other drivers cannot be
/// opened or read; they are simply not ours.
pub enum Sighting<D> {
    Unopened(UsbError),
    Unread(D, UsbError),
    Read(D, Vec<ConfigDescriptor>),
}

impl<D> Sighting<D> {
    /// The RNDIS function seen.
    pub open spec fn function(self) -> Option<RndisFunction> {
        match self {
            Sighting::Read(_, configs) => found_from(configs@, 0),
            _ => None,
        }
    }

    /// Whether a device was read that has no RNDIS function.
    pub open spec fn is_idle(self) -> bool {
        self is Read && self.function() is None
    }
}

/// The calls that looking at device `id` makes: it is opened, and where that
/// succeeds its configurations are read. Nothing is claimed or configured.
pub open spec fn look_calls<B: UsbBackend>(id: DeviceId, s: Sighting<B::Device>) -> Seq<Call<B>> {
    match s {
        Sighting::Unopened(e) => seq![Call::Open(id, Err(e))],
        Sighting::Unread(d, e) => seq![Call::Open(id, Ok(d)), Call::Configurations(d, Err(e))],
        Sighting::Read(d, configs) => seq![
            Call::Open(id, Ok(d)),
            Call::Configurations(d, Ok(configs)),
        ],
    }
}

/// The calls that looking at the first devices of `list` makes, one device after
/// another.
pub open spec fn search_calls<B: UsbBackend>(
    list: Seq<DeviceInfo>,
    seen: Seq<Sighting<B::Device>>,
) -> Seq<Call<B>>
    decreases seen.len(),
{
    if seen.len() == 0 {
        Seq::empty()
    } else {
        search_calls::<B>(list, seen.drop_last()) + look_calls::<B>(
            list[seen.len() - 1].id,
            seen.last(),
        )
    }
}

/// The calls of a whole search: the devices are listed, then looked at.
pub open spec fn listed_calls<B: UsbBackend>(
    list: Vec<DeviceInfo>,
    seen: Seq<Sighting<B::Device>>,
) -> Seq<Call<B>> {
    seq![Call::List(Ok(list))] + search_calls::<B>(list@, seen)
}

/// The labels of the idle ones among the first devices.
pub open spec fn idle_labels<D>(list: Seq<DeviceInfo>, seen: Seq<Sighting<D>>) -> Seq<Seq<char>>
    decreases seen.len(),
{
    if seen.len() == 0 {
        Seq::empty()
    } else {
        let before = idle_labels(list, seen.drop_last());
        if seen.last().is_idle() {
            before.push(list[seen.len() - 1]@.label())
        } else {
            before
        }
    }
}

/// What a look at the bus found.
#[derive(Debug)]
pub struct Scan {
    /// The first attached device exposing an RNDIS function, with that function.
    pub rndis: Option<(DeviceInfo, RndisFunction)>,
    /// Labels of the devices in front of it that are attached without one.
    pub idle: Vec<String>,
}

/// The devices of `list` as they were looked at in turn, up to the first with an
/// RNDIS function; `scan` holds that one, and the idle ones in front of it.
pub open spec fn scanned<D>(list: Seq<DeviceInfo>, seen: Seq<Sighting<D>>, scan: Scan) -> bool {
    &&& seen.len() <= list.len()
    &&& texts(scan.idle@) == idle_labels(list, seen)
    &&& match scan.rndis {
        None => {
            &&& seen.len() == list.len()
            &&& forall|i: int| 0 <= i < seen.len() ==> (#[trigger] seen[i]).function() is None
        },
        Some((info, function)) => {
            &&& seen.len() > 0
            &&& info@ == list[seen.len() - 1]@
            &&& seen.last().function() == Some(function)
            &&& forall|i: int|
                0 <= i < seen.len() - 1 ==> (#[trigger] seen[i]).function() is None
        },
    }
}

/// The configurations of one device, if they can be read.
pub(crate) fn look<B: UsbBackend>(bus: &mut Bus<'_, B>, id: DeviceId) -> (r: (
    UsbResult<UsbResult<Vec<ConfigDescriptor>>>,
    Ghost<Sighting<B::Device>>,
))
    ensures
        final(bus).made_all(old(bus), look_calls::<B>(id, r.1@)),
        match (r.0, r.1@) {
            (Err(e), Sighting::Unopened(why)) => e == why,
            (Ok(Err(e)), Sighting::Unread(_, why)) => e == why,
            (Ok(Ok(configs)), Sighting::Read(_, read)) => configs == read,
            _ => false,
        },
{
    let ghost start = *bus;
    let device = match bus.open(id) {
        Ok(d) => d,
        Err(e) => {
            let ghost s = Sighting::<B::Device>::Unopened(e);
            assert(bus.log() =~= start.log() + look_calls::<B>(id, s));
            return (Err(e), Ghost(s));
        },
    };
    let read = bus.configurations(&device);
    let ghost s = if read is Ok {
        Sighting::Read(device.device(), read->Ok_0)
    } else {
        Sighting::Unread(device.device(), read->Err_0)
    };
    assert(bus.log() =~= start.log() + look_calls::<B>(id, s));
    (Ok(read), Ghost(s))
}

/// One more device looked at adds the calls made on it.
pub(crate) proof fn lemma_search_step<B: UsbBackend>(
    start: &Bus<'_, B>,
    before: &Bus<'_, B>,
    after: &Bus<'_, B>,
    list: Vec<DeviceInfo>,
    seen: Seq<Sighting<B::Device>>,
    next: Sighting<B::Device>,
)
    requires
        seen.len() < list@.len(),
        before.made_all(start, listed_calls::<B>(list, seen)),
        after.made_all(before, look_calls::<B>(list@[seen.len() as int].id, next)),
    ensures
        after.made_all(start, listed_calls::<B>(list, seen.push(next))),
{
    let now = seen.push(next);
    assert(now.drop_last() =~= seen);
    let one = listed_calls::<B>(list, seen);
    let two = look_calls::<B>(list@[seen.len() as int].id, next);
    let all = listed_calls::<B>(list, now);
    assert(all =~= one + two);
    assert(after.log() =~= start.log() + all);
    assert forall|i: int| 0 <= i < all.len() implies happened(
        after.backend(),
        #[trigger] all[i],
    ) by {
        if i < one.len() {
            assert(all[i] == one[i]);
        } else {
            assert(all[i] == two[i - one.len()]);
        }
    }
}

/// Look at the attached devices in turn until one exposes an RNDIS function. No
/// device behind that one is opened, and nothing is claimed or configured.
pub fn scan<B: UsbBackend>(bus: &mut Bus<'_, B>) -> (r: UsbResult<Scan>)
    ensures
        match r {
            Err(e) => final(bus).made(old(bus), Call::List(Err(e))),
            Ok(scan) => exists|list: Vec<DeviceInfo>, seen: Seq<Sighting<B::Device>>|
                {
                    &&& final(bus).made_all(old(bus), #[trigger] listed_calls::<B>(list, seen))
                    &&& #[trigger] scanned(list@, seen, scan)
                },
        },
{
    let ghost start = *bus;
    let list = match bus.list() {
        Ok(list) => list,
        Err(e) => return Err(e),
    };
    let mut idle: Vec<String> = Vec::new();
    let ghost mut seen: Seq<Sighting<B::Device>> = Seq::empty();
    assert(texts(idle@) =~= Seq::empty());
    assert(bus.log() =~= start.log() + listed_calls::<B>(list, seen));
    assert(bus.made_all(&start, listed_calls::<B>(list, seen)));
    for i in 0..list.len()
        invariant
            start == *old(bus),
            seen.len() == i,
            bus.made_all(&start, listed_calls::<B>(list, seen)),
            texts(idle@) == idle_labels(list@, seen),
            forall|j: int| 0 <= j < seen.len() ==> (#[trigger] seen[j]).function() is None,
    {
        let ghost before = *bus;
        let info = &list[i];
        let (read, Ghost(sighting)) = look(bus, info.id);
        proof {
            lemma_search_step(&start, &before, bus, list, seen, sighting);
            let now = seen.push(sighting);
            assert(now.drop_last() =~= seen);
            seen = now;
        }
        // Devices claimed by other drivers are simply not ours.
        if let Ok(Ok(configs)) = read {
            match find_rndis(configs.as_slice()) {
                Some(function) => {
                    let scan = Scan { rndis: Some((info.clone(), function)), idle };
                    assert(scanned(list@, seen, scan));
                    return Ok(scan);
                },
                None => {
                    let ghost before = idle@;
                    let label = info.label();
                    idle.push(label);
                    assert(texts(idle@) =~= texts(before).push(label@));
                },
            }
        }
    }
    let scan = Scan { rndis: None, idle };
    assert(scanned(list@, seen, scan));
    Ok(scan)
}

/// The first attached device exposing an RNDIS function, with that function. No
/// device behind that one is opened, and nothing is claimed or configured.
pub fn find<B: UsbBackend>(bus: &mut Bus<'_, B>) -> (r: UsbResult<
    Option<(DeviceInfo, RndisFunction)>,
>)
    ensures
        match r {
            Err(e) => final(bus).made(old(bus), Call::List(Err(e))),
            Ok(found) => exists|list: Vec<DeviceInfo>, seen: Seq<Sighting<B::Device>>, scan: Scan|
                {
                    &&& final(bus).made_all(old(bus), #[trigger] listed_calls::<B>(list, seen))
                    &&& #[trigger] scanned(list@, seen, scan)
                    &&& scan.rndis == found
                },
        },
{
    let scan = match scan(bus) {
        Ok(scan) => scan,
        Err(e) => return Err(e),
    };
    let ghost whole = scan;
    let found = scan.rndis;
    assert(whole.rndis == found);
    Ok(found)
}

/// Searching claims nothing, configures nothing, and opens only the devices that
/// were looked at: none behind the one that was found.
pub proof fn searching_only_opens_and_reads<B: UsbBackend>(
    list: Vec<DeviceInfo>,
    seen: Seq<Sighting<B::Device>>,
    i: int,
)
    requires
        seen.len() <= list@.len(),
        0 <= i < listed_calls::<B>(list, seen).len(),
    ensures
        match listed_calls::<B>(list, seen)[i] {
            Call::List(_) => i == 0,
            Call::Open(id, _) => exists|j: int|
                0 <= j < seen.len() && (#[trigger] list@[j]).id == id,
            Call::Configurations(_, _) => true,
            _ => false,
        },
{
    if i > 0 {
        lemma_search_calls::<B>(list@, seen, i - 1);
    }
}

proof fn lemma_search_calls<B: UsbBackend>(
    list: Seq<DeviceInfo>,
    seen: Seq<Sighting<B::Device>>,
    i: int,
)
    requires
        seen.len() <= list.len(),
        0 <= i < search_calls::<B>(list, seen).len(),
    ensures
        match search_calls::<B>(list, seen)[i] {
            Call::Open(id, _) => exists|j: int|
                0 <= j < seen.len() && (#[trigger] list[j]).id == id,
            Call::Configurations(_, _) => true,
            _ => false,
        },
    decreases seen.len(),
{
    if seen.len() > 0 {
        let before = search_calls::<B>(list, seen.drop_last());
        if i < before.len() {
            lemma_search_calls::<B>(list, seen.drop_last(), i);
        } else {
            let last = list[seen.len() - 1];
            let calls = look_calls::<B>(last.id, seen.last());
            assert(search_calls::<B>(list, seen)[i] == calls[i - before.len()]);
        }
    }
}

/// An open, initialized RNDIS link.
pub struct RndisDevice<D: UsbDevice> {
    pub session: Session,
    pub control: Rndis<UsbControlTransport<D::Interface>>,
    pub bulk_in: <D::Interface as UsbInterface>::In,
    pub bulk_out: <D::Interface as UsbInterface>::Out,
    /// Held so the device handle outlives the claimed interfaces.
    pub device: Opened<D>,
}

/// Where opening a device failed.
#[derive(Debug)]
pub enum OpenError {
    Open(String, UsbError),
    Configure(UsbError),
    ClaimControl(u8, UsbError),
    ClaimData(u8, UsbError),
    AltSetting(UsbError),
    Transport(RndisError),
    BringUp(RndisError),
    BulkIn(UsbError),
    BulkOut(UsbError),
}

impl OpenError {
    /// What was being done.
    pub open spec fn context(self) -> Seq<char> {
        match self {
            OpenError::Open(label, _) => "opening "@ + label@,
            OpenError::Configure(_) => "selecting the RNDIS configuration"@,
            OpenError::ClaimControl(n, _) => "claiming control interface "@ + decimal(n as nat),
            OpenError::ClaimData(n, _) => "claiming data interface "@ + decimal(n as nat),
            OpenError::AltSetting(_) => "selecting the data interface alt setting"@,
            OpenError::Transport(_) => "opening the control transport"@,
            OpenError::BringUp(_) => "RNDIS bring-up"@,
            OpenError::BulkIn(_) => "opening the bulk IN endpoint"@,
            OpenError::BulkOut(_) => "opening the bulk OUT endpoint"@,
        }
    }

    /// Why it failed.
    pub open spec fn cause(self) -> Seq<char> {
        match self {
            OpenError::Open(_, e) => e.text(),
            OpenError::Configure(e) => e.text(),
            OpenError::ClaimControl(_, e) => e.text(),
            OpenError::ClaimData(_, e) => e.text(),
            OpenError::AltSetting(e) => e.text(),
            OpenError::Transport(e) => e.text(),
            OpenError::BringUp(e) => e.text(),
            OpenError::BulkIn(e) => e.text(),
            OpenError::BulkOut(e) => e.text(),
        }
    }

    /// The text shown for this error.
    pub fn message(&self) -> (r: String)
        ensures
            r@ == self.context() + ": "@ + self.cause(),
    {
        let mut s = match self {
            OpenError::Open(label, _) => {
                let mut s = "opening ".to_owned();
                s.append(label.as_str());
                s
            },
            OpenError::Configure(_) => "selecting the RNDIS configuration".to_owned(),
            OpenError::ClaimControl(n, _) => {
                let mut s = "claiming control interface ".to_owned();
                push_decimal(&mut s, *n as u64);
                s
            },
            OpenError::ClaimData(n, _) => {
                let mut s = "claiming data interface ".to_owned();
                push_decimal(&mut s, *n as u64);
                s
            },
            OpenError::AltSetting(_) => "selecting the data interface alt setting".to_owned(),
            OpenError::Transport(_) => "opening the control transport".to_owned(),
            OpenError::BringUp(_) => "RNDIS bring-up".to_owned(),
            OpenError::BulkIn(_) => "opening the bulk IN endpoint".to_owned(),
            OpenError::BulkOut(_) => "opening the bulk OUT endpoint".to_owned(),
        };
        let cause = match self {
            OpenError::Open(_, e) => e.message(),
            OpenError::Configure(e) => e.message(),
            OpenError::ClaimControl(_, e) => e.message(),
            OpenError::ClaimData(_, e) => e.message(),
            OpenError::AltSetting(e) => e.message(),
            OpenError::Transport(e) => e.message(),
            OpenError::BringUp(e) => e.message(),
            OpenError::BulkIn(e) => e.message(),
            OpenError::BulkOut(e) => e.message(),
        };
        s.append(": ");
        s.append(cause.as_str());
        s
    }
}

/// Whether a configuration has to be selected: any other is active, or none can be
/// read. Some devices report no active configuration until one is selected.
pub open spec fn must_configure(active: UsbResult<u8>, wanted: u8) -> bool {
    !(active is Ok && active->Ok_0 == wanted)
}

/// Whether the configuration `wanted` has to be selected.
pub fn needs_configuration(active: UsbResult<u8>, wanted: u8) -> (r: bool)
    ensures
        r == must_configure(active, wanted),
{
    match active {
        Ok(value) => value != wanted,
        Err(_) => true,
    }
}

/// Whether the calls of an opening, from the first on, are these: the device is
/// opened, brought to its configuration, its interfaces are claimed, the control
/// channel is brought up and the bulk endpoints are opened. The first call that
/// fails is the last.
pub open spec fn opened_in_order<B: UsbBackend>(
    calls: Seq<Call<B>>,
    info: DeviceInfoView,
    f: RndisFunction,
    r: Result<RndisDevice<B::Device>, OpenError>,
) -> bool {
    &&& calls.len() > 0
    &&& match calls[0] {
        Call::Open(id, outcome) => id == info.id && match outcome {
            Err(e) => {
                &&& calls.len() == 1
                &&& r is Err
                &&& r->Err_0 is Open
                &&& r->Err_0->Open_0@ == info.label()
                &&& r->Err_0->Open_1 == e
            },
            Ok(d) => configured_in_order(calls, d, f, r),
        },
        _ => false,
    }
}

/// Its second part, from the second call on: the configuration is selected only
/// where it has to be.
pub open spec fn configured_in_order<B: UsbBackend>(
    calls: Seq<Call<B>>,
    d: B::Device,
    f: RndisFunction,
    r: Result<RndisDevice<B::Device>, OpenError>,
) -> bool {
    &&& calls.len() > 1
    &&& match calls[1] {
        Call::ActiveConfiguration(on, active) => on == d && if must_configure(
            active,
            f.config_value,
        ) {
            &&& calls.len() > 2
            &&& match calls[2] {
                Call::SetConfiguration(on, value, outcome) => {
                    &&& on == d
                    &&& value == f.config_value
                    &&& match outcome {
                        Err(e) => calls.len() == 3 && r
                            == Err::<RndisDevice<B::Device>, _>(OpenError::Configure(e)),
                        Ok(_) => claimed_in_order(calls, 3, d, f, r),
                    }
                },
                _ => false,
            }
        } else {
            claimed_in_order(calls, 2, d, f, r)
        },
        _ => false,
    }
}

/// Its third part, from call `at` on: the control interface is claimed, then the
/// data interface, whose alt setting is selected where it is not the default.
pub open spec fn claimed_in_order<B: UsbBackend>(
    calls: Seq<Call<B>>,
    at: int,
    d: B::Device,
    f: RndisFunction,
    r: Result<RndisDevice<B::Device>, OpenError>,
) -> bool {
    &&& calls.len() > at
    &&& match calls[at] {
        Call::Claim(on, number, outcome) => on == d && number == f.control_interface
            && match outcome {
            Err(e) => calls.len() == at + 1 && r == Err::<RndisDevice<B::Device>, _>(
                OpenError::ClaimControl(number, e),
            ),
            Ok(control) => {
                &&& calls.len() > at + 1
                &&& match calls[at + 1] {
                    Call::Claim(on, number, outcome) => on == d && number == f.data_interface
                        && match outcome {
                        Err(e) => calls.len() == at + 2 && r == Err::<RndisDevice<B::Device>, _>(
                            OpenError::ClaimData(number, e),
                        ),
                        Ok(data) => alternated_in_order(calls, at + 2, d, control, data, f, r),
                    },
                    _ => false,
                }
            },
        },
        _ => false,
    }
}

/// Its fourth part, from call `at` on: the alt setting.
pub open spec fn alternated_in_order<B: UsbBackend>(
    calls: Seq<Call<B>>,
    at: int,
    d: B::Device,
    control: InterfaceOf<B>,
    data: InterfaceOf<B>,
    f: RndisFunction,
    r: Result<RndisDevice<B::Device>, OpenError>,
) -> bool {
    if f.data_alt_setting == 0 {
        connected_in_order(calls, at, d, control, data, f, r)
    } else {
        &&& calls.len() > at
        &&& match calls[at] {
            Call::SetAltSetting(on, alt, outcome) => on == data && alt == f.data_alt_setting
                && match outcome {
                Err(e) => calls.len() == at + 1 && r == Err::<RndisDevice<B::Device>, _>(
                    OpenError::AltSetting(e),
                ),
                Ok(_) => connected_in_order(calls, at + 1, d, control, data, f, r),
            },
            _ => false,
        }
    }
}

/// Its last part, from call `at` on: the RNDIS bring-up over the control interface,
/// then the bulk endpoints of the data interface.
pub open spec fn connected_in_order<B: UsbBackend>(
    calls: Seq<Call<B>>,
    at: int,
    d: B::Device,
    control: InterfaceOf<B>,
    data: InterfaceOf<B>,
    f: RndisFunction,
    r: Result<RndisDevice<B::Device>, OpenError>,
) -> bool {
    &&& calls.len() > at
    &&& match calls[at] {
        Call::Connect(on, number, interrupt_in, outcome) => {
            &&& on == control
            &&& number == f.control_interface
            &&& interrupt_in == f.interrupt_in
            &&& match outcome {
                Err(ConnectError::Transport(e)) => calls.len() == at + 1 && r == Err::<
                    RndisDevice<B::Device>,
                    _,
                >(OpenError::Transport(e)),
                Err(ConnectError::BringUp(e)) => calls.len() == at + 1 && r == Err::<
                    RndisDevice<B::Device>,
                    _,
                >(OpenError::BringUp(e)),
                Ok((session, channel)) => bulk_in_order(
                    calls,
                    at + 1,
                    d,
                    data,
                    session,
                    channel,
                    f,
                    r,
                ),
            }
        },
        _ => false,
    }
}

/// The bulk endpoints, from call `at` on.
pub open spec fn bulk_in_order<B: UsbBackend>(
    calls: Seq<Call<B>>,
    at: int,
    d: B::Device,
    data: InterfaceOf<B>,
    session: Session,
    channel: ControlOf<B>,
    f: RndisFunction,
    r: Result<RndisDevice<B::Device>, OpenError>,
) -> bool {
    &&& calls.len() > at
    &&& match calls[at] {
        Call::OpenIn(on, address, ty, outcome) => {
            &&& on == data
            &&& address == f.bulk_in
            &&& ty == TransferType::Bulk
            &&& match outcome {
                Err(e) => calls.len() == at + 1 && r == Err::<RndisDevice<B::Device>, _>(
                    OpenError::BulkIn(e),
                ),
                Ok(bulk_in) => {
                    &&& calls.len() == at + 2
                    &&& match calls[at + 1] {
                        Call::OpenOut(on, address, ty, outcome) => {
                            &&& on == data
                            &&& address == f.bulk_out
                            &&& ty == TransferType::Bulk
                            &&& match outcome {
                                Err(e) => r == Err::<RndisDevice<B::Device>, _>(
                                    OpenError::BulkOut(e),
                                ),
                                Ok(bulk_out) => {
                                    &&& r is Ok
                                    &&& r->Ok_0.session == session
                                    &&& r->Ok_0.control == channel
                                    &&& r->Ok_0.bulk_in == bulk_in
                                    &&& r->Ok_0.bulk_out == bulk_out
                                    &&& r->Ok_0.device.device() == d
                                },
                            }
                        },
                        _ => false,
                    }
                },
            }
        },
        _ => false,
    }
}

/// Whether a call failed in a way that ends an opening. An active configuration that
/// cannot be read does not.
pub open spec fn call_failed<B: UsbBackend>(call: Call<B>) -> bool {
    match call {
        Call::List(r) => r is Err,
        Call::Open(_, r) => r is Err,
        Call::Configurations(_, r) => r is Err,
        Call::ActiveConfiguration(_, _) => false,
        Call::SetConfiguration(_, _, r) => r is Err,
        Call::Claim(_, _, r) => r is Err,
        Call::SetAltSetting(_, _, r) => r is Err,
        Call::Connect(_, _, _, r) => r is Err,
        Call::OpenIn(_, _, _, r) => r is Err,
        Call::OpenOut(_, _, _, r) => r is Err,
    }
}

/// Nothing is called behind the first failure, and an opening fails exactly if a call
/// did.
pub proof fn opening_stops_at_the_first_failure<B: UsbBackend>(
    calls: Seq<Call<B>>,
    info: DeviceInfoView,
    f: RndisFunction,
    r: Result<RndisDevice<B::Device>, OpenError>,
)
    requires
        opened_in_order(calls, info, f, r),
    ensures
        calls.len() > 0,
        forall|i: int| 0 <= i < calls.len() - 1 ==> !call_failed(#[trigger] calls[i]),
        r is Err == call_failed(calls.last()),
{
}

/// Claim the interfaces and run the RNDIS bring-up sequence.
pub fn open<B: UsbBackend>(bus: &mut Bus<'_, B>, info: DeviceInfo, function: RndisFunction) -> (r:
    Result<RndisDevice<B::Device>, OpenError>)
    ensures
        exists|calls: Seq<Call<B>>|
            final(bus).made_all(old(bus), calls) && #[trigger] opened_in_order(
                calls,
                info@,
                function,
                r,
            ),
{
    let ghost start = *bus;
    let ghost mut calls: Seq<Call<B>> = Seq::empty();
    assert(start.log() =~= start.log() + calls);

    let ghost before = *bus;
    let opened = bus.open(info.id);
    proof {
        let call = Call::Open(info.id, unsealed(opened));
        lemma_made_more(&start, &before, bus, calls, call);
        calls = calls.push(call);
    }
    let device = match opened {
        Ok(d) => d,
        Err(e) => {
            let r = Err(OpenError::Open(info.label(), e));
            assert(opened_in_order(calls, info@, function, r));
            return r;
        },
    };

    let ghost before = *bus;
    let active = bus.active_configuration(&device);
    proof {
        let call = Call::ActiveConfiguration(device.device(), active);
        lemma_made_more(&start, &before, bus, calls, call);
        calls = calls.push(call);
    }
    let ghost mut at: int = 2;
    if needs_configuration(active, function.config_value) {
        let ghost before = *bus;
        let selected = bus.set_configuration(&device, function.config_value);
        proof {
            let call = Call::SetConfiguration(device.device(), function.config_value, selected);
            lemma_made_more(&start, &before, bus, calls, call);
            calls = calls.push(call);
            at = 3;
        }
        if let Err(e) = selected {
            let r = Err(OpenError::Configure(e));
            assert(opened_in_order(calls, info@, function, r));
            return r;
        }
    }

    let ghost before = *bus;
    let claimed = bus.claim_interface(&device, function.control_interface);
    proof {
        let call = Call::Claim(device.device(), function.control_interface, unsealed_claim(claimed));
        lemma_made_more(&start, &before, bus, calls, call);
        calls = calls.push(call);
    }
    let control = match claimed {
        Ok(i) => i,
        Err(e) => {
            let r = Err(OpenError::ClaimControl(function.control_interface, e));
            assert(claimed_in_order(calls, at, device.device(), function, r));
            assert(opened_in_order(calls, info@, function, r));
            return r;
        },
    };

    let ghost before = *bus;
    let claimed = bus.claim_interface(&device, function.data_interface);
    proof {
        let call = Call::Claim(device.device(), function.data_interface, unsealed_claim(claimed));
        lemma_made_more(&start, &before, bus, calls, call);
        calls = calls.push(call);
    }
    let data = match claimed {
        Ok(i) => i,
        Err(e) => {
            let r = Err(OpenError::ClaimData(function.data_interface, e));
            assert(claimed_in_order(calls, at, device.device(), function, r));
            assert(opened_in_order(calls, info@, function, r));
            return r;
        },
    };
    if function.data_alt_setting != 0 {
        let ghost before = *bus;
        let selected = bus.set_alt_setting(&data, function.data_alt_setting);
        proof {
            let call = Call::SetAltSetting(data.interface(), function.data_alt_setting, selected);
            lemma_made_more(&start, &before, bus, calls, call);
            calls = calls.push(call);
        }
        if let Err(e) = selected {
            let r = Err(OpenError::AltSetting(e));
            assert(claimed_in_order(calls, at, device.device(), function, r));
            assert(opened_in_order(calls, info@, function, r));
            return r;
        }
    }
    let ghost wire = control.interface();

    let ghost before = *bus;
    let brought = bus.connect(control, function.control_interface, function.interrupt_in);
    proof {
        let call = Call::Connect(
            wire,
            function.control_interface,
            function.interrupt_in,
            brought,
        );
        lemma_made_more(&start, &before, bus, calls, call);
        calls = calls.push(call);
    }
    let (session, channel) = match brought {
        Ok(up) => up,
        Err(e) => {
            let r = Err(
                match e {
                    ConnectError::Transport(e) => OpenError::Transport(e),
                    ConnectError::BringUp(e) => OpenError::BringUp(e),
                },
            );
            assert(claimed_in_order(calls, at, device.device(), function, r));
            assert(opened_in_order(calls, info@, function, r));
            return r;
        },
    };

    let ghost before = *bus;
    let endpoint = bus.open_in(&data, function.bulk_in, TransferType::Bulk);
    proof {
        let call = Call::OpenIn(
            data.interface(),
            function.bulk_in,
            TransferType::Bulk,
            endpoint,
        );
        lemma_made_more(&start, &before, bus, calls, call);
        calls = calls.push(call);
    }
    let bulk_in = match endpoint {
        Ok(ep) => ep,
        Err(e) => {
            let r = Err(OpenError::BulkIn(e));
            assert(claimed_in_order(calls, at, device.device(), function, r));
            assert(opened_in_order(calls, info@, function, r));
            return r;
        },
    };

    let ghost before = *bus;
    let endpoint = bus.open_out(&data, function.bulk_out, TransferType::Bulk);
    proof {
        let call = Call::OpenOut(
            data.interface(),
            function.bulk_out,
            TransferType::Bulk,
            endpoint,
        );
        lemma_made_more(&start, &before, bus, calls, call);
        calls = calls.push(call);
    }
    let bulk_out = match endpoint {
        Ok(ep) => ep,
        Err(e) => {
            let r = Err(OpenError::BulkOut(e));
            assert(claimed_in_order(calls, at, device.device(), function, r));
            assert(opened_in_order(calls, info@, function, r));
            return r;
        },
    };
    let ghost opened_device = device.device();
    let r = Ok(RndisDevice { session, control: channel, bulk_in, bulk_out, device });
    assert(claimed_in_order(calls, at, opened_device, function, r));
    assert(opened_in_order(calls, info@, function, r));
    r
}

/// Every device that was read and offers no function is named among the idle, and no
/// other is. They are named in the order they were looked at.
pub proof fn idle_devices_are_all_named<D>(list: Seq<DeviceInfo>, seen: Seq<Sighting<D>>, i: int)
    requires
        seen.len() <= list.len(),
        0 <= i < seen.len(),
        seen[i] matches Sighting::Read(_, configs) && is_first_in_any(configs@, None),
    ensures
        ({
            let before = idle_labels(list, seen.take(i)).len() as int;
            &&& before < idle_labels(list, seen).len()
            &&& idle_labels(list, seen)[before] == list[i]@.label()
        }),
    decreases seen.len(),
{
    let init = seen.drop_last();
    if i < seen.len() - 1 {
        assert(init[i] == seen[i]);
        idle_devices_are_all_named(list, init, i);
        assert(init.take(i) =~= seen.take(i));
    } else {
        assert(seen.take(i) =~= init);
        if let Sighting::Read(_, configs) = seen[i] {
            no_configuration_is_overlooked(configs@);
            lemma_offers_nothing(configs@);
        }
    }
}

/// Each name among the idle is that of a device that was read and offers no function.
pub proof fn only_idle_devices_are_named<D>(list: Seq<DeviceInfo>, seen: Seq<Sighting<D>>, n: int)
    requires
        seen.len() <= list.len(),
        0 <= n < idle_labels(list, seen).len(),
    ensures
        exists|i: int|
            {
                &&& 0 <= i < seen.len()
                &&& idle_labels(list, seen)[n] == (#[trigger] list[i])@.label()
                &&& seen[i] matches Sighting::Read(_, configs)
                &&& is_first_in_any(configs@, None)
            },
    decreases seen.len(),
{
    let init = seen.drop_last();
    if n < idle_labels(list, init).len() {
        only_idle_devices_are_named(list, init, n);
        let i = choose|i: int|
            {
                &&& 0 <= i < init.len()
                &&& idle_labels(list, init)[n] == (#[trigger] list[i])@.label()
                &&& init[i] matches Sighting::Read(_, configs)
                &&& is_first_in_any(configs@, None)
            };
        assert(init[i] == seen[i]);
        assert(idle_labels(list, seen)[n] == list[i]@.label());
    } else {
        let last = seen.len() - 1;
        if let Sighting::Read(_, configs) = seen[last] {
            no_configuration_is_overlooked(configs@);
        }
        assert(idle_labels(list, seen)[n] == list[last]@.label());
    }
}

/// A configuration list that offers nothing has nothing found in it.
proof fn lemma_offers_nothing(configs: Seq<ConfigDescriptor>)
    requires
        is_first_in_any(configs, None),
    ensures
        found_from(configs, 0) is None,
{
    no_configuration_is_overlooked(configs);
    if let Some(f) = found_from(configs, 0) {
        let k = choose|k: int|
            0 <= k < configs.len() && is_first_function(#[trigger] configs[k], Some(f))
                && forall|j: int| 0 <= j < k ==> is_first_function(#[trigger] configs[j], None);
        assert(is_first_function(configs[k], None));
    }
}

/// Each device is opened in its turn, by its id.
pub proof fn devices_are_opened_in_turn<B: UsbBackend>(
    list: Seq<DeviceInfo>,
    seen: Seq<Sighting<B::Device>>,
    i: int,
)
    requires
        seen.len() <= list.len(),
        0 <= i < seen.len(),
    ensures
        ({
            let at = search_calls::<B>(list, seen.take(i)).len() as int;
            let calls = search_calls::<B>(list, seen);
            &&& at < calls.len()
            &&& calls[at] matches Call::Open(id, outcome) && id == list[i].id && (outcome is Ok
                ==> at + 1 < calls.len() && calls[at + 1] is Configurations)
        }),
    decreases seen.len(),
{
    let init = seen.drop_last();
    if i < seen.len() - 1 {
        devices_are_opened_in_turn::<B>(list, init, i);
        assert(init.take(i) =~= seen.take(i));
    } else {
        assert(seen.take(i) =~= init);
        let last = look_calls::<B>(list[i].id, seen[i]);
        let at = search_calls::<B>(list, init).len() as int;
        let calls = search_calls::<B>(list, seen);
        assert(calls[at] == last[0]);
        if last.len() > 1 {
            assert(calls[at + 1] == last[1]);
        }
    }
}

/// A link that is open came about in full: its device was opened, brought to the
/// function's configuration if another was active, both interfaces were claimed, the
/// data interface brought to its alternate setting if it has one, the control channel
/// brought up over the control interface, and the two bulk endpoints opened on the data
/// interface. What it holds are the results of these calls.
pub proof fn open_links_came_about_in_full<B: UsbBackend>(
    calls: Seq<Call<B>>,
    info: DeviceInfoView,
    f: RndisFunction,
    link: RndisDevice<B::Device>,
)
    requires
        opened_in_order(calls, info, f, Ok(link)),
    ensures
        ({
            let d = link.device.device();
            let n = calls.len() as int;
            let chosen: int = if calls[1] matches Call::ActiveConfiguration(_, Ok(v)) && v
                == f.config_value {
                2
            } else {
                3
            };
            let alternated: int = if f.data_alt_setting == 0 {
                0
            } else {
                1
            };
            &&& n == chosen + 5 + alternated
            &&& calls[0] == Call::<B>::Open(info.id, Ok(d))
            &&& calls[1] matches Call::ActiveConfiguration(on, _) && on == d
            &&& chosen == 3 ==> (calls[2] matches Call::SetConfiguration(on, value, Ok(_)) && on
                == d && value == f.config_value)
            &&& calls[chosen] matches Call::Claim(on, number, Ok(control)) && on == d && number
                == f.control_interface && (calls[n - 3] matches Call::Connect(
                over,
                number,
                interrupt_in,
                Ok((session, channel)),
            ) && over == control && number == f.control_interface && interrupt_in
                == f.interrupt_in && session == link.session && channel == link.control)
            &&& calls[chosen + 1] matches Call::Claim(on, number, Ok(data)) && on == d && number
                == f.data_interface && (alternated == 1 ==> (calls[chosen + 2]
                matches Call::SetAltSetting(over, alt, Ok(_)) && over == data && alt
                == f.data_alt_setting)) && calls[n - 2] == Call::<B>::OpenIn(
                data,
                f.bulk_in,
                TransferType::Bulk,
                Ok(link.bulk_in),
            ) && calls[n - 1] == Call::<B>::OpenOut(
                data,
                f.bulk_out,
                TransferType::Bulk,
                Ok(link.bulk_out),
            )
        }),
{
}

/// What kept a link from opening is named after the call that failed, with its error.
pub proof fn failures_name_the_call<B: UsbBackend>(
    calls: Seq<Call<B>>,
    info: DeviceInfoView,
    f: RndisFunction,
    e: OpenError,
)
    requires
        opened_in_order(calls, info, f, Err(e)),
    ensures
        match calls.last() {
            Call::Open(_, Err(why)) => e is Open && e->Open_0@ == info.label() && e->Open_1 == why,
            Call::SetConfiguration(_, _, Err(why)) => e == OpenError::Configure(why),
            Call::Claim(_, number, Err(why)) => {
                ||| number == f.control_interface && e == OpenError::ClaimControl(number, why)
                ||| number == f.data_interface && e == OpenError::ClaimData(number, why)
            },
            Call::SetAltSetting(_, _, Err(why)) => e == OpenError::AltSetting(why),
            Call::Connect(_, _, _, Err(ConnectError::Transport(why))) => e
                == OpenError::Transport(why),
            Call::Connect(_, _, _, Err(ConnectError::BringUp(why))) => e == OpenError::BringUp(
                why,
            ),
            Call::OpenIn(_, _, _, Err(why)) => e == OpenError::BulkIn(why),
            Call::OpenOut(_, _, _, Err(why)) => e == OpenError::BulkOut(why),
            _ => false,
        },
{
}

/// A scan stops at the first device that offers a function, and holds that device and
/// that function; a scan that holds none has looked at every device, and none offers
/// any.
pub proof fn scans_stop_at_the_first_phone<D>(
    list: Seq<DeviceInfo>,
    seen: Seq<Sighting<D>>,
    scan: Scan,
)
    requires
        scanned(list, seen, scan),
    ensures
        forall|i: int|
            0 <= i < seen.len() - (if scan.rndis is Some {
                1int
            } else {
                0
            }) ==> ((#[trigger] seen[i]) matches Sighting::Read(_, configs) ==> is_first_in_any(
                configs@,
                None,
            )),
        match scan.rndis {
            Some((info, function)) => {
                &&& 0 < seen.len() <= list.len()
                &&& info@ == list[seen.len() - 1]@
                &&& seen.last() matches Sighting::Read(_, configs)
                &&& is_first_in_any(configs@, Some(function))
            },
            None => seen.len() == list.len(),
        },
{
    assert forall|i: int| 0 <= i < seen.len() implies ((#[trigger] seen[i]) matches Sighting::Read(
        _,
        configs,
    ) ==> is_first_in_any(configs@, seen[i].function())) by {
        if let Sighting::Read(_, configs) = seen[i] {
            no_configuration_is_overlooked(configs@);
        }
    }
}

/// What was being done when opening failed is said, and why it failed, with a colon
/// between.
pub proof fn open_errors_say_what_was_being_done(
    label: String,
    n: u8,
    usb: UsbError,
    rndis: RndisError,
)
    ensures
        OpenError::Open(label, usb).context() == "opening "@ + label@,
        OpenError::Configure(usb).context() == "selecting the RNDIS configuration"@,
        OpenError::ClaimControl(n, usb).context() == "claiming control interface "@ + decimal(
            n as nat,
        ),
        OpenError::ClaimData(n, usb).context() == "claiming data interface "@ + decimal(n as nat),
        OpenError::AltSetting(usb).context() == "selecting the data interface alt setting"@,
        OpenError::Transport(rndis).context() == "opening the control transport"@,
        OpenError::BringUp(rndis).context() == "RNDIS bring-up"@,
        OpenError::BulkIn(usb).context() == "opening the bulk IN endpoint"@,
        OpenError::BulkOut(usb).context() == "opening the bulk OUT endpoint"@,
        OpenError::Open(label, usb).cause() == usb.text(),
        OpenError::Configure(usb).cause() == usb.text(),
        OpenError::ClaimControl(n, usb).cause() == usb.text(),
        OpenError::ClaimData(n, usb).cause() == usb.text(),
        OpenError::AltSetting(usb).cause() == usb.text(),
        OpenError::Transport(rndis).cause() == rndis.text(),
        OpenError::BringUp(rndis).cause() == rndis.text(),
        OpenError::BulkIn(usb).cause() == usb.text(),
        OpenError::BulkOut(usb).cause() == usb.text(),
{
}

} // verus!
