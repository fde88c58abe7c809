//! Descriptor dump for diagnosing a phone that is not being matched.

use vstd::prelude::*;
use vstd::string::*;

use crate::bus::{Bus, Call};
use crate::device::{lemma_search_step, listed_calls, look, look_calls, Sighting};
use crate::text::{decimal, hex_padded, push_decimal, push_hex_padded, texts};
use crate::usb::backend::{HotplugEvent, UsbBackend};
use crate::usb::descriptor::{
    direction_of, ConfigDescriptor, DeviceId, DeviceInfo, Direction, EndpointDescriptor,
    InterfaceDescriptor, TransferType,
};
use crate::usb::error::{Result as UsbResult, UsbError};
use crate::usb::matcher::{find_rndis, found_from, RndisFunction};

verus! {

/// The name of a transfer type.
pub open spec fn kind_name(ty: TransferType) -> Seq<char> {
    match ty {
        TransferType::Control => "Control"@,
        TransferType::Isochronous => "Isochronous"@,
        TransferType::Bulk => "Bulk"@,
        TransferType::Interrupt => "Interrupt"@,
    }
}

/// The name of a direction.
pub open spec fn direction_name(dir: Direction) -> Seq<char> {
    match dir {
        Direction::In => "In"@,
        Direction::Out => "Out"@,
    }
}

/// The line on an endpoint.
pub open spec fn endpoint_line(e: EndpointDescriptor) -> Seq<char> {
    "      ep 0x"@ + hex_padded(e.address as nat, 2) + " "@ + kind_name(e.transfer_type) + " "@
        + direction_name(direction_of(e.address)) + " mps "@ + decimal(e.max_packet_size as nat)
}

/// The lines on some endpoints.
pub open spec fn endpoint_lines(es: Seq<EndpointDescriptor>) -> Seq<Seq<char>> {
    es.map_values(|e: EndpointDescriptor| endpoint_line(e))
}

/// The line that heads an interface.
pub open spec fn interface_line(i: InterfaceDescriptor) -> Seq<char> {
    "    iface "@ + decimal(i.number as nat) + "."@ + decimal(i.alt_setting as nat) + " class "@
        + hex_padded(i.class as nat, 2) + "/"@ + hex_padded(i.subclass as nat, 2) + "/"@
        + hex_padded(i.protocol as nat, 2)
}

/// The lines on some interfaces, each with its endpoints behind it.
pub open spec fn interface_lines(is: Seq<InterfaceDescriptor>) -> Seq<Seq<char>>
    decreases is.len(),
{
    if is.len() == 0 {
        Seq::empty()
    } else {
        interface_lines(is.drop_last()).push(interface_line(is.last())) + endpoint_lines(
            is.last().endpoints@,
        )
    }
}

/// The lines on some configurations, each with its interfaces behind it.
pub open spec fn config_lines(cs: Seq<ConfigDescriptor>) -> Seq<Seq<char>>
    decreases cs.len(),
{
    if cs.len() == 0 {
        Seq::empty()
    } else {
        config_lines(cs.drop_last()).push("  config "@ + decimal(cs.last().value as nat))
            + interface_lines(cs.last().interfaces@)
    }
}

/// An endpoint address that may be absent.
pub open spec fn optional_address(address: Option<u8>) -> Seq<char> {
    match address {
        Some(a) => "Some(\n        "@ + decimal(a as nat) + ",\n    )"@,
        None => "None"@,
    }
}

/// The function matched, a field to a line.
pub open spec fn function_text(f: RndisFunction) -> Seq<char> {
    "  RNDIS: RndisFunction {\n    config_value: "@ + decimal(f.config_value as nat)
        + ",\n    control_interface: "@ + decimal(f.control_interface as nat)
        + ",\n    data_interface: "@ + decimal(f.data_interface as nat)
        + ",\n    data_alt_setting: "@ + decimal(f.data_alt_setting as nat)
        + ",\n    interrupt_in: "@ + optional_address(f.interrupt_in) + ",\n    bulk_in: "@
        + decimal(f.bulk_in as nat) + ",\n    bulk_out: "@ + decimal(f.bulk_out as nat)
        + ",\n    bulk_max_packet_size: "@ + decimal(f.bulk_max_packet_size as nat) + ",\n}"@
}

/// What is said of one device. One that can be read and has no RNDIS function is
/// passed over.
pub open spec fn device_lines<D>(info: DeviceInfo, seen: Sighting<D>) -> Seq<Seq<char>> {
    match seen {
        Sighting::Unopened(e) => seq![info@.label() + ": cannot open ("@ + e.text() + ")"@],
        Sighting::Unread(_, e) => seq![info@.label() + ": cannot read configs ("@ + e.text() + ")"@],
        Sighting::Read(_, configs) => match found_from(configs@, 0) {
            None => Seq::empty(),
            Some(f) => (seq!["\n=== "@ + info@.label() + " id="@ + info.id.text() + " ==="@]
                + config_lines(configs@)).push(function_text(f)),
        },
    }
}

/// What is said of the first devices.
pub open spec fn devices_lines<D>(list: Seq<DeviceInfo>, seen: Seq<Sighting<D>>) -> Seq<Seq<char>>
    decreases seen.len(),
{
    if seen.len() == 0 {
        Seq::empty()
    } else {
        devices_lines(list, seen.drop_last()) + device_lines(list[seen.len() - 1], seen.last())
    }
}

/// Whether any of the devices has an RNDIS function.
pub open spec fn any_found<D>(seen: Seq<Sighting<D>>) -> bool {
    exists|i: int| 0 <= i < seen.len() && (#[trigger] seen[i]).function() is Some
}

/// What is said of all the devices.
pub open spec fn report_lines<D>(list: Seq<DeviceInfo>, seen: Seq<Sighting<D>>) -> Seq<Seq<char>> {
    if any_found(seen) {
        devices_lines(list, seen)
    } else {
        devices_lines(list, seen).push(
            "no RNDIS device found — enable USB tethering on the phone"@,
        )
    }
}

proof fn lemma_texts_push(v: Seq<String>, s: String)
    ensures
        texts(v.push(s)) == texts(v).push(s@),
{
    assert(texts(v.push(s)) =~= texts(v).push(s@));
}

fn push_line(out: &mut Vec<String>, line: String)
    ensures
        texts(final(out)@) == texts(old(out)@).push(line@),
{
    proof {
        lemma_texts_push(out@, line);
    }
    out.push(line);
}

/// The line on an endpoint.
pub fn describe_endpoint(e: &EndpointDescriptor) -> (s: String)
    ensures
        s@ == endpoint_line(*e),
{
    let mut s = "      ep 0x".to_owned();
    push_hex_padded(&mut s, e.address as u32, 2);
    s.append(" ");
    s.append(
        match e.transfer_type {
            TransferType::Control => "Control",
            TransferType::Isochronous => "Isochronous",
            TransferType::Bulk => "Bulk",
            TransferType::Interrupt => "Interrupt",
        },
    );
    s.append(" ");
    s.append(
        match e.direction() {
            Direction::In => "In",
            Direction::Out => "Out",
        },
    );
    s.append(" mps ");
    push_decimal(&mut s, e.max_packet_size as u64);
    s
}

/// The line that heads an interface.
pub fn describe_interface(i: &InterfaceDescriptor) -> (s: String)
    ensures
        s@ == interface_line(*i),
{
    let mut s = "    iface ".to_owned();
    push_decimal(&mut s, i.number as u64);
    s.append(".");
    push_decimal(&mut s, i.alt_setting as u64);
    s.append(" class ");
    push_hex_padded(&mut s, i.class as u32, 2);
    s.append("/");
    push_hex_padded(&mut s, i.subclass as u32, 2);
    s.append("/");
    push_hex_padded(&mut s, i.protocol as u32, 2);
    s
}

fn push_endpoints(out: &mut Vec<String>, es: &Vec<EndpointDescriptor>)
    ensures
        texts(final(out)@) == texts(old(out)@) + endpoint_lines(es@),
{
    let ghost start = texts(out@);
    assert(es@.take(0) =~= Seq::empty());
    assert(start + endpoint_lines(Seq::empty()) =~= start);
    for i in 0..es.len()
        invariant
            texts(out@) == start + endpoint_lines(es@.take(i as int)),
    {
        let line = describe_endpoint(&es[i]);
        push_line(out, line);
        assert(start + endpoint_lines(es@.take(i + 1)) =~= (start + endpoint_lines(
            es@.take(i as int),
        )).push(line@));
    }
    assert(es@.take(es.len() as int) =~= es@);
}

fn push_interfaces(out: &mut Vec<String>, is: &Vec<InterfaceDescriptor>)
    ensures
        texts(final(out)@) == texts(old(out)@) + interface_lines(is@),
{
    let ghost start = texts(out@);
    assert(is@.take(0) =~= Seq::empty());
    assert(start + interface_lines(Seq::empty()) =~= start);
    for i in 0..is.len()
        invariant
            texts(out@) == start + interface_lines(is@.take(i as int)),
    {
        let line = describe_interface(&is[i]);
        push_line(out, line);
        push_endpoints(out, &is[i].endpoints);
        assert(is@.take(i + 1).drop_last() =~= is@.take(i as int));
        assert(start + interface_lines(is@.take(i + 1)) =~= (start + interface_lines(
            is@.take(i as int),
        )).push(line@) + endpoint_lines(is@[i as int].endpoints@));
    }
    assert(is@.take(is.len() as int) =~= is@);
}

fn push_configs(out: &mut Vec<String>, cs: &Vec<ConfigDescriptor>)
    ensures
        texts(final(out)@) == texts(old(out)@) + config_lines(cs@),
{
    let ghost start = texts(out@);
    assert(cs@.take(0) =~= Seq::empty());
    assert(start + config_lines(Seq::empty()) =~= start);
    for i in 0..cs.len()
        invariant
            texts(out@) == start + config_lines(cs@.take(i as int)),
    {
        let mut line = "  config ".to_owned();
        push_decimal(&mut line, cs[i].value as u64);
        let ghost head = line@;
        push_line(out, line);
        push_interfaces(out, &cs[i].interfaces);
        assert(cs@.take(i + 1).drop_last() =~= cs@.take(i as int));
        assert(start + config_lines(cs@.take(i + 1)) =~= (start + config_lines(
            cs@.take(i as int),
        )).push(head) + interface_lines(cs@[i as int].interfaces@));
    }
    assert(cs@.take(cs.len() as int) =~= cs@);
}

/// The function matched, a field to a line.
pub fn describe_function(f: &RndisFunction) -> (s: String)
    ensures
        s@ == function_text(*f),
{
    let mut s = "  RNDIS: RndisFunction {\n    config_value: ".to_owned();
    push_decimal(&mut s, f.config_value as u64);
    s.append(",\n    control_interface: ");
    push_decimal(&mut s, f.control_interface as u64);
    s.append(",\n    data_interface: ");
    push_decimal(&mut s, f.data_interface as u64);
    s.append(",\n    data_alt_setting: ");
    push_decimal(&mut s, f.data_alt_setting as u64);
    s.append(",\n    interrupt_in: ");
    let interrupt = match f.interrupt_in {
        Some(a) => {
            let mut t = "Some(\n        ".to_owned();
            push_decimal(&mut t, a as u64);
            t.append(",\n    )");
            t
        },
        None => "None".to_owned(),
    };
    s.append(interrupt.as_str());
    s.append(",\n    bulk_in: ");
    push_decimal(&mut s, f.bulk_in as u64);
    s.append(",\n    bulk_out: ");
    push_decimal(&mut s, f.bulk_out as u64);
    s.append(",\n    bulk_max_packet_size: ");
    push_decimal(&mut s, f.bulk_max_packet_size as u64);
    s.append(",\n}");
    s
}

fn failure(label: String, what: &str, e: &UsbError) -> (s: String)
    ensures
        s@ == label@ + what@ + e.text() + ")"@,
{
    let mut s = label;
    s.append(what);
    s.append(e.message().as_str());
    s.append(")");
    s
}

/// Say what there is to say of one device, and whether it has an RNDIS function.
fn push_device<B: UsbBackend>(bus: &mut Bus<'_, B>, out: &mut Vec<String>, info: &DeviceInfo) -> (r:
    (bool, Ghost<Sighting<B::Device>>))
    ensures
        final(bus).made_all(old(bus), look_calls::<B>(info.id, r.1@)),
        texts(final(out)@) == texts(old(out)@) + device_lines(*info, r.1@),
        r.0 == r.1@.function() is Some,
{
    let ghost start = texts(out@);
    let (read, Ghost(seen)) = look(bus, info.id);
    let configs = match read {
        Ok(Ok(configs)) => configs,
        Err(e) => {
            let line = failure(info.label(), ": cannot open (", &e);
            push_line(out, line);
            assert(texts(out@) =~= start + device_lines(*info, seen));
            return (false, Ghost(seen));
        },
        Ok(Err(e)) => {
            let line = failure(info.label(), ": cannot read configs (", &e);
            push_line(out, line);
            assert(texts(out@) =~= start + device_lines(*info, seen));
            return (false, Ghost(seen));
        },
    };
    match find_rndis(configs.as_slice()) {
        None => {
            assert(start =~= start + device_lines(*info, seen));
            (false, Ghost(seen))
        },
        Some(f) => {
            let mut head = "\n=== ".to_owned();
            head.append(info.label().as_str());
            head.append(" id=");
            head.append(info.id.to_text().as_str());
            head.append(" ===");
            push_line(out, head);
            push_configs(out, &configs);
            let text = describe_function(&f);
            push_line(out, text);
            assert(texts(out@) =~= start + device_lines(*info, seen));
            (true, Ghost(seen))
        },
    }
}

/// The descriptors of every attached device exposing an RNDIS function, line by
/// line. Claims nothing, so it is safe to run alongside a live session: devices are
/// listed, opened and read, and nothing else is asked of them.
pub fn scan<B: UsbBackend>(bus: &mut Bus<'_, B>) -> (r: UsbResult<Vec<String>>)
    ensures
        match r {
            Err(e) => final(bus).made(old(bus), Call::List(Err(e))),
            Ok(lines) => exists|list: Vec<DeviceInfo>, seen: Seq<Sighting<B::Device>>|
                {
                    &&& final(bus).made_all(old(bus), #[trigger] listed_calls::<B>(list, seen))
                    &&& seen.len() == list@.len()
                    &&& texts(lines@) == #[trigger] report_lines(list@, seen)
                },
        },
{
    let ghost start = *bus;
    let list = match bus.list() {
        Ok(list) => list,
        Err(e) => return Err(e),
    };
    let mut out: Vec<String> = Vec::new();
    let mut found = false;
    let ghost mut seen: Seq<Sighting<B::Device>> = Seq::empty();
    assert(texts(out@) =~= Seq::empty());
    assert(bus.log() =~= start.log() + listed_calls::<B>(list, seen));
    assert(bus.made_all(&start, listed_calls::<B>(list, seen)));
    for i in 0..list.len()
        invariant
            start == *old(bus),
            seen.len() == i,
            bus.made_all(&start, listed_calls::<B>(list, seen)),
            texts(out@) == devices_lines(list@, seen),
            found == any_found(seen),
    {
        let ghost before = *bus;
        let (matched, Ghost(sighting)) = push_device(bus, &mut out, &list[i]);
        proof {
            lemma_search_step(&start, &before, bus, list, seen, sighting);
            let now = seen.push(sighting);
            assert(now.drop_last() =~= seen);
            assert(now.last() == sighting);
            if any_found(seen) {
                let k = choose|k: int| 0 <= k < seen.len() && (#[trigger] seen[k]).function() is Some;
                assert(now[k] == seen[k]);
            }
            if matched {
                assert(now[i as int].function() is Some);
            }
            seen = now;
        }
        found = found || matched;
    }
    if !found {
        push_line(&mut out, "no RNDIS device found — enable USB tethering on the phone".to_owned());
    }
    assert(texts(out@) == report_lines(list@, seen));
    Ok(out)
}

/// What is said of a hotplug event.
pub open spec fn notice(event: HotplugEvent) -> Seq<char> {
    match event {
        HotplugEvent::Connected(info) => "\n+ connected: "@ + info@.label(),
        HotplugEvent::Disconnected(id) => "\n- disconnected: "@ + id.text(),
    }
}

/// What to say of a hotplug event, and whether to look at the devices again.
pub fn on_hotplug(event: &HotplugEvent) -> (r: (String, bool))
    ensures
        r.0@ == notice(*event),
        r.1 == (event is Connected),
{
    match event {
        HotplugEvent::Connected(info) => {
            let mut s = "\n+ connected: ".to_owned();
            s.append(info.label().as_str());
            (s, true)
        },
        HotplugEvent::Disconnected(id) => {
            let mut s = "\n- disconnected: ".to_owned();
            s.append(id.to_text().as_str());
            (s, false)
        },
    }
}

/// Every interface has its line and behind it one for each of its endpoints, wherever it
/// stands, and there are no other lines.
pub proof fn every_interface_is_described(
    first: Seq<InterfaceDescriptor>,
    i: InterfaceDescriptor,
    rest: Seq<InterfaceDescriptor>,
)
    ensures
        interface_lines(first.push(i) + rest) == interface_lines(first).push(interface_line(i))
            + endpoint_lines(i.endpoints@) + interface_lines(rest),
        endpoint_lines(i.endpoints@).len() == i.endpoints@.len(),
        forall|k: int|
            0 <= k < i.endpoints@.len() ==> #[trigger] endpoint_lines(i.endpoints@)[k]
                == endpoint_line(i.endpoints@[k]),
    decreases rest.len(),
{
    let all = first.push(i) + rest;
    let head = interface_lines(first).push(interface_line(i)) + endpoint_lines(i.endpoints@);
    if rest.len() == 0 {
        assert(all =~= first.push(i));
        assert(first.push(i).drop_last() =~= first);
        assert(head + interface_lines(rest) =~= head);
    } else {
        every_interface_is_described(first, i, rest.drop_last());
        assert(all.drop_last() =~= first.push(i) + rest.drop_last());
        assert(interface_lines(all) =~= head + interface_lines(rest));
    }
}

/// Every configuration has its line and behind it those of its interfaces, wherever it
/// stands, and there are no other lines.
pub proof fn every_configuration_is_described(
    first: Seq<ConfigDescriptor>,
    c: ConfigDescriptor,
    rest: Seq<ConfigDescriptor>,
)
    ensures
        config_lines(first.push(c) + rest) == config_lines(first).push(
            "  config "@ + decimal(c.value as nat),
        ) + interface_lines(c.interfaces@) + config_lines(rest),
    decreases rest.len(),
{
    let all = first.push(c) + rest;
    let head = config_lines(first).push("  config "@ + decimal(c.value as nat)) + interface_lines(
        c.interfaces@,
    );
    if rest.len() == 0 {
        assert(all =~= first.push(c));
        assert(first.push(c).drop_last() =~= first);
        assert(head + config_lines(rest) =~= head);
    } else {
        every_configuration_is_described(first, c, rest.drop_last());
        assert(all.drop_last() =~= first.push(c) + rest.drop_last());
        assert(config_lines(all) =~= head + config_lines(rest));
    }
}

/// Every device that was looked at is spoken of in its turn, and what is said of the
/// others does not depend on it.
pub proof fn every_device_is_spoken_of<D>(
    list: Seq<DeviceInfo>,
    first: Seq<Sighting<D>>,
    s: Sighting<D>,
    rest: Seq<Sighting<D>>,
)
    requires
        first.len() + 1 + rest.len() <= list.len(),
    ensures
        devices_lines(list, first.push(s) + rest) == devices_lines(list, first) + device_lines(
            list[first.len() as int],
            s,
        ) + devices_lines(list.skip(first.len() as int + 1), rest),
    decreases rest.len(),
{
    let all = first.push(s) + rest;
    let n = first.len() as int;
    let head = devices_lines(list, first) + device_lines(list[n], s);
    if rest.len() == 0 {
        assert(all =~= first.push(s));
        assert(first.push(s).drop_last() =~= first);
        assert(head + devices_lines(list.skip(n + 1), rest) =~= head);
    } else {
        let init = rest.drop_last();
        every_device_is_spoken_of(list, first, s, init);
        assert(all.drop_last() =~= first.push(s) + init);
        assert(list.skip(n + 1)[rest.len() - 1] == list[all.len() - 1]);
        assert(devices_lines(list, all) =~= head + devices_lines(list.skip(n + 1), rest));
    }
}

/// The notice that nothing was found stands there exactly if no device that was looked
/// at offers a function, and then it is the last line.
pub proof fn finding_nothing_is_said<D>(list: Seq<DeviceInfo>, seen: Seq<Sighting<D>>)
    ensures
        ({
            let lines = report_lines(list, seen);
            let said = devices_lines(list, seen);
            if forall|i: int| 0 <= i < seen.len() ==> (#[trigger] seen[i]).function() is None {
                &&& lines.len() == said.len() + 1
                &&& lines.take(said.len() as int) == said
                &&& lines.last() == "no RNDIS device found — enable USB tethering on the phone"@
            } else {
                lines == said
            }
        }),
{
    let said = devices_lines(list, seen);
    assert(report_lines(list, seen).take(said.len() as int) =~= said);
}

/// What is said of one device: why it could not be opened or read, or, if it offers a
/// function, a heading, all of its configurations and the function; one without a
/// function is passed over.
pub proof fn devices_are_spoken_of_as_they_were_seen<D>(
    info: DeviceInfo,
    d: D,
    e: UsbError,
    configs: Vec<ConfigDescriptor>,
)
    ensures
        device_lines(info, Sighting::<D>::Unopened(e)) == seq![
            info@.label() + ": cannot open ("@ + e.text() + ")"@,
        ],
        device_lines(info, Sighting::Unread(d, e)) == seq![
            info@.label() + ": cannot read configs ("@ + e.text() + ")"@,
        ],
        ({
            let lines = device_lines(info, Sighting::Read(d, configs));
            let all = config_lines(configs@);
            match found_from(configs@, 0) {
                None => lines.len() == 0,
                Some(f) => {
                    &&& lines.len() == all.len() + 2
                    &&& lines[0] == "\n=== "@ + info@.label() + " id="@ + info.id.text() + " ==="@
                    &&& lines.subrange(1, 1 + all.len() as int) == all
                    &&& lines.last() == function_text(f)
                },
            }
        }),
{
    let lines = device_lines(info, Sighting::Read(d, configs));
    let all = config_lines(configs@);
    if found_from(configs@, 0) is Some {
        assert(lines.subrange(1, 1 + all.len() as int) =~= all);
    }
}

/// An endpoint's line shows its address, what it is for and how much it takes.
pub proof fn endpoints_are_described(e: EndpointDescriptor)
    ensures
        endpoint_line(e) == "      ep 0x"@ + hex_padded(e.address as nat, 2) + " "@ + (
        match e.transfer_type {
            TransferType::Control => "Control"@,
            TransferType::Isochronous => "Isochronous"@,
            TransferType::Bulk => "Bulk"@,
            TransferType::Interrupt => "Interrupt"@,
        }) + " "@ + (if e.address >= 128 {
            "In"@
        } else {
            "Out"@
        }) + " mps "@ + decimal(e.max_packet_size as nat),
{
}

/// A device that came is named by its label, and one that went by its handle.
pub proof fn comings_and_goings_are_said(info: DeviceInfo, id: DeviceId)
    ensures
        notice(HotplugEvent::Connected(info)) == "\n+ connected: "@ + info@.label(),
        notice(HotplugEvent::Disconnected(id)) == "\n- disconnected: "@ + id.text(),
{
}

/// An interface's line shows its number, its alternate setting and what it is.
pub proof fn interfaces_are_described(i: InterfaceDescriptor)
    ensures
        interface_line(i) == "    iface "@ + decimal(i.number as nat) + "."@ + decimal(
            i.alt_setting as nat,
        ) + " class "@ + hex_padded(i.class as nat, 2) + "/"@ + hex_padded(i.subclass as nat, 2)
            + "/"@ + hex_padded(i.protocol as nat, 2),
{
}

/// A function's text shows each of its fields under its name.
pub proof fn functions_are_described(f: RndisFunction)
    ensures
        function_text(f) == "  RNDIS: RndisFunction {\n    config_value: "@ + decimal(
            f.config_value as nat,
        ) + ",\n    control_interface: "@ + decimal(f.control_interface as nat)
            + ",\n    data_interface: "@ + decimal(f.data_interface as nat)
            + ",\n    data_alt_setting: "@ + decimal(f.data_alt_setting as nat)
            + ",\n    interrupt_in: "@ + (match f.interrupt_in {
            Some(a) => "Some(\n        "@ + decimal(a as nat) + ",\n    )"@,
            None => "None"@,
        }) + ",\n    bulk_in: "@ + decimal(f.bulk_in as nat) + ",\n    bulk_out: "@ + decimal(
            f.bulk_out as nat,
        ) + ",\n    bulk_max_packet_size: "@ + decimal(f.bulk_max_packet_size as nat) + ",\n}"@,
{
}

} // verus!
