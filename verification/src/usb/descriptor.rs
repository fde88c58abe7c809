//! Owned, backend-independent USB descriptor snapshots.

use vstd::prelude::*;
use vstd::string::*;

use crate::text::{
    clone_text, hex, hex_padded, numbers_read_back, padded_hexadecimal_reads_back, push_hex,
    push_hex_padded, text_of, value_of,
};

verus! {

/// Stable handle for one attached device, used to correlate hotplug events.
#[derive(Clone, Copy, Debug, PartialEq, Eq, PartialOrd, Ord, Hash, Structural)]
pub struct DeviceId(pub u64);

impl DeviceId {
    pub open spec fn text(self) -> Seq<char> {
        "0x"@ + hex(self.0 as nat)
    }

    /// The handle in hexadecimal.
    pub fn to_text(&self) -> (s: String)
        ensures
            s@ == self.text(),
    {
        let mut s = "0x".to_owned();
        push_hex(&mut s, self.0);
        s
    }
}

#[derive(Debug)]
pub struct DeviceInfo {
    pub id: DeviceId,
    pub vendor_id: u16,
    pub product_id: u16,
    pub manufacturer: Option<String>,
    pub product: Option<String>,
    pub serial: Option<String>,
}

/// A device's identity as plain values.
#[verifier::ext_equal]
pub struct DeviceInfoView {
    pub id: DeviceId,
    pub vendor_id: u16,
    pub product_id: u16,
    pub manufacturer: Option<Seq<char>>,
    pub product: Option<Seq<char>>,
    pub serial: Option<Seq<char>>,
}

impl View for DeviceInfo {
    type V = DeviceInfoView;

    open spec fn view(&self) -> DeviceInfoView {
        DeviceInfoView {
            id: self.id,
            vendor_id: self.vendor_id,
            product_id: self.product_id,
            manufacturer: text_of(self.manufacturer),
            product: text_of(self.product),
            serial: text_of(self.serial),
        }
    }
}

impl Clone for DeviceInfo {
    fn clone(&self) -> (r: Self)
        ensures
            r@ == self@,
    {
        DeviceInfo {
            id: self.id,
            vendor_id: self.vendor_id,
            product_id: self.product_id,
            manufacturer: clone_text(&self.manufacturer),
            product: clone_text(&self.product),
            serial: clone_text(&self.serial),
        }
    }
}

impl DeviceInfoView {
    /// The best name the device gives itself.
    pub open spec fn name(self) -> Seq<char> {
        match (self.manufacturer, self.product) {
            (Some(m), Some(p)) => m + " "@ + p,
            (None, Some(p)) => p,
            (Some(m), None) => m,
            (None, None) => "unknown device"@,
        }
    }

    /// `Vendor Product (vid:pid)`.
    pub open spec fn label(self) -> Seq<char> {
        self.name() + " ("@ + hex_padded(self.vendor_id as nat, 4) + ":"@ + hex_padded(
            self.product_id as nat,
            4,
        ) + ")"@
    }
}

impl DeviceInfo {
    /// `Vendor Product (vid:pid)`, for logs.
    pub fn label(&self) -> (s: String)
        ensures
            s@ == self@.label(),
    {
        let mut s = match (&self.manufacturer, &self.product) {
            (Some(m), Some(p)) => {
                let mut s = m.clone();
                s.append(" ");
                s.append(p.as_str());
                s
            },
            (None, Some(p)) => p.clone(),
            (Some(m), None) => m.clone(),
            (None, None) => "unknown device".to_owned(),
        };
        s.append(" (");
        push_hex_padded(&mut s, self.vendor_id as u32, 4);
        s.append(":");
        push_hex_padded(&mut s, self.product_id as u32, 4);
        s.append(")");
        assert(s@ =~= self@.label());
        s
    }
}

#[derive(Clone, Copy, PartialEq, Eq, Debug, Structural)]
pub enum TransferType {
    Control,
    Isochronous,
    Bulk,
    Interrupt,
}

#[derive(Clone, Copy, PartialEq, Eq, Debug, Structural)]
pub enum Direction {
    In,
    Out,
}

#[derive(Clone, Copy, Debug)]
pub struct EndpointDescriptor {
    pub address: u8,
    pub transfer_type: TransferType,
    pub max_packet_size: u16,
}

/// The direction an endpoint address stands for: its top bit.
pub open spec fn direction_of(address: u8) -> Direction {
    if address >= 0x80 {
        Direction::In
    } else {
        Direction::Out
    }
}

impl EndpointDescriptor {
    pub fn direction(&self) -> (r: Direction)
        ensures
            r == direction_of(self.address),
    {
        let address: u8 = self.address;
        assert((address & 0x80 != 0) == (address >= 0x80)) by (bit_vector);
        if address & 0x80 != 0 {
            Direction::In
        } else {
            Direction::Out
        }
    }

    /// Whether this is an endpoint of the given kind.
    pub open spec fn is(self, ty: TransferType, dir: Direction) -> bool {
        self.transfer_type == ty && direction_of(self.address) == dir
    }
}

#[derive(Clone, Debug)]
pub struct InterfaceDescriptor {
    pub number: u8,
    pub alt_setting: u8,
    pub class: u8,
    pub subclass: u8,
    pub protocol: u8,
    pub endpoints: Vec<EndpointDescriptor>,
    /// Class-specific descriptors trailing this interface, e.g. the CDC
    /// functional descriptors that name the paired data interface.
    pub extra: Vec<u8>,
}

/// The first endpoint of the given kind from `from` on.
pub open spec fn first_endpoint(
    es: Seq<EndpointDescriptor>,
    from: int,
    ty: TransferType,
    dir: Direction,
) -> Option<EndpointDescriptor>
    decreases es.len() - from,
{
    if from < 0 || from >= es.len() {
        None
    } else if es[from].is(ty, dir) {
        Some(es[from])
    } else {
        first_endpoint(es, from + 1, ty, dir)
    }
}

impl InterfaceDescriptor {
    /// The first endpoint of the given kind.
    pub open spec fn first(self, ty: TransferType, dir: Direction) -> Option<EndpointDescriptor> {
        first_endpoint(self.endpoints@, 0, ty, dir)
    }

    pub fn endpoint(&self, ty: TransferType, dir: Direction) -> (r: Option<&EndpointDescriptor>)
        ensures
            match r {
                Some(e) => self.first(ty, dir) == Some(*e),
                None => self.first(ty, dir) is None,
            },
    {
        for i in 0..self.endpoints.len()
            invariant
                self.first(ty, dir) == first_endpoint(self.endpoints@, i as int, ty, dir),
        {
            let e = &self.endpoints[i];
            if e.transfer_type == ty && e.direction() == dir {
                return Some(e);
            }
        }
        None
    }
}

#[derive(Clone, Debug)]
pub struct ConfigDescriptor {
    pub value: u8,
    pub interfaces: Vec<InterfaceDescriptor>,
}

/// The endpoint found is of the kind asked for, and nothing in front of it is.
pub proof fn found_endpoint_is_the_first(
    es: Seq<EndpointDescriptor>,
    ty: TransferType,
    dir: Direction,
    from: int,
)
    requires
        0 <= from,
    ensures
        match first_endpoint(es, from, ty, dir) {
            Some(e) => exists|i: int|
                from <= i < es.len() && es[i] == e && es[i].is(ty, dir) && (forall|j: int|
                    from <= j < i ==> !(#[trigger] es[j]).is(ty, dir)),
            None => forall|j: int| from <= j < es.len() ==> !(#[trigger] es[j]).is(ty, dir),
        },
    decreases es.len() - from,
{
    if from < es.len() && !es[from].is(ty, dir) {
        found_endpoint_is_the_first(es, ty, dir, from + 1);
        if let Some(e) = first_endpoint(es, from, ty, dir) {
            let i = choose|i: int|
                from + 1 <= i < es.len() && es[i] == e && es[i].is(ty, dir) && (forall|j: int|
                    from + 1 <= j < i ==> !(#[trigger] es[j]).is(ty, dir));
            assert(from <= i < es.len() && es[i] == e);
        }
    }
}

/// A label is the best name the device gives itself, and its two ids as four
/// hexadecimal digits each, which read back as the ids.
pub proof fn labels_name_the_device(d: DeviceInfoView)
    ensures
        ({
            let l = d.label();
            let n = l.len() as int;
            &&& n >= 12
            &&& l[n - 12] == ' ' && l[n - 11] == '(' && l[n - 6] == ':' && l[n - 1] == ')'
            &&& value_of(l.subrange(n - 10, n - 6), 16) == d.vendor_id
            &&& value_of(l.subrange(n - 5, n - 1), 16) == d.product_id
            &&& match (d.manufacturer, d.product) {
                (Some(m), Some(p)) => l.take(n - 12) == m.push(' ') + p,
                (None, Some(p)) => l.take(n - 12) == p,
                (Some(m), None) => l.take(n - 12) == m,
                (None, None) => l.take(n - 12) == "unknown device"@,
            }
        }),
{
    let l = d.label();
    let n = l.len() as int;
    let vendor = hex_padded(d.vendor_id as nat, 4);
    let product = hex_padded(d.product_id as nat, 4);
    reveal_strlit(" (");
    reveal_strlit(":");
    reveal_strlit(")");
    reveal_strlit(" ");
    padded_hexadecimal_reads_back(d.vendor_id as nat, 4);
    padded_hexadecimal_reads_back(d.product_id as nat, 4);
    assert(vstd::arithmetic::power::pow(16, 4) == 65536) by {
        reveal(vstd::arithmetic::power::pow);
        reveal_with_fuel(vstd::arithmetic::power::pow, 5);
    }
    assert(l.subrange(n - 10, n - 6) =~= vendor);
    assert(l.subrange(n - 5, n - 1) =~= product);
    assert(l.take(n - 12) =~= d.name());
    if let (Some(m), Some(p)) = (d.manufacturer, d.product) {
        assert(m + " "@ + p =~= m.push(' ') + p);
    }
}

/// A handle in text is `0x` and hexadecimal digits that read back as it.
pub proof fn handles_read_back(id: DeviceId)
    ensures
        id.text().take(2) == seq!['0', 'x'],
        value_of(id.text().skip(2), 16) == id.0,
{
    reveal_strlit("0x");
    numbers_read_back(id.0 as nat);
    assert(id.text().take(2) =~= seq!['0', 'x']);
    assert(id.text().skip(2) =~= hex(id.0 as nat));
}

/// What is said of a device is what stands in it.
pub proof fn devices_show_all_they_hold(d: DeviceInfo)
    ensures
        d@.id == d.id,
        d@.vendor_id == d.vendor_id,
        d@.product_id == d.product_id,
        d@.manufacturer == text_of(d.manufacturer),
        d@.product == text_of(d.product),
        d@.serial == text_of(d.serial),
{
}

} // verus!
