//! Locating the RNDIS function in a device's descriptors.
//!
//! Matching is by interface descriptor, never VID/PID, so it works across phone
//! vendors. The control/data pairing follows the CDC Union functional
//! descriptor when present, as Linux's `cdc_parse_cdc_header` does.

use vstd::prelude::*;

use crate::usb::descriptor::{
    direction_of, found_endpoint_is_the_first, ConfigDescriptor, Direction,
    InterfaceDescriptor, TransferType,
};

verus! {

/// CDC class-specific interface descriptor type (`CS_INTERFACE`).
pub const CS_INTERFACE: u8 = 0x24;

/// `bDescriptorSubtype` of the Union functional descriptor.
pub const CDC_UNION: u8 = 0x06;

/// CDC Data interface class.
pub const CLASS_CDC_DATA: u8 = 0x0A;

/// Everything needed to drive one RNDIS function.
#[derive(Clone, Copy, Debug, PartialEq, Eq)]
pub struct RndisFunction {
    pub config_value: u8,
    pub control_interface: u8,
    pub data_interface: u8,
    pub data_alt_setting: u8,
    /// Carries RESPONSE_AVAILABLE notifications. Absent on devices that omit
    /// the status endpoint; the control layer then polls instead.
    pub interrupt_in: Option<u8>,
    pub bulk_in: u8,
    pub bulk_out: u8,
    pub bulk_max_packet_size: u16,
}

/// Interface signatures that identify an RNDIS control interface, matching the
/// `id_table` of Linux `rndis_host.c`: wireless controller / RNDIS, which is what
/// Android's gadget advertises, and communications / ACM / vendor-specific,
/// Microsoft's original encoding.
pub open spec fn has_control_signature(i: InterfaceDescriptor) -> bool {
    ||| i.class == 0xE0 && i.subclass == 0x01 && i.protocol == 0x03
    ||| i.class == 0x02 && i.subclass == 0x02 && i.protocol == 0xFF
}

pub fn is_control_signature(i: &InterfaceDescriptor) -> (r: bool)
    ensures
        r == has_control_signature(*i),
{
    (i.class == 0xE0 && i.subclass == 0x01 && i.protocol == 0x03) || (i.class == 0x02 && i.subclass
        == 0x02 && i.protocol == 0xFF)
}

/// The subordinate interface named by the first Union descriptor from `at` on.
/// Descriptors are chained by their lengths; one that is shorter than its own
/// header or longer than what is left ends the chain.
pub open spec fn union_from(extra: Seq<u8>, at: int) -> Option<u8>
    decreases extra.len() - at,
{
    if at < 0 || at >= extra.len() || extra[at] < 2 || at + extra[at] > extra.len() {
        None
    } else if extra[at] >= 5 && extra[at + 1] == CS_INTERFACE && extra[at + 2] == CDC_UNION {
        Some(extra[at + 4])
    } else {
        union_from(extra, at + extra[at])
    }
}

/// `bSubordinateInterface0` of the CDC Union functional descriptor.
pub fn union_subordinate(extra: &[u8]) -> (r: Option<u8>)
    ensures
        r == union_from(extra@, 0),
{
    let mut at: usize = 0;
    while at < extra.len()
        invariant
            at <= extra@.len(),
            union_from(extra@, 0) == union_from(extra@, at as int),
        decreases extra@.len() - at,
    {
        let len: usize = extra[at] as usize;
        // A zero or truncated length would not advance; stop rather than spin.
        if len < 2 || len > extra.len() - at {
            return None;
        }
        if len >= 5 && extra[at + 1] == CS_INTERFACE && extra[at + 2] == CDC_UNION {
            return Some(extra[at + 4]);
        }
        at = at + len;
    }
    None
}

/// The data interface that belongs to a control interface: the one its Union
/// descriptor names, else the one numbered next.
pub open spec fn data_number(control: InterfaceDescriptor) -> u8 {
    match union_from(control.extra@, 0) {
        Some(n) => n,
        None => if control.number == 255 {
            0
        } else {
            (control.number + 1) as u8
        },
    }
}

/// Whether `i` is an alt setting of data interface `number` that exposes a bulk
/// pair.
pub open spec fn carries_data(i: InterfaceDescriptor, number: u8) -> bool {
    &&& i.number == number
    &&& i.class == CLASS_CDC_DATA
    &&& i.first(TransferType::Bulk, Direction::In) is Some
    &&& i.first(TransferType::Bulk, Direction::Out) is Some
}

/// The first such alt setting from `from` on.
pub open spec fn first_data(
    interfaces: Seq<InterfaceDescriptor>,
    number: u8,
    from: int,
) -> Option<InterfaceDescriptor>
    decreases interfaces.len() - from,
{
    if from < 0 || from >= interfaces.len() {
        None
    } else if carries_data(interfaces[from], number) {
        Some(interfaces[from])
    } else {
        first_data(interfaces, number, from + 1)
    }
}

/// The function that `control` and `data` make up.
pub open spec fn function_of(
    config: ConfigDescriptor,
    control: InterfaceDescriptor,
    data: InterfaceDescriptor,
) -> RndisFunction {
    let bulk_in = data.first(TransferType::Bulk, Direction::In)->0;
    let bulk_out = data.first(TransferType::Bulk, Direction::Out)->0;
    RndisFunction {
        config_value: config.value,
        control_interface: control.number,
        data_interface: data.number,
        data_alt_setting: data.alt_setting,
        interrupt_in: match control.first(TransferType::Interrupt, Direction::In) {
            Some(e) => Some(e.address),
            None => None,
        },
        bulk_in: bulk_in.address,
        bulk_out: bulk_out.address,
        bulk_max_packet_size: if bulk_in.max_packet_size >= bulk_out.max_packet_size {
            bulk_in.max_packet_size
        } else {
            bulk_out.max_packet_size
        },
    }
}

/// The function behind a control interface, if its data interface can be used.
pub open spec fn function_at(
    config: ConfigDescriptor,
    control: InterfaceDescriptor,
) -> Option<RndisFunction> {
    match first_data(config.interfaces@, data_number(control), 0) {
        Some(data) => Some(function_of(config, control, data)),
        None => None,
    }
}

pub fn build(config: &ConfigDescriptor, control: &InterfaceDescriptor) -> (r: Option<RndisFunction>)
    ensures
        r == function_at(*config, *control),
{
    let number: u8 = match union_subordinate(control.extra.as_slice()) {
        Some(n) => n,
        None => control.number.wrapping_add(1),
    };
    // Pick the alt setting that actually exposes the bulk pair; RNDIS normally
    // uses alt 0, but tolerate gadgets that hide the endpoints behind alt 1.
    for i in 0..config.interfaces.len()
        invariant
            number == data_number(*control),
            first_data(config.interfaces@, number, 0) == first_data(
                config.interfaces@,
                number,
                i as int,
            ),
    {
        let data = &config.interfaces[i];
        if data.number == number && data.class == CLASS_CDC_DATA {
            let bulk_in = data.endpoint(TransferType::Bulk, Direction::In);
            let bulk_out = data.endpoint(TransferType::Bulk, Direction::Out);
            if let (Some(bulk_in), Some(bulk_out)) = (bulk_in, bulk_out) {
                return Some(
                    RndisFunction {
                        config_value: config.value,
                        control_interface: control.number,
                        data_interface: data.number,
                        data_alt_setting: data.alt_setting,
                        interrupt_in: match control.endpoint(
                            TransferType::Interrupt,
                            Direction::In,
                        ) {
                            Some(e) => Some(e.address),
                            None => None,
                        },
                        bulk_in: bulk_in.address,
                        bulk_out: bulk_out.address,
                        bulk_max_packet_size: if bulk_in.max_packet_size
                            >= bulk_out.max_packet_size {
                            bulk_in.max_packet_size
                        } else {
                            bulk_out.max_packet_size
                        },
                    },
                );
            }
        }
    }
    None
}

/// The function behind interface `i`, if that is the default setting of an RNDIS
/// control interface.
pub open spec fn function_behind(config: ConfigDescriptor, i: InterfaceDescriptor) -> Option<
    RndisFunction,
> {
    if i.alt_setting == 0 && has_control_signature(i) {
        function_at(config, i)
    } else {
        None
    }
}

/// The first function from interface `from` on.
pub open spec fn function_from(config: ConfigDescriptor, from: int) -> Option<RndisFunction>
    decreases config.interfaces@.len() - from,
{
    if from < 0 || from >= config.interfaces@.len() {
        None
    } else {
        match function_behind(config, config.interfaces@[from]) {
            Some(f) => Some(f),
            None => function_from(config, from + 1),
        }
    }
}

pub fn find_rndis_in_config(config: &ConfigDescriptor) -> (r: Option<RndisFunction>)
    ensures
        r == function_from(*config, 0),
        is_first_function(*config, r),
{
    proof {
        no_interface_is_overlooked(*config);
    }
    for i in 0..config.interfaces.len()
        invariant
            function_from(*config, 0) == function_from(*config, i as int),
            is_first_function(*config, function_from(*config, 0)),
    {
        let control = &config.interfaces[i];
        if control.alt_setting == 0 && is_control_signature(control) {
            if let Some(f) = build(config, control) {
                return Some(f);
            }
        }
    }
    None
}

/// The first function from configuration `from` on.
pub open spec fn found_from(configs: Seq<ConfigDescriptor>, from: int) -> Option<RndisFunction>
    decreases configs.len() - from,
{
    if from < 0 || from >= configs.len() {
        None
    } else {
        match function_from(configs[from], 0) {
            Some(f) => Some(f),
            None => found_from(configs, from + 1),
        }
    }
}

/// Find the first RNDIS function across all configurations.
pub fn find_rndis(configs: &[ConfigDescriptor]) -> (r: Option<RndisFunction>)
    ensures
        r == found_from(configs@, 0),
        is_first_in_any(configs@, r),
{
    proof {
        no_configuration_is_overlooked(configs@);
    }
    for i in 0..configs.len()
        invariant
            found_from(configs@, 0) == found_from(configs@, i as int),
            is_first_in_any(configs@, found_from(configs@, 0)),
    {
        if let Some(f) = find_rndis_in_config(&configs[i]) {
            return Some(f);
        }
    }
    None
}

/// What is found is the function of the first configuration that has one.
pub proof fn first_configuration_wins(configs: Seq<ConfigDescriptor>, from: int)
    requires
        0 <= from,
    ensures
        match found_from(configs, from) {
            Some(f) => exists|k: int|
                from <= k < configs.len() && #[trigger] function_from(configs[k], 0) == Some(f) && (
                forall|j: int|
                    from <= j < k ==> #[trigger] function_from(configs[j], 0) is None),
            None => forall|j: int|
                from <= j < configs.len() ==> #[trigger] function_from(configs[j], 0) is None,
        },
    decreases configs.len() - from,
{
    if from < configs.len() && function_from(configs[from], 0) is None {
        first_configuration_wins(configs, from + 1);
        if let Some(f) = found_from(configs, from) {
            let k = choose|k: int|
                from + 1 <= k < configs.len() && #[trigger] function_from(configs[k], 0) == Some(f)
                    && (forall|j: int|
                    from + 1 <= j < k ==> #[trigger] function_from(configs[j], 0) is None);
            assert(function_from(configs[k], 0) == Some(f));
        }
    }
}

/// A function found in a configuration belongs to a control interface with one of
/// the two signatures, and its data interface is the one that interface's Union
/// descriptor names, or the next one where there is no such descriptor.
pub proof fn pairing_follows_the_union_descriptor(config: ConfigDescriptor, from: int)
    requires
        0 <= from,
        function_from(config, from) is Some,
    ensures
        ({
            let f = function_from(config, from)->0;
            exists|i: int|
                from <= i < config.interfaces@.len() && #[trigger] has_control_signature(
                    config.interfaces@[i],
                ) && config.interfaces@[i].alt_setting == 0 && f.control_interface
                    == config.interfaces@[i].number && f.data_interface == data_number(
                    config.interfaces@[i],
                )
        }),
    decreases config.interfaces@.len() - from,
{
    let i = config.interfaces@[from];
    if function_behind(config, i) is Some {
        lemma_first_data(config.interfaces@, data_number(i), 0);
        assert(has_control_signature(config.interfaces@[from]));
    } else {
        pairing_follows_the_union_descriptor(config, from + 1);
        let f = function_from(config, from)->0;
        let k = choose|i: int|
            from + 1 <= i < config.interfaces@.len() && #[trigger] has_control_signature(
                config.interfaces@[i],
            ) && config.interfaces@[i].alt_setting == 0 && f.control_interface
                == config.interfaces@[i].number && f.data_interface == data_number(
                config.interfaces@[i],
            );
        assert(has_control_signature(config.interfaces@[k]));
    }
}

/// The endpoints of a function carry data in the direction they are named for.
pub proof fn endpoints_face_the_right_way(config: ConfigDescriptor, control: InterfaceDescriptor)
    requires
        function_at(config, control) is Some,
    ensures
        ({
            let f = function_at(config, control)->0;
            &&& direction_of(f.bulk_in) == Direction::In
            &&& direction_of(f.bulk_out) == Direction::Out
            &&& f.bulk_in != f.bulk_out
            &&& f.interrupt_in is Some ==> direction_of(f.interrupt_in->0) == Direction::In
        }),
{
    let data = first_data(config.interfaces@, data_number(control), 0)->0;
    lemma_first_data(config.interfaces@, data_number(control), 0);
    found_endpoint_is_the_first(data.endpoints@, TransferType::Bulk, Direction::In, 0);
    found_endpoint_is_the_first(data.endpoints@, TransferType::Bulk, Direction::Out, 0);
    found_endpoint_is_the_first(control.endpoints@, TransferType::Interrupt, Direction::In, 0);
}

proof fn lemma_first_data(interfaces: Seq<InterfaceDescriptor>, number: u8, from: int)
    requires
        first_data(interfaces, number, from) is Some,
    ensures
        carries_data(first_data(interfaces, number, from)->0, number),
    decreases interfaces.len() - from,
{
    if !carries_data(interfaces[from], number) {
        lemma_first_data(interfaces, number, from + 1);
    }
}

/// Whether endpoint `k` of an interface is of this kind. The top bit of an address tells
/// an endpoint that the host reads from.
pub open spec fn endpoint_is(i: InterfaceDescriptor, k: int, ty: TransferType, inward: bool) -> bool {
    &&& 0 <= k < i.endpoints@.len()
    &&& i.endpoints@[k].transfer_type == ty
    &&& (i.endpoints@[k].address >= 128) == inward
}

/// Whether endpoint `k` is the first of its kind.
pub open spec fn endpoint_is_first(
    i: InterfaceDescriptor,
    k: int,
    ty: TransferType,
    inward: bool,
) -> bool {
    &&& endpoint_is(i, k, ty, inward)
    &&& forall|j: int| 0 <= j < k ==> !#[trigger] endpoint_is(i, j, ty, inward)
}

/// Whether interface `c` controls an RNDIS function whose data goes through interface
/// `d`: the default setting of a wireless RNDIS controller or of a vendor-specific modem,
/// and the CDC data interface that belongs to it, with bulk endpoints both ways.
pub open spec fn pairs_up(config: ConfigDescriptor, c: int, d: int) -> bool {
    let control = config.interfaces@[c];
    let data = config.interfaces@[d];
    &&& 0 <= c < config.interfaces@.len()
    &&& 0 <= d < config.interfaces@.len()
    &&& control.alt_setting == 0
    &&& {
        ||| control.class == 224 && control.subclass == 1 && control.protocol == 3
        ||| control.class == 2 && control.subclass == 2 && control.protocol == 255
    }
    &&& data.number == data_number(control)
    &&& data.class == 10
    &&& exists|k: int| endpoint_is(data, k, TransferType::Bulk, true)
    &&& exists|k: int| endpoint_is(data, k, TransferType::Bulk, false)
}

/// Whether `f` names interfaces `c` and `d` and their first endpoints of each kind.
pub open spec fn names_the_pair(config: ConfigDescriptor, c: int, d: int, f: RndisFunction) -> bool {
    let control = config.interfaces@[c];
    let data = config.interfaces@[d];
    &&& f.config_value == config.value
    &&& f.control_interface == control.number
    &&& f.data_interface == data.number
    &&& f.data_alt_setting == data.alt_setting
    &&& match f.interrupt_in {
        Some(address) => exists|k: int| #[trigger]
            endpoint_is_first(control, k, TransferType::Interrupt, true)
                && control.endpoints@[k].address == address,
        None => forall|k: int| !#[trigger] endpoint_is(control, k, TransferType::Interrupt, true),
    }
    &&& exists|a: int, b: int|
        {
            let bulk_in = data.endpoints@[a];
            let bulk_out = data.endpoints@[b];
            &&& #[trigger] endpoint_is_first(data, a, TransferType::Bulk, true)
            &&& #[trigger] endpoint_is_first(data, b, TransferType::Bulk, false)
            &&& f.bulk_in == bulk_in.address
            &&& f.bulk_out == bulk_out.address
            &&& f.bulk_max_packet_size >= bulk_in.max_packet_size
            &&& f.bulk_max_packet_size >= bulk_out.max_packet_size
            &&& f.bulk_max_packet_size == bulk_in.max_packet_size || f.bulk_max_packet_size
                == bulk_out.max_packet_size
        }
}

/// Whether `r` is what a configuration offers: nothing only if no two of its interfaces
/// pair up, and otherwise the first control interface that has a data interface, with the
/// first of those.
pub open spec fn is_first_function(config: ConfigDescriptor, r: Option<RndisFunction>) -> bool {
    match r {
        None => forall|c: int, d: int| !#[trigger] pairs_up(config, c, d),
        Some(f) => exists|c: int, d: int|
            {
                &&& #[trigger] pairs_up(config, c, d)
                &&& names_the_pair(config, c, d, f)
                &&& forall|c2: int, d2: int| #[trigger]
                    pairs_up(config, c2, d2) ==> c < c2 || (c == c2 && d <= d2)
            },
    }
}

/// Whether `r` is what a device offers: what its first configuration offers that offers
/// anything.
pub open spec fn is_first_in_any(configs: Seq<ConfigDescriptor>, r: Option<RndisFunction>) -> bool {
    match r {
        Some(f) => exists|k: int|
            0 <= k < configs.len() && is_first_function(#[trigger] configs[k], Some(f))
                && forall|j: int| 0 <= j < k ==> is_first_function(#[trigger] configs[j], None),
        None => forall|j: int|
            0 <= j < configs.len() ==> is_first_function(#[trigger] configs[j], None),
    }
}

/// Every interface of a configuration is looked at, wherever it stands: nothing is found
/// only if no two interfaces pair up, and what is found are the first that do.
pub proof fn no_interface_is_overlooked(config: ConfigDescriptor)
    ensures
        is_first_function(config, function_from(config, 0)),
{
    lemma_function_from(config, 0);
    let interfaces = config.interfaces@;
    match function_from(config, 0) {
        None => {
            assert forall|c: int, d: int| !#[trigger] pairs_up(config, c, d) by {
                if pairs_up(config, c, d) {
                    lemma_pair_is_behind(config, c, d);
                }
            }
        },
        Some(f) => {
            let c = choose|c: int|
                0 <= c < interfaces.len() && function_behind(config, #[trigger] interfaces[c])
                    == Some(f) && (forall|j: int|
                    0 <= j < c ==> function_behind(config, #[trigger] interfaces[j]) is None);
            let control = interfaces[c];
            lemma_data_is_first(interfaces, data_number(control), 0);
            let data = first_data(interfaces, data_number(control), 0)->0;
            let d = choose|d: int|
                0 <= d < interfaces.len() && #[trigger] interfaces[d] == data && carries_data(
                    interfaces[d],
                    data_number(control),
                ) && (forall|j: int|
                    0 <= j < d ==> !carries_data(#[trigger] interfaces[j], data_number(control)));
            lemma_endpoint(data, TransferType::Bulk, Direction::In, true);
            lemma_endpoint(data, TransferType::Bulk, Direction::Out, false);
            lemma_endpoint(control, TransferType::Interrupt, Direction::In, true);
            assert(pairs_up(config, c, d));
            assert(names_the_pair(config, c, d, f));
            assert forall|c2: int, d2: int| #[trigger] pairs_up(config, c2, d2) implies c < c2 || (
            c == c2 && d <= d2) by {
                lemma_pair_is_behind(config, c2, d2);
                if c2 < c {
                    assert(function_behind(config, interfaces[c2]) is None);
                } else if c2 == c && d2 < d {
                    assert(!carries_data(interfaces[d2], data_number(control)));
                }
            }
        },
    }
}

/// Every configuration is looked at: what is found is what the first one offers that
/// offers anything.
pub proof fn no_configuration_is_overlooked(configs: Seq<ConfigDescriptor>)
    ensures
        is_first_in_any(configs, found_from(configs, 0)),
{
    first_configuration_wins(configs, 0);
    assert forall|j: int| 0 <= j < configs.len() implies is_first_function(
        #[trigger] configs[j],
        function_from(configs[j], 0),
    ) by {
        no_interface_is_overlooked(configs[j]);
    }
    if let Some(f) = found_from(configs, 0) {
        let k = choose|k: int|
            0 <= k < configs.len() && #[trigger] function_from(configs[k], 0) == Some(f) && (
            forall|j: int| 0 <= j < k ==> #[trigger] function_from(configs[j], 0) is None);
        assert(is_first_function(configs[k], Some(f)));
    }
}

/// A Union descriptor names the data interface, wherever it stands in the chain: any
/// other descriptor in front of it is skipped by its length.
pub proof fn union_descriptors_are_found_in_the_chain(d: Seq<u8>, rest: Seq<u8>)
    requires
        2 <= d.len() <= 255,
        d[0] == d.len(),
    ensures
        union_from(d + rest, 0) == (if d.len() >= 5 && d[1] == 0x24 && d[2] == 0x06 {
            Some(d[4])
        } else {
            union_from(rest, 0)
        }),
{
    let all = d + rest;
    assert(all[0] == d[0]);
    if d.len() >= 5 {
        assert(all[1] == d[1] && all[2] == d[2] && all[4] == d[4]);
    }
    lemma_union_shift(d, rest, 0);
}

/// A chain that is empty, or whose first descriptor is shorter than its own header or
/// longer than what is left, names nothing.
pub proof fn broken_chains_name_nothing(extra: Seq<u8>)
    requires
        extra.len() == 0 || extra[0] < 2 || extra[0] > extra.len(),
    ensures
        union_from(extra, 0) is None,
{
}

/// The data interface is the one a Union descriptor names, else the one numbered next,
/// around at the end.
pub proof fn data_interface_is_named_or_next(control: InterfaceDescriptor)
    ensures
        match union_from(control.extra@, 0) {
            Some(n) => data_number(control) == n,
            None => data_number(control) == (control.number + 1) % 256,
        },
{
}

proof fn lemma_union_shift(d: Seq<u8>, rest: Seq<u8>, at: int)
    requires
        0 <= at,
    ensures
        union_from(d + rest, d.len() + at) == union_from(rest, at),
    decreases rest.len() - at,
{
    let all = d + rest;
    if at < rest.len() {
        assert(all[d.len() + at] == rest[at]);
        if rest[at] >= 2 && at + rest[at] <= rest.len() {
            if rest[at] >= 5 {
                assert(all[d.len() + at + 1] == rest[at + 1]);
                assert(all[d.len() + at + 2] == rest[at + 2]);
                assert(all[d.len() + at + 4] == rest[at + 4]);
            }
            lemma_union_shift(d, rest, at + rest[at]);
        }
    }
}

proof fn lemma_function_from(config: ConfigDescriptor, from: int)
    requires
        0 <= from,
    ensures
        match function_from(config, from) {
            Some(f) => exists|i: int|
                from <= i < config.interfaces@.len() && function_behind(
                    config,
                    #[trigger] config.interfaces@[i],
                ) == Some(f) && (forall|j: int|
                    from <= j < i ==> function_behind(
                        config,
                        #[trigger] config.interfaces@[j],
                    ) is None),
            None => forall|j: int|
                from <= j < config.interfaces@.len() ==> function_behind(
                    config,
                    #[trigger] config.interfaces@[j],
                ) is None,
        },
    decreases config.interfaces@.len() - from,
{
    let interfaces = config.interfaces@;
    if from < interfaces.len() && function_behind(config, interfaces[from]) is None {
        lemma_function_from(config, from + 1);
        if let Some(f) = function_from(config, from) {
            let i = choose|i: int|
                from + 1 <= i < interfaces.len() && function_behind(
                    config,
                    #[trigger] interfaces[i],
                ) == Some(f) && (forall|j: int|
                    from + 1 <= j < i ==> function_behind(
                        config,
                        #[trigger] interfaces[j],
                    ) is None);
            assert(function_behind(config, interfaces[i]) == Some(f));
        }
    } else if from < interfaces.len() {
        assert(function_behind(config, interfaces[from]) == function_from(config, from));
    }
}

proof fn lemma_data_is_first(interfaces: Seq<InterfaceDescriptor>, number: u8, from: int)
    requires
        0 <= from,
    ensures
        match first_data(interfaces, number, from) {
            Some(data) => exists|i: int|
                from <= i < interfaces.len() && #[trigger] interfaces[i] == data && carries_data(
                    interfaces[i],
                    number,
                ) && (forall|j: int|
                    from <= j < i ==> !carries_data(#[trigger] interfaces[j], number)),
            None => forall|j: int|
                from <= j < interfaces.len() ==> !carries_data(#[trigger] interfaces[j], number),
        },
    decreases interfaces.len() - from,
{
    if from < interfaces.len() && !carries_data(interfaces[from], number) {
        lemma_data_is_first(interfaces, number, from + 1);
        if let Some(data) = first_data(interfaces, number, from) {
            let i = choose|i: int|
                from + 1 <= i < interfaces.len() && #[trigger] interfaces[i] == data
                    && carries_data(interfaces[i], number) && (forall|j: int|
                    from + 1 <= j < i ==> !carries_data(#[trigger] interfaces[j], number));
            assert(interfaces[i] == data);
        }
    } else if from < interfaces.len() {
        assert(interfaces[from] == first_data(interfaces, number, from)->0);
    }
}

/// The first endpoint of a kind, in terms of positions.
proof fn lemma_endpoint(i: InterfaceDescriptor, ty: TransferType, dir: Direction, inward: bool)
    requires
        inward == (dir == Direction::In),
    ensures
        match i.first(ty, dir) {
            Some(e) => exists|k: int| #[trigger]
                endpoint_is_first(i, k, ty, inward) && i.endpoints@[k] == e,
            None => forall|k: int| !#[trigger] endpoint_is(i, k, ty, inward),
        },
{
    let es = i.endpoints@;
    found_endpoint_is_the_first(es, ty, dir, 0);
    assert forall|k: int| 0 <= k < es.len() implies (#[trigger] es[k]).is(ty, dir) == endpoint_is(
        i,
        k,
        ty,
        inward,
    ) by {}
    if let Some(e) = i.first(ty, dir) {
        let k = choose|k: int|
            0 <= k < es.len() && es[k] == e && es[k].is(ty, dir) && (forall|j: int|
                0 <= j < k ==> !(#[trigger] es[j]).is(ty, dir));
        assert forall|j: int| 0 <= j < k implies !#[trigger] endpoint_is(i, j, ty, inward) by {
            assert(!es[j].is(ty, dir));
        }
        assert(endpoint_is_first(i, k, ty, inward));
    } else {
        assert forall|k: int| !#[trigger] endpoint_is(i, k, ty, inward) by {
            if 0 <= k < es.len() {
                assert(!es[k].is(ty, dir));
            }
        }
    }
}

/// Two interfaces that pair up make a function.
proof fn lemma_pair_is_behind(config: ConfigDescriptor, c: int, d: int)
    requires
        pairs_up(config, c, d),
    ensures
        function_behind(config, config.interfaces@[c]) is Some,
        carries_data(config.interfaces@[d], data_number(config.interfaces@[c])),
{
    let data = config.interfaces@[d];
    lemma_endpoint(data, TransferType::Bulk, Direction::In, true);
    lemma_endpoint(data, TransferType::Bulk, Direction::Out, false);
    lemma_data_is_first(config.interfaces@, data_number(config.interfaces@[c]), 0);
    assert(carries_data(config.interfaces@[d], data_number(config.interfaces@[c])));
}

} // verus!
