use muta::usb::descriptor::{
    ConfigDescriptor, EndpointDescriptor, InterfaceDescriptor, TransferType,
};
use muta::usb::matcher::{
    find_rndis, union_subordinate, RndisFunction, CDC_UNION, CLASS_CDC_DATA, CS_INTERFACE,
};

fn ep(address: u8, transfer_type: TransferType) -> EndpointDescriptor {
    EndpointDescriptor {
        address,
        transfer_type,
        max_packet_size: 512,
    }
}

fn control_iface(number: u8, sig: (u8, u8, u8), extra: Vec<u8>) -> InterfaceDescriptor {
    InterfaceDescriptor {
        number,
        alt_setting: 0,
        class: sig.0,
        subclass: sig.1,
        protocol: sig.2,
        endpoints: vec![ep(0x81, TransferType::Interrupt)],
        extra,
    }
}

fn data_iface(number: u8) -> InterfaceDescriptor {
    InterfaceDescriptor {
        number,
        alt_setting: 0,
        class: CLASS_CDC_DATA,
        subclass: 0,
        protocol: 0,
        endpoints: vec![ep(0x82, TransferType::Bulk), ep(0x02, TransferType::Bulk)],
        extra: vec![],
    }
}

/// Header + Call Management + ACM + Union(0, 1), as an Android gadget sends it.
fn android_cdc_extra() -> Vec<u8> {
    vec![
        0x05,
        CS_INTERFACE,
        0x00,
        0x10,
        0x01, // Header
        0x05,
        CS_INTERFACE,
        0x01,
        0x00,
        0x01, // Call Management
        0x04,
        CS_INTERFACE,
        0x02,
        0x00, // ACM
        0x05,
        CS_INTERFACE,
        CDC_UNION,
        0x00,
        0x01, // Union: master 0, slave 1
    ]
}

#[test]
fn matches_android_rndis_gadget() {
    let config = ConfigDescriptor {
        value: 1,
        interfaces: vec![
            control_iface(0, (0xE0, 0x01, 0x03), android_cdc_extra()),
            data_iface(1),
        ],
    };

    assert_eq!(
        find_rndis(&[config]),
        Some(RndisFunction {
            config_value: 1,
            control_interface: 0,
            data_interface: 1,
            data_alt_setting: 0,
            interrupt_in: Some(0x81),
            bulk_in: 0x82,
            bulk_out: 0x02,
            bulk_max_packet_size: 512,
        })
    );
}

#[test]
fn matches_microsoft_comm_acm_vendor_signature() {
    let config = ConfigDescriptor {
        value: 1,
        interfaces: vec![
            control_iface(0, (0x02, 0x02, 0xFF), android_cdc_extra()),
            data_iface(1),
        ],
    };
    assert!(find_rndis(&[config]).is_some());
}

#[test]
fn union_descriptor_wins_over_adjacency() {
    // Union names interface 3, which is not the interface following the
    // control one. Interface 1 is a decoy CDC-data interface.
    let mut extra = android_cdc_extra();
    let last = extra.len() - 1;
    extra[last] = 3;

    let config = ConfigDescriptor {
        value: 1,
        interfaces: vec![
            control_iface(0, (0xE0, 0x01, 0x03), extra),
            data_iface(1),
            data_iface(3),
        ],
    };

    let f = find_rndis(&[config]).expect("matched");
    assert_eq!(f.data_interface, 3);
}

#[test]
fn falls_back_to_adjacent_interface_without_union() {
    let config = ConfigDescriptor {
        value: 1,
        interfaces: vec![control_iface(2, (0xE0, 0x01, 0x03), vec![]), data_iface(3)],
    };

    let f = find_rndis(&[config]).expect("matched");
    assert_eq!(f.control_interface, 2);
    assert_eq!(f.data_interface, 3);
}

#[test]
fn picks_alt_setting_that_exposes_the_bulk_pair() {
    let mut alt0 = data_iface(1);
    alt0.endpoints.clear();
    let mut alt1 = data_iface(1);
    alt1.alt_setting = 1;

    let config = ConfigDescriptor {
        value: 1,
        interfaces: vec![
            control_iface(0, (0xE0, 0x01, 0x03), android_cdc_extra()),
            alt0,
            alt1,
        ],
    };

    let f = find_rndis(&[config]).expect("matched");
    assert_eq!(f.data_alt_setting, 1);
}

#[test]
fn finds_rndis_in_a_non_first_configuration() {
    let mtp_only = ConfigDescriptor {
        value: 1,
        interfaces: vec![InterfaceDescriptor {
            number: 0,
            alt_setting: 0,
            class: 0x06,
            subclass: 0x01,
            protocol: 0x01,
            endpoints: vec![],
            extra: vec![],
        }],
    };
    let tether = ConfigDescriptor {
        value: 2,
        interfaces: vec![
            control_iface(0, (0xE0, 0x01, 0x03), android_cdc_extra()),
            data_iface(1),
        ],
    };

    let f = find_rndis(&[mtp_only, tether]).expect("matched");
    assert_eq!(f.config_value, 2);
}

#[test]
fn ignores_non_rndis_devices() {
    // CDC-ECM: communications class, ECM subclass — macOS handles these natively.
    let config = ConfigDescriptor {
        value: 1,
        interfaces: vec![control_iface(0, (0x02, 0x06, 0x00), vec![]), data_iface(1)],
    };
    assert_eq!(find_rndis(&[config]), None);
}

#[test]
fn rejects_control_interface_with_no_data_interface() {
    let config = ConfigDescriptor {
        value: 1,
        interfaces: vec![control_iface(0, (0xE0, 0x01, 0x03), android_cdc_extra())],
    };
    assert_eq!(find_rndis(&[config]), None);
}

#[test]
fn union_parser_rejects_malformed_lengths() {
    assert_eq!(
        union_subordinate(&[0x00, CS_INTERFACE, CDC_UNION, 0, 1]),
        None
    );
    // Length runs past the end of the buffer.
    assert_eq!(
        union_subordinate(&[0x40, CS_INTERFACE, CDC_UNION, 0, 1]),
        None
    );
    // Union descriptor truncated to 4 bytes has no subordinate field.
    assert_eq!(union_subordinate(&[0x04, CS_INTERFACE, CDC_UNION, 0]), None);
}
