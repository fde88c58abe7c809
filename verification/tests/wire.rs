use muta::rndis::error::Error;
use muta::rndis::wire::{
    decode_init_complete, decode_query_complete, encode_init, encode_set, u32_at, MSG_INIT_C,
    MSG_QUERY_C, OFFSET_BASE, OID_GEN_CURRENT_PACKET_FILTER, STATUS_SUCCESS,
};

#[test]
fn init_message_matches_the_wire_layout() {
    let m = encode_init(1, 0x4000);
    assert_eq!(m.len(), 24);
    assert_eq!(
        m,
        vec![
            0x02, 0, 0, 0, // MSG_INIT
            24, 0, 0, 0, // msg_len
            1, 0, 0, 0, // request id
            1, 0, 0, 0, // major
            0, 0, 0, 0, // minor
            0x00, 0x40, 0, 0, // max transfer size
        ]
    );
}

#[test]
fn set_message_points_at_its_own_payload() {
    let m = encode_set(7, OID_GEN_CURRENT_PACKET_FILTER, &0x2Fu32.to_le_bytes());
    assert_eq!(u32_at(&m, 4).unwrap() as usize, m.len());
    let len = u32_at(&m, 16).unwrap() as usize;
    let offset = u32_at(&m, 20).unwrap() as usize;
    assert_eq!(&m[OFFSET_BASE + offset..OFFSET_BASE + offset + len], &[0x2F, 0, 0, 0]);
}

fn init_complete_bytes(alignment_exponent: u32) -> Vec<u8> {
    let mut m = Vec::new();
    for v in [
        MSG_INIT_C,
        52,
        1, // request id
        STATUS_SUCCESS,
        1,
        0,      // version
        0,      // device flags
        0,      // medium: 802.3
        8,      // max packets per transfer
        0x4000, // max transfer size
        alignment_exponent,
        0,
        0,
    ] {
        m.extend_from_slice(&v.to_le_bytes());
    }
    m
}

#[test]
fn decodes_init_complete_and_expands_the_alignment_exponent() {
    let c = decode_init_complete(&init_complete_bytes(2)).unwrap();
    assert_eq!(c.status, STATUS_SUCCESS);
    assert_eq!(c.max_transfer_size, 0x4000);
    assert_eq!(c.max_packets_per_transfer, 8);
    assert_eq!(c.packet_alignment, 4);
}

#[test]
fn absurd_alignment_exponent_does_not_shift_overflow() {
    let c = decode_init_complete(&init_complete_bytes(0xFFFF_FFFF)).unwrap();
    assert_eq!(c.packet_alignment, 1);
}

#[test]
fn truncated_init_complete_is_rejected() {
    let short = init_complete_bytes(2)[..20].to_vec();
    assert!(matches!(decode_init_complete(&short), Err(Error::Truncated)));
}

#[test]
fn decodes_a_mac_address_from_query_complete() {
    let mac = [0x11, 0x22, 0x33, 0x44, 0x55, 0x66];
    let mut m = Vec::new();
    for v in [MSG_QUERY_C, 30, 3, STATUS_SUCCESS, 6, 16] {
        m.extend_from_slice(&v.to_le_bytes());
    }
    m.extend_from_slice(&mac);

    let (id, status, info) = decode_query_complete(&m).unwrap();
    assert_eq!((id, status), (3, STATUS_SUCCESS));
    assert_eq!(info, mac);
}

#[test]
fn query_complete_information_buffer_cannot_escape_the_message() {
    // Offset/length pair points past the end of the received bytes.
    let mut m = Vec::new();
    for v in [MSG_QUERY_C, 24, 3, STATUS_SUCCESS, 6, 4096] {
        m.extend_from_slice(&v.to_le_bytes());
    }
    assert!(matches!(decode_query_complete(&m), Err(Error::Truncated)));
}

#[test]
fn query_complete_offset_length_overflow_is_rejected() {
    let mut m = Vec::new();
    for v in [MSG_QUERY_C, 24, 3, STATUS_SUCCESS, u32::MAX, u32::MAX] {
        m.extend_from_slice(&v.to_le_bytes());
    }
    assert!(matches!(decode_query_complete(&m), Err(Error::Truncated)));
}

#[test]
fn failed_query_yields_status_without_an_information_buffer() {
    let mut m = Vec::new();
    for v in [MSG_QUERY_C, 24, 3, 0xC000_0001, 0, 0] {
        m.extend_from_slice(&v.to_le_bytes());
    }
    let (_, status, info) = decode_query_complete(&m).unwrap();
    assert_eq!(status, 0xC000_0001);
    assert!(info.is_empty());
}
