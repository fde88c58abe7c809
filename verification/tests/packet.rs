use muta::rndis::error::Result;
use muta::rndis::packet::{decode, encode};
use muta::rndis::wire::{DATA_HEADER_LEN, OFFSET_BASE};

fn frame(len: usize) -> Vec<u8> {
    (0..len).map(|i| i as u8).collect()
}

fn results(buf: &[u8]) -> Vec<Result<Vec<u8>>> {
    let mut frames = decode(buf);
    let mut out = Vec::new();
    while let Some(r) = frames.next() {
        out.push(r.map(<[u8]>::to_vec));
    }
    out
}

fn collect(buf: &[u8]) -> Result<Vec<Vec<u8>>> {
    results(buf).into_iter().collect()
}

#[test]
fn round_trips_a_single_frame() {
    let f = frame(64);
    let frames = collect(&encode(&f)).unwrap();
    assert_eq!(frames, vec![f]);
}

#[test]
fn splits_aggregated_frames_from_one_transfer() {
    let (a, b, c) = (frame(64), frame(100), frame(1514));
    let mut buf = encode(&a);
    buf.extend_from_slice(&encode(&b));
    buf.extend_from_slice(&encode(&c));

    assert_eq!(collect(&buf).unwrap(), vec![a, b, c]);
}

#[test]
fn ignores_trailing_padding_shorter_than_a_header() {
    let f = frame(64);
    let mut buf = encode(&f);
    buf.extend_from_slice(&[0; 16]);
    assert_eq!(collect(&buf).unwrap(), vec![f]);
}

#[test]
fn empty_transfer_yields_nothing() {
    assert!(collect(&[]).unwrap().is_empty());
}

#[test]
fn rejects_data_length_running_past_the_message() {
    let mut buf = encode(&frame(64));
    buf[12..16].copy_from_slice(&9999u32.to_le_bytes());
    assert!(collect(&buf).is_err());
}

#[test]
fn rejects_data_offset_running_past_the_message() {
    let mut buf = encode(&frame(64));
    buf[8..12].copy_from_slice(&9999u32.to_le_bytes());
    assert!(collect(&buf).is_err());
}

#[test]
fn rejects_message_length_beyond_the_transfer() {
    let mut buf = encode(&frame(64));
    let too_long = buf.len() as u32 + 1;
    buf[4..8].copy_from_slice(&too_long.to_le_bytes());
    assert!(collect(&buf).is_err());
}

#[test]
fn rejects_message_length_shorter_than_the_header() {
    let mut buf = encode(&frame(64));
    buf[4..8].copy_from_slice(&8u32.to_le_bytes());
    assert!(collect(&buf).is_err());
}

#[test]
fn rejects_a_non_packet_message() {
    let mut buf = encode(&frame(64));
    buf[0..4].copy_from_slice(&0x8000_0002u32.to_le_bytes());
    assert!(collect(&buf).is_err());
}

#[test]
fn stops_after_a_malformed_packet_instead_of_looping() {
    let mut buf = encode(&frame(64));
    buf[4..8].copy_from_slice(&0u32.to_le_bytes());
    buf.extend_from_slice(&encode(&frame(64)));

    // One error, then the iterator ends.
    let results = results(&buf);
    assert_eq!(results.len(), 1);
    assert!(results[0].is_err());
}

#[test]
fn accepts_a_larger_than_minimum_data_offset() {
    // Some gadgets insert per-packet info between header and payload.
    let f = frame(64);
    let pad = 8;
    let mut buf = encode(&f);
    buf.splice(DATA_HEADER_LEN..DATA_HEADER_LEN, std::iter::repeat_n(0u8, pad));
    let new_len = (buf.len()) as u32;
    buf[4..8].copy_from_slice(&new_len.to_le_bytes());
    buf[8..12].copy_from_slice(&((DATA_HEADER_LEN - OFFSET_BASE + pad) as u32).to_le_bytes());

    assert_eq!(collect(&buf).unwrap(), vec![f]);
}
