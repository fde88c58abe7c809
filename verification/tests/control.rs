use muta::rndis::channel::ControlTransport;
use muta::rndis::control::{LinkState, Rndis};
use muta::rndis::error::{Error, Result};
use muta::rndis::wire;
use muta::time::Duration;

use std::collections::VecDeque;

/// Scripted device: each sent command pushes zero or more replies.
#[derive(Default)]
struct MockDevice {
    sent: Vec<Vec<u8>>,
    replies: VecDeque<Vec<u8>>,
    /// Replies queued ahead of any command, e.g. an INDICATE_STATUS.
    preloaded: VecDeque<Vec<u8>>,
    mac: [u8; 6],
    fail_permanent_address: bool,
}

impl MockDevice {
    fn new(mac: [u8; 6]) -> Self {
        Self {
            mac,
            ..Default::default()
        }
    }

    fn respond(&mut self, msg: &[u8]) {
        let msg_type = wire::u32_at(msg, 0).unwrap();
        let id = wire::u32_at(msg, 8).unwrap();
        match msg_type {
            wire::MSG_INIT => {
                let mut r = Vec::new();
                for v in [
                    wire::MSG_INIT_C,
                    52,
                    id,
                    wire::STATUS_SUCCESS,
                    1,
                    0,
                    0,
                    0,
                    8,
                    16384,
                    0,
                    0,
                    0,
                ] {
                    r.extend_from_slice(&v.to_le_bytes());
                }
                self.replies.push_back(r);
            }
            wire::MSG_QUERY => {
                let oid = wire::u32_at(msg, 12).unwrap();
                let fail =
                    self.fail_permanent_address && oid == wire::OID_802_3_PERMANENT_ADDRESS;
                let mut r = Vec::new();
                if fail {
                    for v in [wire::MSG_QUERY_C, 24, id, 0xC000_0001, 0, 0] {
                        r.extend_from_slice(&v.to_le_bytes());
                    }
                } else {
                    for v in [wire::MSG_QUERY_C, 30, id, wire::STATUS_SUCCESS, 6, 16] {
                        r.extend_from_slice(&v.to_le_bytes());
                    }
                    r.extend_from_slice(&self.mac);
                }
                self.replies.push_back(r);
            }
            wire::MSG_SET | wire::MSG_KEEPALIVE => {
                let complete = if msg_type == wire::MSG_SET {
                    wire::MSG_SET_C
                } else {
                    wire::MSG_KEEPALIVE_C
                };
                let mut r = Vec::new();
                for v in [complete, 16, id, wire::STATUS_SUCCESS] {
                    r.extend_from_slice(&v.to_le_bytes());
                }
                self.replies.push_back(r);
            }
            _ => {}
        }
    }
}

impl ControlTransport for MockDevice {
    fn send(&mut self, msg: &[u8]) -> Result<()> {
        self.sent.push(msg.to_vec());
        self.respond(msg);
        Ok(())
    }

    fn receive(&mut self) -> Result<Vec<u8>> {
        Ok(self
            .preloaded
            .pop_front()
            .or_else(|| self.replies.pop_front())
            .unwrap_or_default())
    }

    fn await_response(&mut self, _timeout: Duration) -> Result<()> {
        Ok(())
    }
}

fn indicate(status: u32) -> Vec<u8> {
    let mut m = Vec::new();
    for v in [wire::MSG_INDICATE, 20, status, 0, 0] {
        m.extend_from_slice(&v.to_le_bytes());
    }
    m
}

#[test]
fn bring_up_runs_init_query_set_in_order() {
    let mac = [0xAA, 0xBB, 0xCC, 0x01, 0x02, 0x03];
    let mut rndis = Rndis::new(MockDevice::new(mac));

    let session = rndis.bring_up().unwrap();
    assert_eq!(session.host_mac, mac);
    assert_eq!(session.device_max_transfer_size, 16384);

    let types: Vec<u32> = rndis
        .transport_mut()
        .sent
        .iter()
        .map(|m| wire::u32_at(m, 0).unwrap())
        .collect();
    assert_eq!(types, vec![wire::MSG_INIT, wire::MSG_QUERY, wire::MSG_SET]);

    // The SET must be the packet filter that brings the link up.
    let set = &rndis.transport_mut().sent[2];
    assert_eq!(
        wire::u32_at(set, 12).unwrap(),
        wire::OID_GEN_CURRENT_PACKET_FILTER
    );
    assert_eq!(wire::u32_at(set, 28).unwrap(), wire::DEFAULT_PACKET_FILTER);
}

#[test]
fn falls_back_to_current_address_when_permanent_fails() {
    let mac = [1, 2, 3, 4, 5, 6];
    let mut device = MockDevice::new(mac);
    device.fail_permanent_address = true;
    let mut rndis = Rndis::new(device);

    assert_eq!(rndis.bring_up().unwrap().host_mac, mac);
}

#[test]
fn an_indicate_status_between_command_and_completion_is_handled() {
    let mut device = MockDevice::new([1, 2, 3, 4, 5, 6]);
    device
        .preloaded
        .push_back(indicate(wire::STATUS_MEDIA_CONNECT));
    let mut rndis = Rndis::new(device);

    rndis.bring_up().unwrap();
    assert_eq!(rndis.link_state(), LinkState::Up);
}

#[test]
fn a_device_keepalive_is_answered_during_a_transaction() {
    let mut device = MockDevice::new([1, 2, 3, 4, 5, 6]);
    let mut ping = Vec::new();
    for v in [wire::MSG_KEEPALIVE, 12, 0x4242] {
        ping.extend_from_slice(&v.to_le_bytes());
    }
    device.preloaded.push_back(ping);
    let mut rndis = Rndis::new(device);

    rndis.initialize().unwrap();

    let answered = rndis.transport_mut().sent.iter().any(|m| {
        wire::u32_at(m, 0).unwrap() == wire::MSG_KEEPALIVE_C
            && wire::u32_at(m, 8).unwrap() == 0x4242
    });
    assert!(answered, "device keepalive must be acknowledged");
}

#[test]
fn media_disconnect_is_reported() {
    let mut device = MockDevice::new([1, 2, 3, 4, 5, 6]);
    device
        .preloaded
        .push_back(indicate(wire::STATUS_MEDIA_DISCONNECT));
    let mut rndis = Rndis::new(device);

    assert_eq!(rndis.poll_unsolicited().unwrap(), LinkState::Down);
}

#[test]
fn init_failure_status_is_surfaced() {
    struct Failing;
    impl ControlTransport for Failing {
        fn send(&mut self, _: &[u8]) -> Result<()> {
            Ok(())
        }
        fn receive(&mut self) -> Result<Vec<u8>> {
            let mut r = Vec::new();
            for v in [
                wire::MSG_INIT_C,
                52,
                1,
                0xC000_0001,
                1,
                0,
                0,
                0,
                1,
                16384,
                0,
                0,
                0,
            ] {
                r.extend_from_slice(&v.to_le_bytes());
            }
            Ok(r)
        }
        fn await_response(&mut self, _: Duration) -> Result<()> {
            Ok(())
        }
    }

    let err = Rndis::new(Failing).initialize().unwrap_err();
    assert!(matches!(err, Error::Status(0xC000_0001)));
}

#[test]
fn a_silent_device_times_out_rather_than_hanging() {
    struct Silent;
    impl ControlTransport for Silent {
        fn send(&mut self, _: &[u8]) -> Result<()> {
            Ok(())
        }
        fn receive(&mut self) -> Result<Vec<u8>> {
            Ok(Vec::new())
        }
        fn await_response(&mut self, timeout: Duration) -> Result<()> {
            let pause = timeout.min(Duration::from_millis(10));
            let start = std::time::Instant::now();
            while start.elapsed() < std::time::Duration::from_nanos(pause.nanos) {}
            Ok(())
        }
    }

    let err = Rndis::new(Silent).initialize().unwrap_err();
    assert!(matches!(err, Error::NoResponse));
}

#[test]
fn the_last_media_status_decides_after_a_bring_up() {
    let mut device = MockDevice::new([1, 2, 3, 4, 5, 6]);
    device
        .preloaded
        .push_back(indicate(wire::STATUS_MEDIA_CONNECT));
    device
        .preloaded
        .push_back(indicate(wire::STATUS_MEDIA_DISCONNECT));
    let mut rndis = Rndis::new(device);
    rndis.bring_up().unwrap();
    assert_eq!(rndis.link_state(), LinkState::Down);

    // A link nobody reported on counts as up.
    let mut rndis = Rndis::new(MockDevice::new([1, 2, 3, 4, 5, 6]));
    assert_eq!(rndis.link_state(), LinkState::Unknown);
    rndis.bring_up().unwrap();
    assert_eq!(rndis.link_state(), LinkState::Up);
}

#[test]
fn every_request_carries_an_id_of_its_own() {
    let mut rndis = Rndis::new(MockDevice::new([1, 2, 3, 4, 5, 6]));
    rndis.bring_up().unwrap();
    rndis.halt().unwrap();
    let ids: Vec<u32> = rndis
        .transport_mut()
        .sent
        .iter()
        .map(|m| wire::u32_at(m, 8).unwrap())
        .collect();
    assert_eq!(ids, [1, 2, 3, 4]);
}
