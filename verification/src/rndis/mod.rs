//! RNDIS protocol: control state machine and PACKET_MSG framing.
//!
//! Hardware-free; the USB transport is injected.

pub mod channel;
pub mod control;
pub mod error;
pub mod exchange;
pub mod packet;
pub mod wire;

pub use self::channel::ControlTransport;
pub use self::control::{Rndis, Session, HOST_MAX_TRANSFER_SIZE};
