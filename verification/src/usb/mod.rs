//! Swappable USB layer: a backend-independent trait plus descriptor snapshots
//! and RNDIS interface matching.

pub mod adapter;
pub mod backend;
pub mod descriptor;
pub mod error;
pub mod matcher;
pub mod port;
pub mod queue;

pub use self::backend::{
    ControlSetup, HotplugEvent, HotplugWatch, InEndpoint, OutEndpoint, UsbBackend, UsbDevice,
    UsbInterface,
};
pub use self::descriptor::{
    ConfigDescriptor, DeviceId, DeviceInfo, Direction, EndpointDescriptor, InterfaceDescriptor,
    TransferType,
};
pub use self::error::{Result, UsbError};
pub use self::matcher::{find_rndis, RndisFunction};
