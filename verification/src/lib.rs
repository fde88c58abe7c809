//! Android USB tethering in userspace.
//!
//! An Android phone in USB tethering mode speaks RNDIS: Ethernet frames carried
//! over USB bulk transfers, with a small control protocol beside them. The
//! tunnel device on the host is IP-only. This library is everything between the
//! two that can be decided without touching the system: locating the RNDIS
//! function in a device's descriptors, the control protocol, packet framing,
//! ARP, a DHCP client, transmit batching, and the commands and records that
//! configure the host. Its functions are verified; the few that wrap a call into the
//! standard library or into `rusb` say what is taken on trust of that call.

pub mod addr;
pub mod bus;
pub mod bytes;
pub mod cli;
pub mod daemon;
pub mod device;
pub mod guarantees;
pub mod link;
pub mod netstack;
pub mod probe;
pub mod rndis;
pub mod service;
pub mod status;
pub mod text;
pub mod time;
pub mod transport;
pub mod tun;
pub mod tunnel;
pub mod usb;
