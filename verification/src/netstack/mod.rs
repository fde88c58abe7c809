//! The L2 shim: Ethernet framing, ARP, and a DHCP client.
//!
//! RNDIS carries Ethernet but `utun` is IP-only, so every layer-2 concern is
//! handled here rather than by the kernel.

pub mod arp;
pub mod dhcp;
pub mod dhcp_wire;
pub mod error;
pub mod ethernet;
pub mod ipv4;

pub use self::arp::Arp;
pub use self::dhcp::Lease;
pub use self::ethernet::MacAddr;
