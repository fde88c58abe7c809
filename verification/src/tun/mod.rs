//! The `utun` device and the system state that makes it carry traffic.

pub mod dns;
pub mod net;
pub mod units;
pub mod utun;

pub use self::dns::Dns;
pub use self::net::{configure_interface, subnet_of, Routes};
