//! The L2 shim in motion: what the threads that move frames between the RNDIS
//! endpoints, ARP, DHCP, and the IP sink decide.

pub mod inbound;
pub mod outbound;
pub mod rx;
pub mod sink;
pub mod tap;
pub mod timer;
pub mod tx;

pub use self::rx::{LinkEvent, Rx, RxAction, RxEvent};
pub use self::sink::{IpSink, SwitchableSink};
pub use self::timer::DhcpTimer;
pub use self::tx::{Tx, TxLimits};
