//! The resident daemon: watch for the phone, hold the tunnel up while it is
//! attached, restore the system on unplug. What it decides stands here; what it
//! does, its caller does.

pub mod session;
pub mod watch;

pub use self::session::{Session, SessionAction, SessionEvent};
pub use self::watch::{Watch, WatchAction, WatchEvent};
