//! What can go wrong on the bus.

use vstd::prelude::*;
use vstd::string::*;

verus! {

#[derive(Debug)]
pub enum UsbError {
    Disconnected,
    Timeout,
    Stall,
    NotFound,
    Other(String),
}

pub type Result<T> = std::result::Result<T, UsbError>;

impl UsbError {
    /// Whether the device is gone and the session should be torn down.
    pub fn is_fatal(&self) -> (r: bool)
        ensures
            r == (*self is Disconnected || *self is NotFound),
    {
        match self {
            UsbError::Disconnected | UsbError::NotFound => true,
            _ => false,
        }
    }

    /// The text shown for this error.
    pub open spec fn text(self) -> Seq<char> {
        match self {
            UsbError::Disconnected => "device disconnected"@,
            UsbError::Timeout => "transfer timed out"@,
            UsbError::Stall => "endpoint stalled"@,
            UsbError::NotFound => "device not found"@,
            UsbError::Other(what) => what@,
        }
    }

    /// The text shown for this error.
    pub fn message(&self) -> (r: String)
        ensures
            r@ == self.text(),
    {
        match self {
            UsbError::Disconnected => "device disconnected".to_owned(),
            UsbError::Timeout => "transfer timed out".to_owned(),
            UsbError::Stall => "endpoint stalled".to_owned(),
            UsbError::NotFound => "device not found".to_owned(),
            UsbError::Other(what) => what.clone(),
        }
    }
}

/// Each error says what went wrong, and one that came with words says those.
pub proof fn errors_say_what_went_wrong(what: String)
    ensures
        UsbError::Disconnected.text() == "device disconnected"@,
        UsbError::Timeout.text() == "transfer timed out"@,
        UsbError::Stall.text() == "endpoint stalled"@,
        UsbError::NotFound.text() == "device not found"@,
        UsbError::Other(what).text() == what@,
{
}

} // verus!
