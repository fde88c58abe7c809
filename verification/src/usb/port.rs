//! An interface together with a record of what was asked of it.
//!
//! The record exists for specification only: each method makes one call on the
//! interface and adds exactly that call.

use vstd::prelude::*;

use crate::time::Duration;
use crate::usb::backend::{ControlSetup, UsbInterface};
use crate::usb::descriptor::TransferType;
use crate::usb::error::{Result, UsbError};

verus! {

/// One thing that was asked of an interface.
#[verifier::ext_equal]
pub enum PortEvent {
    OpenedIn { address: u8, ty: TransferType, failure: Option<UsbError> },
    Sent { setup: ControlSetup, data: Seq<u8>, timeout: Duration, outcome: Result<()> },
    Received { setup: ControlSetup, len: u16, timeout: Duration, reply: Result<Vec<u8>> },
    Paused { timeout: Duration },
}

/// Why a call failed, if it did.
pub open spec fn failure_of<A>(r: Result<A>) -> Option<UsbError> {
    match r {
        Ok(_) => None,
        Err(e) => Some(e),
    }
}

pub struct Port<I> {
    interface: I,
    log: Ghost<Seq<PortEvent>>,
}

impl<I> Port<I> {
    /// The interface.
    pub closed spec fn interface(&self) -> I {
        self.interface
    }

    /// Everything that was asked of it, oldest first.
    pub closed spec fn log(&self) -> Seq<PortEvent> {
        self.log@
    }
}

impl<I: UsbInterface> Port<I> {
    pub fn new(interface: I) -> (r: Self)
        ensures
            r.interface() == interface,
            r.log() == Seq::<PortEvent>::empty(),
    {
        Port { interface, log: Ghost(Seq::empty()) }
    }

    pub fn open_in(&mut self, address: u8, ty: TransferType) -> (r: Result<I::In>)
        ensures
            call_ensures(I::open_in, (&old(self).interface(), address, ty), r),
            final(self).interface() == old(self).interface(),
            final(self).log() == old(self).log().push(
                (PortEvent::OpenedIn { address, ty, failure: failure_of(r) }),
            ),
    {
        let r = self.interface.open_in(address, ty);
        self.log =
        Ghost(self.log@.push((PortEvent::OpenedIn { address, ty, failure: failure_of(r) })));
        r
    }

    pub fn control_out(&mut self, setup: ControlSetup, data: &[u8], timeout: Duration) -> (r: Result<
        (),
    >)
        ensures
            call_ensures(I::control_out, (&old(self).interface(), setup, data, timeout), r),
            final(self).interface() == old(self).interface(),
            final(self).log() == old(self).log().push(
                (PortEvent::Sent { setup, data: data@, timeout, outcome: r }),
            ),
    {
        let r = self.interface.control_out(setup, data, timeout);
        self.log =
        Ghost(self.log@.push((PortEvent::Sent { setup, data: data@, timeout, outcome: r })));
        r
    }

    pub fn control_in(&mut self, setup: ControlSetup, len: u16, timeout: Duration) -> (r: Result<
        Vec<u8>,
    >)
        ensures
            call_ensures(I::control_in, (&old(self).interface(), setup, len, timeout), r),
            final(self).interface() == old(self).interface(),
            final(self).log() == old(self).log().push(
                (PortEvent::Received { setup, len, timeout, reply: r }),
            ),
    {
        let r = self.interface.control_in(setup, len, timeout);
        self.log =
        Ghost(self.log@.push((PortEvent::Received { setup, len, timeout, reply: r })));
        r
    }

    pub fn pause(&mut self, timeout: Duration)
        ensures
            call_ensures(I::pause, (&old(self).interface(), timeout), ()),
            final(self).interface() == old(self).interface(),
            final(self).log() == old(self).log().push((PortEvent::Paused { timeout })),
    {
        self.interface.pause(timeout);
        self.log = Ghost(self.log@.push((PortEvent::Paused { timeout })));
    }
}

} // verus!
