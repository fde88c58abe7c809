//! A USB backend together with a record of every call made on it, on the devices
//! it opened and on the interfaces they handed out.
//!
//! The record exists for specification only: each method makes one call and adds
//! exactly that call. Devices and interfaces are handed out sealed, so that nothing
//! can be asked of them but through here.

use vstd::prelude::*;

use crate::bytes::le32_at;
use crate::rndis::control::{
    brought_up, session_is_usable, LinkState, Rndis, Session, SessionView,
};
use crate::rndis::error::Error as RndisError;
use crate::rndis::exchange::{
    completed, reply_at, sent_words, sessions_are_what_the_device_said,
};
use crate::transport::{is_told_as, UsbControlTransport};
use crate::usb::backend::{UsbBackend, UsbDevice, UsbInterface};
use crate::usb::descriptor::{ConfigDescriptor, DeviceId, DeviceInfo, TransferType};
use crate::usb::error::{Result as UsbResult, UsbError};
use crate::usb::port::Port;

verus! {

pub type InterfaceOf<B> = <<B as UsbBackend>::Device as UsbDevice>::Interface;

pub type InOf<B> = <InterfaceOf<B> as UsbInterface>::In;

pub type OutOf<B> = <InterfaceOf<B> as UsbInterface>::Out;

pub type ControlOf<B> = Rndis<UsbControlTransport<InterfaceOf<B>>>;

/// Why a control channel could not be brought up.
#[derive(Debug)]
pub enum ConnectError {
    /// Its interrupt endpoint could not be opened.
    Transport(RndisError),
    /// The RNDIS bring-up failed.
    BringUp(RndisError),
}

/// One call, with what it was made on, its arguments and its outcome.
pub enum Call<B: UsbBackend> {
    List(UsbResult<Vec<DeviceInfo>>),
    Open(DeviceId, UsbResult<B::Device>),
    Configurations(B::Device, UsbResult<Vec<ConfigDescriptor>>),
    ActiveConfiguration(B::Device, UsbResult<u8>),
    SetConfiguration(B::Device, u8, UsbResult<()>),
    Claim(B::Device, u8, UsbResult<InterfaceOf<B>>),
    SetAltSetting(InterfaceOf<B>, u8, UsbResult<()>),
    Connect(InterfaceOf<B>, u8, Option<u8>, Result<(Session, ControlOf<B>), ConnectError>),
    OpenIn(InterfaceOf<B>, u8, TransferType, UsbResult<InOf<B>>),
    OpenOut(InterfaceOf<B>, u8, TransferType, UsbResult<OutOf<B>>),
}

/// Whether the control channel was brought up from scratch, giving `session`.
#[verifier::opaque]
pub open spec fn is_up<I: UsbInterface>(
    control: Rndis<UsbControlTransport<I>>,
    session: Session,
) -> bool {
    let s = brought_up(control.log(), 0, 1, LinkState::Unknown);
    &&& s is Some
    &&& s->0.result == Ok::<_, RndisError>(session@)
    &&& s->0.next == control.log().len()
    &&& s->0.link == control.link()
    &&& s->0.next_id == control.next_id()
}

/// Whether the bring-up of this control channel, run from scratch, failed with `e`.
#[verifier::opaque]
pub open spec fn bring_up_failed<I: UsbInterface>(
    control: Rndis<UsbControlTransport<I>>,
    e: RndisError,
) -> bool {
    let s = brought_up(control.log(), 0, 1, LinkState::Unknown);
    &&& s is Some
    &&& s->0.result == Err::<SessionView, RndisError>(e)
    &&& s->0.next == control.log().len()
}

/// Whether bringing up the control channel over `interface` came out like this.
pub open spec fn connected<I: UsbInterface>(
    interface: I,
    number: u8,
    interrupt_in: Option<u8>,
    r: Result<(Session, Rndis<UsbControlTransport<I>>), ConnectError>,
) -> bool {
    match r {
        Ok((session, control)) => {
            &&& control.made_with().serves(interface, number, interrupt_in)
            &&& is_up(control, session)
        },
        Err(ConnectError::Transport(told)) => interrupt_in is Some && exists|e: UsbError|
            call_ensures(
                I::open_in,
                (&interface, interrupt_in->0, TransferType::Interrupt),
                Err::<I::In, UsbError>(e),
            ) && #[trigger] is_told_as(e, told),
        Err(ConnectError::BringUp(e)) => exists|control: Rndis<UsbControlTransport<I>>|
            control.made_with().serves(interface, number, interrupt_in)
                && #[trigger] bring_up_failed(control, e),
    }
}

/// Whether the call was really made and came out like this.
pub open spec fn happened<B: UsbBackend>(backend: &B, call: Call<B>) -> bool {
    match call {
        Call::List(r) => call_ensures(B::list, (backend,), r),
        Call::Open(id, r) => call_ensures(B::open, (backend, id), r),
        Call::Configurations(d, r) => call_ensures(
            <B::Device as UsbDevice>::configurations,
            (&d,),
            r,
        ),
        Call::ActiveConfiguration(d, r) => call_ensures(
            <B::Device as UsbDevice>::active_configuration,
            (&d,),
            r,
        ),
        Call::SetConfiguration(d, value, r) => call_ensures(
            <B::Device as UsbDevice>::set_configuration,
            (&d, value),
            r,
        ),
        Call::Claim(d, number, r) => call_ensures(
            <B::Device as UsbDevice>::claim_interface,
            (&d, number),
            r,
        ),
        Call::SetAltSetting(i, alt, r) => call_ensures(
            <InterfaceOf<B> as UsbInterface>::set_alt_setting,
            (&i, alt),
            r,
        ),
        Call::Connect(i, number, interrupt_in, r) => connected(i, number, interrupt_in, r),
        Call::OpenIn(i, address, ty, r) => call_ensures(
            <InterfaceOf<B> as UsbInterface>::open_in,
            (&i, address, ty),
            r,
        ),
        Call::OpenOut(i, address, ty, r) => call_ensures(
            <InterfaceOf<B> as UsbInterface>::open_out,
            (&i, address, ty),
            r,
        ),
    }
}

/// A device that was opened.
pub struct Opened<D> {
    device: D,
}

impl<D> Opened<D> {
    pub closed spec fn device(&self) -> D {
        self.device
    }
}

/// An interface that was claimed.
pub struct Claimed<I> {
    interface: I,
}

impl<I> Claimed<I> {
    pub closed spec fn interface(&self) -> I {
        self.interface
    }
}

/// How opening came out, sealed or not.
pub open spec fn unsealed<D>(r: UsbResult<Opened<D>>) -> UsbResult<D> {
    match r {
        Ok(d) => Ok(d.device()),
        Err(e) => Err(e),
    }
}

/// How claiming came out, sealed or not.
pub open spec fn unsealed_claim<I>(r: UsbResult<Claimed<I>>) -> UsbResult<I> {
    match r {
        Ok(i) => Ok(i.interface()),
        Err(e) => Err(e),
    }
}

pub struct Bus<'a, B: UsbBackend> {
    backend: &'a B,
    log: Ghost<Seq<Call<B>>>,
}

impl<'a, B: UsbBackend> Bus<'a, B> {
    /// The backend.
    pub closed spec fn backend(&self) -> &'a B {
        self.backend
    }

    /// Every call, oldest first.
    pub closed spec fn log(&self) -> Seq<Call<B>> {
        self.log@
    }

    /// Whether this is `before` after one more call, which was really made.
    pub open spec fn made(&self, before: &Self, call: Call<B>) -> bool {
        &&& self.backend() == before.backend()
        &&& self.log() == before.log().push(call)
        &&& happened(self.backend(), call)
    }

    /// Whether this is `before` after the calls `calls`, which were really made.
    pub open spec fn made_all(&self, before: &Self, calls: Seq<Call<B>>) -> bool {
        &&& self.backend() == before.backend()
        &&& self.log() == before.log() + calls
        &&& forall|i: int| 0 <= i < calls.len() ==> happened(self.backend(), #[trigger] calls[i])
    }

    pub fn new(backend: &'a B) -> (r: Self)
        ensures
            r.backend() == backend,
            r.log() == Seq::<Call<B>>::empty(),
    {
        Bus { backend, log: Ghost(Seq::empty()) }
    }

    pub fn list(&mut self) -> (r: UsbResult<Vec<DeviceInfo>>)
        ensures
            final(self).made(old(self), Call::List(r)),
    {
        let r = self.backend.list();
        self.log = Ghost(self.log@.push(Call::List(r)));
        r
    }

    pub fn open(&mut self, id: DeviceId) -> (r: UsbResult<Opened<B::Device>>)
        ensures
            final(self).made(old(self), Call::Open(id, unsealed(r))),
    {
        let opened = self.backend.open(id);
        self.log = Ghost(self.log@.push(Call::Open(id, opened)));
        match opened {
            Ok(device) => Ok(Opened { device }),
            Err(e) => Err(e),
        }
    }

    pub fn configurations(&mut self, d: &Opened<B::Device>) -> (r: UsbResult<Vec<ConfigDescriptor>>)
        ensures
            final(self).made(old(self), Call::Configurations(d.device(), r)),
    {
        let r = d.device.configurations();
        self.log = Ghost(self.log@.push(Call::Configurations(d.device, r)));
        r
    }

    pub fn active_configuration(&mut self, d: &Opened<B::Device>) -> (r: UsbResult<u8>)
        ensures
            final(self).made(old(self), Call::ActiveConfiguration(d.device(), r)),
    {
        let r = d.device.active_configuration();
        self.log = Ghost(self.log@.push(Call::ActiveConfiguration(d.device, r)));
        r
    }

    pub fn set_configuration(&mut self, d: &Opened<B::Device>, value: u8) -> (r: UsbResult<()>)
        ensures
            final(self).made(old(self), Call::SetConfiguration(d.device(), value, r)),
    {
        let r = d.device.set_configuration(value);
        self.log = Ghost(self.log@.push(Call::SetConfiguration(d.device, value, r)));
        r
    }

    pub fn claim_interface(&mut self, d: &Opened<B::Device>, number: u8) -> (r: UsbResult<
        Claimed<InterfaceOf<B>>,
    >)
        ensures
            final(self).made(old(self), Call::Claim(d.device(), number, unsealed_claim(r))),
    {
        let claimed = d.device.claim_interface(number);
        self.log = Ghost(self.log@.push(Call::Claim(d.device, number, claimed)));
        match claimed {
            Ok(interface) => Ok(Claimed { interface }),
            Err(e) => Err(e),
        }
    }

    pub fn set_alt_setting(&mut self, i: &Claimed<InterfaceOf<B>>, alt: u8) -> (r: UsbResult<()>)
        ensures
            final(self).made(old(self), Call::SetAltSetting(i.interface(), alt, r)),
    {
        let r = i.interface.set_alt_setting(alt);
        self.log = Ghost(self.log@.push(Call::SetAltSetting(i.interface, alt, r)));
        r
    }

    /// Run the RNDIS bring-up sequence over a claimed control interface.
    pub fn connect(
        &mut self,
        control: Claimed<InterfaceOf<B>>,
        number: u8,
        interrupt_in: Option<u8>,
    ) -> (r: Result<(Session, ControlOf<B>), ConnectError>)
        ensures
            final(self).made(
                old(self),
                Call::Connect(control.interface(), number, interrupt_in, r),
            ),
    {
        let ghost interface = control.interface;
        let r = connect(Port::new(control.interface), number, interrupt_in);
        self.log = Ghost(self.log@.push(Call::Connect(interface, number, interrupt_in, r)));
        r
    }

    pub fn open_in(&mut self, i: &Claimed<InterfaceOf<B>>, address: u8, ty: TransferType) -> (r:
        UsbResult<InOf<B>>)
        ensures
            final(self).made(old(self), Call::OpenIn(i.interface(), address, ty, r)),
    {
        let r = i.interface.open_in(address, ty);
        self.log = Ghost(self.log@.push(Call::OpenIn(i.interface, address, ty, r)));
        r
    }

    pub fn open_out(&mut self, i: &Claimed<InterfaceOf<B>>, address: u8, ty: TransferType) -> (r:
        UsbResult<OutOf<B>>)
        ensures
            final(self).made(old(self), Call::OpenOut(i.interface(), address, ty, r)),
    {
        let r = i.interface.open_out(address, ty);
        self.log = Ghost(self.log@.push(Call::OpenOut(i.interface, address, ty, r)));
        r
    }
}

/// One more call behind some calls.
pub proof fn lemma_made_more<B: UsbBackend>(
    start: &Bus<'_, B>,
    before: &Bus<'_, B>,
    after: &Bus<'_, B>,
    calls: Seq<Call<B>>,
    call: Call<B>,
)
    requires
        before.made_all(start, calls),
        after.made(before, call),
    ensures
        after.made_all(start, calls.push(call)),
{
    let all = calls.push(call);
    assert(after.log() =~= start.log() + all);
    assert forall|i: int| 0 <= i < all.len() implies happened(
        after.backend(),
        #[trigger] all[i],
    ) by {
        if i < calls.len() {
            assert(all[i] == calls[i]);
        }
    }
}

fn connect<I: UsbInterface>(port: Port<I>, number: u8, interrupt_in: Option<u8>) -> (r: Result<
    (Session, Rndis<UsbControlTransport<I>>),
    ConnectError,
>)
    ensures
        connected(port.interface(), number, interrupt_in, r),
{
    reveal(is_up);
    reveal(bring_up_failed);
    let transport = match UsbControlTransport::new(port, number, interrupt_in) {
        Ok(t) => t,
        Err((_, e)) => return Err(ConnectError::Transport(e)),
    };
    let mut control = Rndis::new(transport);
    match control.bring_up() {
        Ok(session) => Ok((session, control)),
        Err(e) => {
            assert(bring_up_failed(control, e));
            Err(ConnectError::BringUp(e))
        },
    }
}

/// A channel that is connected was brought up from its first request on, and its session
/// is what the device said of itself in answer to that request.
pub proof fn connected_channels_hold_what_the_device_said<I: UsbInterface>(
    interface: I,
    number: u8,
    interrupt_in: Option<u8>,
    session: Session,
    control: Rndis<UsbControlTransport<I>>,
)
    requires
        connected(interface, number, interrupt_in, Ok((session, control))),
    ensures
        control.made_with().interface() == interface,
        control.made_with().number() == number,
        sent_words(control.log(), 0, seq![2u32, 24, 1, 1, 0, 16384]),
        exists|i: int|
            {
                let reply = reply_at(control.log(), i);
                &&& 0 < i < control.log().len()
                &&& #[trigger] completed(control.log(), i, 0x8000_0002, 1)
                &&& session.device_max_transfer_size == le32_at(reply, 36)
                &&& session.max_packets_per_transfer == (if le32_at(reply, 32) == 0 {
                    1
                } else {
                    le32_at(reply, 32)
                })
            },
        control.link() != LinkState::Unknown,
{
    reveal(is_up);
    sessions_are_what_the_device_said(control.log(), 0, 1, LinkState::Unknown);
    session_is_usable(control.log(), 0, 1, LinkState::Unknown);
}

} // verus!
