//! `ControlTransport` over the USB control endpoint of the RNDIS control
//! interface, with the interrupt endpoint as the response signal.

use vstd::prelude::*;

use crate::rndis::channel::ControlTransport;
use crate::rndis::error::{Error as RndisError, Result as RndisResult};
use crate::rndis::wire;
use crate::time::{secs, Duration};
use crate::usb::backend::{ControlSetup, UsbInterface};
use crate::usb::descriptor::TransferType;
use crate::usb::error::{Result as UsbResult, UsbError};
use crate::usb::port::{failure_of, Port, PortEvent};
use crate::usb::queue::{in_flight, read_of, InEvent, InQueue};

verus! {

/// Reads kept queued on the interrupt endpoint.
pub const NOTIFY_DEPTH: usize = 2;

/// Bytes asked for by each of them.
pub const NOTIFY_LEN: usize = 8;

/// How long one control transfer may take.
pub open spec fn control_timeout() -> Duration {
    secs(2)
}

/// A USB failure, told to the RNDIS layer.
pub fn transport_error(e: UsbError) -> (r: RndisError)
    ensures
        is_told_as(e, r),
{
    RndisError::Transport(e.message())
}

/// Whether `told` is how the RNDIS layer hears of `e`.
pub open spec fn is_told_as(e: UsbError, told: RndisError) -> bool {
    match told {
        RndisError::Transport(text) => text@ == e.text(),
        _ => false,
    }
}

/// Whether `r` is the outcome `x` of a USB call, told to the RNDIS layer.
pub open spec fn passes_on<A>(x: UsbResult<A>, r: RndisResult<A>) -> bool {
    match (x, r) {
        (Ok(a), Ok(b)) => a == b,
        (Err(e), Err(told)) => is_told_as(e, told),
        _ => false,
    }
}

/// A class request of the control interface `number`.
pub open spec fn request_setup(number: u8, request: u8) -> ControlSetup {
    ControlSetup { request, value: 0, index: number as u16 }
}

/// What is asked of an interface to hear of responses: where it has an interrupt
/// endpoint that is opened, once; otherwise nothing.
pub open spec fn opening_calls(interrupt_in: Option<u8>, failure: Option<UsbError>) -> Seq<
    PortEvent,
> {
    match interrupt_in {
        Some(address) => seq![
            PortEvent::OpenedIn { address, ty: TransferType::Interrupt, failure },
        ],
        None => Seq::empty(),
    }
}

/// The reads that are queued on a new interrupt endpoint.
pub open spec fn first_reads() -> Seq<InEvent> {
    seq![InEvent::Submitted { len: NOTIFY_LEN }, InEvent::Submitted { len: NOTIFY_LEN }]
}

/// Open the interrupt endpoint, if there is one, and queue the first reads on it.
fn open_notifications<I: UsbInterface>(port: &mut Port<I>, interrupt_in: Option<u8>) -> (r: UsbResult<
    Option<InQueue<I::In>>,
>)
    ensures
        final(port).interface() == old(port).interface(),
        final(port).log() == old(port).log() + opening_calls(interrupt_in, failure_of(r)),
        match r {
            Ok(Some(queue)) => {
                &&& interrupt_in is Some
                &&& queue.log() == first_reads()
                &&& in_flight(queue.log()) == NOTIFY_DEPTH
                &&& call_ensures(
                    I::open_in,
                    (&old(port).interface(), interrupt_in->0, TransferType::Interrupt),
                    Ok::<I::In, UsbError>(queue.made_with()),
                )
            },
            Ok(None) => interrupt_in is None,
            Err(e) => interrupt_in is Some && call_ensures(
                I::open_in,
                (&old(port).interface(), interrupt_in->0, TransferType::Interrupt),
                Err::<I::In, UsbError>(e),
            ),
        },
{
    let ghost start = port.log();
    match interrupt_in {
        Some(address) => {
            let opened = port.open_in(address, TransferType::Interrupt);
            assert(port.log() =~= start + opening_calls(interrupt_in, failure_of(opened)));
            match opened {
                Ok(ep) => {
                    let mut queue = InQueue::new(ep);
                    queue.submit(NOTIFY_LEN);
                    queue.submit(NOTIFY_LEN);
                    assert(queue.log() =~= first_reads());
                    Ok(Some(queue))
                },
                Err(e) => Err(e),
            }
        },
        None => {
            assert(port.log() =~= start + opening_calls(interrupt_in, None));
            Ok(None)
        },
    }
}

pub struct UsbControlTransport<I: UsbInterface> {
    port: Port<I>,
    interface_number: u8,
    notify: Option<InQueue<I::In>>,
}

impl<I: UsbInterface> UsbControlTransport<I> {
    /// The control interface.
    pub closed spec fn interface(&self) -> I {
        self.port.interface()
    }

    /// Everything that was asked of it.
    pub closed spec fn calls(&self) -> Seq<PortEvent> {
        self.port.log()
    }

    /// Its number.
    pub closed spec fn number(&self) -> u8 {
        self.interface_number
    }

    /// What happened on the interrupt endpoint, if there is one.
    pub closed spec fn notifications(&self) -> Option<Seq<InEvent>> {
        match self.notify {
            Some(q) => Some(q.log()),
            None => None,
        }
    }

    /// The interrupt endpoint as it was opened, if there is one.
    pub closed spec fn endpoint(&self) -> Option<I::In> {
        match self.notify {
            Some(q) => Some(q.made_with()),
            None => None,
        }
    }

    /// Whether this speaks to interface `number`, claimed as `interface`, and hears
    /// of responses on its endpoint `interrupt_in`.
    pub open spec fn serves(&self, interface: I, number: u8, interrupt_in: Option<u8>) -> bool {
        &&& self.interface() == interface
        &&& self.number() == number
        &&& self.endpoint() is Some == interrupt_in is Some
        &&& interrupt_in is Some ==> call_ensures(
            I::open_in,
            (&interface, interrupt_in->0, TransferType::Interrupt),
            Ok::<I::In, UsbError>(self.endpoint()->0),
        )
    }

    /// Whether this is `before`, with more asked of it.
    pub open spec fn goes_on_from(&self, before: &Self) -> bool {
        &&& self.interface() == before.interface()
        &&& self.number() == before.number()
        &&& self.endpoint() == before.endpoint()
    }

    /// A transport over the interface of `port`. Without an interrupt endpoint nothing
    /// is asked of the interface; with one it is opened, once, and two reads are
    /// queued on it. The port comes back where that fails.
    pub fn new(port: Port<I>, interface_number: u8, interrupt_in: Option<u8>) -> (r: Result<
        Self,
        (Port<I>, RndisError),
    >)
        ensures
            match r {
                Ok(t) => {
                    &&& t.serves(port.interface(), interface_number, interrupt_in)
                    &&& t.calls() == port.log() + opening_calls(interrupt_in, None)
                    &&& t.notifications() is Some == interrupt_in is Some
                    &&& t.notifications() is Some ==> t.notifications()->0 == first_reads()
                        && in_flight(t.notifications()->0) == NOTIFY_DEPTH
                },
                Err((after, told)) => interrupt_in is Some && exists|e: UsbError|
                    {
                        &&& call_ensures(
                            I::open_in,
                            (&port.interface(), interrupt_in->0, TransferType::Interrupt),
                            Err::<I::In, UsbError>(e),
                        )
                        &&& #[trigger] is_told_as(e, told)
                        &&& after.interface() == port.interface()
                        &&& after.log() == port.log() + opening_calls(interrupt_in, Some(e))
                    },
            },
    {
        let mut port = port;
        match open_notifications(&mut port, interrupt_in) {
            Ok(notify) => Ok(UsbControlTransport { port, interface_number, notify }),
            Err(e) => Err((port, transport_error(e))),
        }
    }

    fn setup(&self, request: u8) -> (r: ControlSetup)
        ensures
            r == request_setup(self.number(), request),
    {
        ControlSetup { request, value: 0, index: self.interface_number as u16 }
    }
}

/// What a notification read does: whether the caller may go on to read a response.
/// A short or unexpected notification is harmless, as is none at all: the caller
/// polls anyway, matching how Linux polls the control channel.
pub open spec fn notified(outcome: Option<UsbResult<Seq<u8>>>, r: RndisResult<()>) -> bool {
    match outcome {
        Some(Err(e)) => r is Err && is_told_as(e, r->Err_0),
        _ => r is Ok,
    }
}

impl<I: UsbInterface> ControlTransport for UsbControlTransport<I> {
    fn send(&mut self, msg: &[u8]) -> (r: RndisResult<()>)
        ensures
            final(self).goes_on_from(old(self)),
            final(self).notifications() == old(self).notifications(),
            exists|x: UsbResult<()>|
                {
                    &&& call_ensures(
                        I::control_out,
                        (
                            &old(self).interface(),
                            request_setup(old(self).number(), wire::REQ_SEND_ENCAPSULATED),
                            msg,
                            control_timeout(),
                        ),
                        x,
                    )
                    &&& final(self).calls() == old(self).calls().push(
                        (PortEvent::Sent {
                            setup: request_setup(
                                old(self).number(),
                                wire::REQ_SEND_ENCAPSULATED,
                            ),
                            data: msg@,
                            timeout: control_timeout(),
                            outcome: x,
                        }),
                    )
                    &&& #[trigger] passes_on(x, r)
                },
    {
        let setup = self.setup(wire::REQ_SEND_ENCAPSULATED);
        let sent = self.port.control_out(setup, msg, Duration::from_secs(2));
        let ghost x = sent;
        let r = match sent {
            Ok(done) => Ok(done),
            Err(e) => Err(transport_error(e)),
        };
        assert(passes_on(x, r));
        r
    }

    fn receive(&mut self) -> (r: RndisResult<Vec<u8>>)
        ensures
            final(self).goes_on_from(old(self)),
            final(self).notifications() == old(self).notifications(),
            exists|x: UsbResult<Vec<u8>>|
                {
                    &&& call_ensures(
                        I::control_in,
                        (
                            &old(self).interface(),
                            request_setup(old(self).number(), wire::REQ_GET_ENCAPSULATED),
                            wire::MAX_CONTROL_MSG as u16,
                            control_timeout(),
                        ),
                        x,
                    )
                    &&& final(self).calls() == old(self).calls().push(
                        (PortEvent::Received {
                            setup: request_setup(
                                old(self).number(),
                                wire::REQ_GET_ENCAPSULATED,
                            ),
                            len: wire::MAX_CONTROL_MSG as u16,
                            timeout: control_timeout(),
                            reply: x,
                        }),
                    )
                    &&& #[trigger] passes_on(x, r)
                },
    {
        let setup = self.setup(wire::REQ_GET_ENCAPSULATED);
        let read = self.port.control_in(
            setup,
            wire::MAX_CONTROL_MSG as u16,
            Duration::from_secs(2),
        );
        let ghost x = read;
        let r = match read {
            Ok(data) => Ok(data),
            Err(e) => Err(transport_error(e)),
        };
        assert(passes_on(x, r));
        r
    }

    fn await_response(&mut self, timeout: Duration) -> (r: RndisResult<()>)
        ensures
            final(self).goes_on_from(old(self)),
            match (old(self).notifications(), final(self).notifications()) {
                (None, None) => {
                    &&& r is Ok
                    &&& call_ensures(I::pause, (&old(self).interface(), timeout), ())
                    &&& final(self).calls() == old(self).calls().push(
                        (PortEvent::Paused { timeout }),
                    )
                },
                (Some(before), Some(after)) => {
                    &&& final(self).calls() == old(self).calls()
                    &&& in_flight(after) == in_flight(before)
                    &&& exists|outcome: Option<UsbResult<Seq<u8>>>| #[trigger]
                        notified(outcome, r) && after == before.push(
                            (InEvent::Waited { timeout, outcome }),
                        ) + (if outcome is Some {
                            seq![InEvent::Submitted { len: NOTIFY_LEN }]
                        } else {
                            Seq::empty()
                        })
                },
                _ => false,
            },
    {
        match self.notify.take() {
            None => {
                // No status endpoint: fall back to polling GET_ENCAPSULATED_RESPONSE.
                self.port.pause(timeout);
                Ok(())
            },
            Some(mut notify) => {
                let ghost before = notify.log();
                let outcome = notify.wait(timeout);
                if outcome.is_some() {
                    notify.submit(NOTIFY_LEN);
                }
                let ghost after = notify.log();
                let ghost seen = read_of(outcome);
                self.notify = Some(notify);
                let r = match outcome {
                    Some(Err(e)) => Err(transport_error(e)),
                    // A short notification is harmless; the caller polls anyway.
                    Some(Ok(_)) => Ok(()),
                    // Timed out. The caller still tries a read, matching how Linux
                    // polls the control channel.
                    None => Ok(()),
                };
                proof {
                    assert(notified(seen, r));
                    assert(after =~= before.push((InEvent::Waited { timeout, outcome: seen })) + (
                    if seen is Some {
                        seq![InEvent::Submitted { len: NOTIFY_LEN }]
                    } else {
                        Seq::empty()
                    }));
                }
                r
            },
        }
    }
}

/// Commands and responses travel as the two encapsulated class requests of the control
/// interface, of at most a kilobyte and two seconds each; notifications are eight bytes,
/// two reads of them queued.
pub proof fn requests_are_the_encapsulated_ones(number: u8)
    ensures
        request_setup(number, wire::REQ_SEND_ENCAPSULATED) == (ControlSetup {
            request: 0,
            value: 0,
            index: number as u16,
        }),
        request_setup(number, wire::REQ_GET_ENCAPSULATED) == (ControlSetup {
            request: 1,
            value: 0,
            index: number as u16,
        }),
        wire::MAX_CONTROL_MSG == 1024,
        control_timeout().nanos == 2_000_000_000,
        first_reads().len() == 2,
        first_reads()[0] == (InEvent::Submitted { len: 8 }),
        first_reads()[1] == (InEvent::Submitted { len: 8 }),
{
}

/// An interrupt endpoint is opened if there is one, as one, and nothing else is.
pub proof fn only_the_interrupt_endpoint_is_opened(
    interrupt_in: Option<u8>,
    failure: Option<UsbError>,
)
    ensures
        interrupt_in is None ==> opening_calls(interrupt_in, failure).len() == 0,
        interrupt_in matches Some(a) ==> opening_calls(interrupt_in, failure) == seq![
            PortEvent::OpenedIn { address: a, ty: TransferType::Interrupt, failure },
        ],
{
}

/// Only a read that failed is told as a failure; a notification of any kind, and none in
/// time, let the caller go on.
pub proof fn only_failed_reads_are_failures(
    outcome: Option<UsbResult<Seq<u8>>>,
    r: RndisResult<()>,
)
    requires
        notified(outcome, r),
    ensures
        r is Err <==> (outcome matches Some(Err(_))),
        outcome matches Some(Err(e)) ==> (r matches Err(RndisError::Transport(text)) && text@
            == e.text()),
{
}

/// A USB call's result is passed on as it is, and its error in its own words.
pub proof fn results_are_passed_on<A>(x: UsbResult<A>, r: RndisResult<A>)
    requires
        passes_on(x, r),
    ensures
        x matches Ok(a) ==> r == Ok::<A, RndisError>(a),
        x matches Err(e) ==> (r matches Err(RndisError::Transport(text)) && text@ == e.text()),
{
}

} // verus!
