//! The control endpoint together with a record of everything that passed over
//! it.
//!
//! The record exists for specification only: each method that touches the
//! endpoint or the clock adds exactly what happened, so a contract can say what
//! was sent and how a result follows from what the device answered.

use vstd::prelude::*;

use crate::rndis::error::Result;
use crate::time::{Clock, Duration, Instant};

verus! {

/// The USB control endpoint, as the RNDIS layer needs it.
pub trait ControlTransport {
    /// `SEND_ENCAPSULATED_COMMAND`
    fn send(&mut self, msg: &[u8]) -> Result<()>;

    /// `GET_ENCAPSULATED_RESPONSE`. An empty vec means nothing was pending.
    fn receive(&mut self) -> Result<Vec<u8>>;

    /// Block until the device raises RESPONSE_AVAILABLE, or `timeout` elapses.
    /// Implementations without an interrupt endpoint may just sleep.
    fn await_response(&mut self, timeout: Duration) -> Result<()>;
}

/// One thing that happened on the control channel.
#[verifier::ext_equal]
pub enum Event {
    Sent { message: Seq<u8>, outcome: Result<()> },
    Waited { timeout: Duration, outcome: Result<()> },
    Heard { reply: Result<Seq<u8>> },
    Clock { now: Instant },
}

/// A received message as its bytes.
pub open spec fn bytes_of(r: Result<Vec<u8>>) -> Result<Seq<u8>> {
    match r {
        Ok(v) => Ok(v@),
        Err(e) => Err(e),
    }
}

/// Whether `log` continues `earlier`.
pub open spec fn extends(log: Seq<Event>, earlier: Seq<Event>) -> bool {
    &&& earlier.len() <= log.len()
    &&& forall|i: int| 0 <= i < earlier.len() ==> #[trigger] log[i] == earlier[i]
}

pub struct Channel<T> {
    transport: T,
    clock: Clock,
    made_with: Ghost<T>,
    log: Ghost<Seq<Event>>,
}

impl<T> Channel<T> {
    /// Everything that happened so far, oldest first.
    pub closed spec fn log(&self) -> Seq<Event> {
        self.log@
    }

    /// The transport as it was handed over.
    pub closed spec fn made_with(&self) -> T {
        self.made_with@
    }

    /// The transport as it stands.
    pub closed spec fn transport(&self) -> T {
        self.transport
    }

    /// The clock it goes by.
    pub closed spec fn clock(&self) -> Clock {
        self.clock
    }
}

impl<T: ControlTransport> Channel<T> {
    pub fn new(transport: T) -> (r: Self)
        ensures
            r.log() == Seq::<Event>::empty(),
            r.made_with() == transport,
            r.transport() == transport,
    {
        let made_with = Ghost(transport);
        Channel { transport, clock: Clock::new(), made_with, log: Ghost(Seq::empty()) }
    }

    /// The transport itself; what is done to it leaves the record alone.
    pub fn transport_mut(&mut self) -> (r: &mut T)
        ensures
            *r == old(self).transport(),
            final(self).transport() == *final(r),
            final(self).log() == old(self).log(),
            final(self).made_with() == old(self).made_with(),
            final(self).clock() == old(self).clock(),
    {
        &mut self.transport
    }

    pub fn send(&mut self, msg: &[u8]) -> (r: Result<()>)
        ensures
            exists|t: &mut T|
                {
                    &&& #[trigger] call_ensures(T::send, (t, msg), r)
                    &&& *t == old(self).transport()
                    &&& *final(t) == final(self).transport()
                },
            final(self).log() == old(self).log().push(Event::Sent { message: msg@, outcome: r }),
            final(self).made_with() == old(self).made_with(),
            final(self).clock() == old(self).clock(),
    {
        let r = self.transport.send(msg);
        self.log = Ghost(self.log@.push(Event::Sent { message: msg@, outcome: r }));
        r
    }

    pub fn receive(&mut self) -> (r: Result<Vec<u8>>)
        ensures
            exists|t: &mut T|
                {
                    &&& #[trigger] call_ensures(T::receive, (t,), r)
                    &&& *t == old(self).transport()
                    &&& *final(t) == final(self).transport()
                },
            final(self).log() == old(self).log().push(Event::Heard { reply: bytes_of(r) }),
            final(self).made_with() == old(self).made_with(),
            final(self).clock() == old(self).clock(),
    {
        let r = self.transport.receive();
        self.log = Ghost(self.log@.push(Event::Heard { reply: bytes_of(r) }));
        r
    }

    pub fn await_response(&mut self, timeout: Duration) -> (r: Result<()>)
        ensures
            exists|t: &mut T|
                {
                    &&& #[trigger] call_ensures(T::await_response, (t, timeout), r)
                    &&& *t == old(self).transport()
                    &&& *final(t) == final(self).transport()
                },
            final(self).log() == old(self).log().push(Event::Waited { timeout, outcome: r }),
            final(self).made_with() == old(self).made_with(),
            final(self).clock() == old(self).clock(),
    {
        let r = self.transport.await_response(timeout);
        self.log = Ghost(self.log@.push(Event::Waited { timeout, outcome: r }));
        r
    }

    pub fn now(&mut self) -> (r: Instant)
        ensures
            old(self).clock().reads(r),
            final(self).log() == old(self).log().push(Event::Clock { now: r }),
            final(self).made_with() == old(self).made_with(),
            final(self).transport() == old(self).transport(),
            final(self).clock() == old(self).clock(),
    {
        let r = self.clock.now();
        self.log = Ghost(self.log@.push(Event::Clock { now: r }));
        r
    }
}

} // verus!
