//! Endpoints together with a record of what was asked of them.
//!
//! The record exists for specification only: each method adds exactly what
//! happened.

use vstd::prelude::*;

use crate::time::Duration;
use crate::usb::backend::{InEndpoint, OutEndpoint};
use crate::usb::error::Result;

verus! {

/// One thing that happened on a read endpoint.
#[verifier::ext_equal]
pub enum InEvent {
    Submitted { len: usize },
    Waited { timeout: Duration, outcome: Option<Result<Seq<u8>>> },
}

/// A finished read as its bytes.
pub open spec fn read_of(r: Option<Result<Vec<u8>>>) -> Option<Result<Seq<u8>>> {
    match r {
        None => None,
        Some(Ok(v)) => Some(Ok(v@)),
        Some(Err(e)) => Some(Err(e)),
    }
}

/// How many reads are in flight after `log`: each submission adds one, each
/// completion takes one away.
pub open spec fn in_flight(log: Seq<InEvent>) -> int
    decreases log.len(),
{
    if log.len() == 0 {
        0
    } else {
        in_flight(log.drop_last()) + match log.last() {
            InEvent::Submitted { .. } => 1int,
            InEvent::Waited { outcome: Some(_), .. } => -1int,
            InEvent::Waited { outcome: None, .. } => 0int,
        }
    }
}

pub struct InQueue<E> {
    endpoint: E,
    made_with: Ghost<E>,
    log: Ghost<Seq<InEvent>>,
}

impl<E> InQueue<E> {
    /// Everything that happened so far, oldest first.
    pub closed spec fn log(&self) -> Seq<InEvent> {
        self.log@
    }

    /// The endpoint as it was handed over.
    pub closed spec fn made_with(&self) -> E {
        self.made_with@
    }

    /// The endpoint as it stands.
    pub closed spec fn endpoint(&self) -> E {
        self.endpoint
    }
}

impl<E: InEndpoint> InQueue<E> {
    pub fn new(endpoint: E) -> (r: Self)
        ensures
            r.log() == Seq::<InEvent>::empty(),
            r.made_with() == endpoint,
            r.endpoint() == endpoint,
    {
        let made_with = Ghost(endpoint);
        InQueue { endpoint, made_with, log: Ghost(Seq::empty()) }
    }

    pub fn submit(&mut self, len: usize)
        ensures
            exists|t: &mut E|
                {
                    &&& #[trigger] call_ensures(E::submit, (t, len), ())
                    &&& *t == old(self).endpoint()
                    &&& *final(t) == final(self).endpoint()
                },
            final(self).log() == old(self).log().push(InEvent::Submitted { len }),
            in_flight(final(self).log()) == in_flight(old(self).log()) + 1,
            final(self).made_with() == old(self).made_with(),
    {
        self.endpoint.submit(len);
        self.log = Ghost(self.log@.push(InEvent::Submitted { len }));
        assert(self.log@.drop_last() =~= old(self).log@);
    }

    pub fn wait(&mut self, timeout: Duration) -> (r: Option<Result<Vec<u8>>>)
        ensures
            exists|t: &mut E|
                {
                    &&& #[trigger] call_ensures(E::wait, (t, timeout), r)
                    &&& *t == old(self).endpoint()
                    &&& *final(t) == final(self).endpoint()
                },
            final(self).log() == old(self).log().push(
                InEvent::Waited { timeout, outcome: read_of(r) },
            ),
            in_flight(final(self).log()) == in_flight(old(self).log()) - (if r is Some {
                1int
            } else {
                0int
            }),
            final(self).made_with() == old(self).made_with(),
    {
        let r = self.endpoint.wait(timeout);
        self.log = Ghost(self.log@.push(InEvent::Waited { timeout, outcome: read_of(r) }));
        assert(self.log@.drop_last() =~= old(self).log@);
        r
    }
}

/// One thing that happened on a write endpoint.
#[verifier::ext_equal]
pub enum OutEvent {
    Counted { pending: usize },
    Submitted { data: Seq<u8> },
    Waited { timeout: Duration, outcome: Option<Result<()>> },
    Asked { stop: bool },
}

/// Something that can ask for an end.
pub trait StopFlag {
    fn is_set(&self) -> bool;
}

pub struct OutQueue<E> {
    endpoint: E,
    log: Ghost<Seq<OutEvent>>,
}

impl<E> OutQueue<E> {
    /// The endpoint as it stands.
    pub closed spec fn endpoint(&self) -> E {
        self.endpoint
    }

    /// Everything that happened so far, oldest first.
    pub closed spec fn log(&self) -> Seq<OutEvent> {
        self.log@
    }
}

/// Whether `log` continues `earlier`.
pub open spec fn out_extends(log: Seq<OutEvent>, earlier: Seq<OutEvent>) -> bool {
    &&& earlier.len() <= log.len()
    &&& forall|i: int| 0 <= i < earlier.len() ==> #[trigger] log[i] == earlier[i]
}

impl<E: OutEndpoint> OutQueue<E> {
    pub fn new(endpoint: E) -> (r: Self)
        ensures
            r.log() == Seq::<OutEvent>::empty(),
            r.endpoint() == endpoint,
    {
        OutQueue { endpoint, log: Ghost(Seq::empty()) }
    }

    pub fn max_packet_size(&self) -> (r: usize)
        ensures
            call_ensures(E::max_packet_size, (&self.endpoint(),), r),
    {
        self.endpoint.max_packet_size()
    }

    pub fn pending(&mut self) -> (r: usize)
        ensures
            call_ensures(E::pending, (&old(self).endpoint(),), r),
            final(self).endpoint() == old(self).endpoint(),
            final(self).log() == old(self).log().push(OutEvent::Counted { pending: r }),
    {
        let r = self.endpoint.pending();
        self.log = Ghost(self.log@.push(OutEvent::Counted { pending: r }));
        r
    }

    pub fn submit(&mut self, data: Vec<u8>)
        ensures
            exists|t: &mut E|
                {
                    &&& #[trigger] call_ensures(E::submit, (t, data), ())
                    &&& *t == old(self).endpoint()
                    &&& *final(t) == final(self).endpoint()
                },
            final(self).log() == old(self).log().push(OutEvent::Submitted { data: data@ }),
    {
        let ghost bytes = data@;
        self.endpoint.submit(data);
        self.log = Ghost(self.log@.push(OutEvent::Submitted { data: bytes }));
    }

    pub fn wait(&mut self, timeout: Duration) -> (r: Option<Result<()>>)
        ensures
            exists|t: &mut E|
                {
                    &&& #[trigger] call_ensures(E::wait, (t, timeout), r)
                    &&& *t == old(self).endpoint()
                    &&& *final(t) == final(self).endpoint()
                },
            final(self).log() == old(self).log().push(OutEvent::Waited { timeout, outcome: r }),
    {
        let r = self.endpoint.wait(timeout);
        self.log = Ghost(self.log@.push(OutEvent::Waited { timeout, outcome: r }));
        r
    }

    pub fn ask<S: StopFlag>(&mut self, stop: &S) -> (r: bool)
        ensures
            call_ensures(S::is_set, (stop,), r),
            final(self).endpoint() == old(self).endpoint(),
            final(self).log() == old(self).log().push(OutEvent::Asked { stop: r }),
    {
        let r = stop.is_set();
        self.log = Ghost(self.log@.push(OutEvent::Asked { stop: r }));
        r
    }
}

} // verus!
