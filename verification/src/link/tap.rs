//! A sink together with a record of what it was handed.
//!
//! The record exists for specification only: handing a packet over adds exactly
//! that packet.

use vstd::prelude::*;

use crate::link::sink::IpSink;

verus! {

pub struct Tap<S> {
    sink: S,
    handed: Ghost<Seq<Seq<u8>>>,
}

impl<S> Tap<S> {
    /// The sink.
    pub closed spec fn sink(&self) -> S {
        self.sink
    }

    /// Every packet it was handed, oldest first.
    pub closed spec fn handed(&self) -> Seq<Seq<u8>> {
        self.handed@
    }
}

impl<S: IpSink> Tap<S> {
    pub fn new(sink: S) -> (r: Self)
        ensures
            r.sink() == sink,
            r.handed() == Seq::<Seq<u8>>::empty(),
    {
        Tap { sink, handed: Ghost(Seq::empty()) }
    }

    pub fn deliver(&mut self, packet: &[u8])
        ensures
            call_ensures(S::deliver, (&old(self).sink(), packet), ()),
            final(self).sink() == old(self).sink(),
            final(self).handed() == old(self).handed().push(packet@),
    {
        self.sink.deliver(packet);
        self.handed = Ghost(self.handed@.push(packet@));
    }
}

} // verus!
