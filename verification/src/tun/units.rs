//! What opens tunnel units, together with a record of which were tried.
//!
//! The record exists for specification only: each try adds exactly that try.

use vstd::prelude::*;

use crate::tun::utun::{UnitError, UnitOpener};

verus! {

/// A unit that was tried, and how that came out.
pub struct Tried<D> {
    pub unit: u32,
    pub outcome: Result<D, UnitError>,
}

pub struct Units<O: UnitOpener> {
    opener: O,
    log: Ghost<Seq<Tried<O::Device>>>,
}

impl<O: UnitOpener> Units<O> {
    /// What opens them.
    pub closed spec fn opener(&self) -> O {
        self.opener
    }

    /// Every try, oldest first.
    pub closed spec fn log(&self) -> Seq<Tried<O::Device>> {
        self.log@
    }

    pub fn new(opener: O) -> (r: Self)
        ensures
            r.opener() == opener,
            r.log() == Seq::<Tried<O::Device>>::empty(),
    {
        Units { opener, log: Ghost(Seq::empty()) }
    }

    pub fn open_unit(&mut self, unit: u32) -> (r: Result<O::Device, UnitError>)
        ensures
            call_ensures(O::open_unit, (&old(self).opener(), unit), r),
            final(self).opener() == old(self).opener(),
            final(self).log() == old(self).log().push(Tried { unit, outcome: r }),
    {
        let r = self.opener.open_unit(unit);
        self.log = Ghost(self.log@.push(Tried { unit, outcome: r }));
        r
    }
}

} // verus!
