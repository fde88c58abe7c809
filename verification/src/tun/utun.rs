//! The `utun` device: a point-to-point, IP-only interface.
//!
//! Every read and write carries a 4-byte address-family header that is not
//! part of the packet.

use vstd::prelude::*;
use vstd::string::*;

use crate::bytes::{be32, put_be32, put_bytes};
use crate::tun::units::{Tried, Units};

verus! {

/// The 4-byte address family prefix on every packet.
pub const AF_HEADER_LEN: usize = 4;

/// Highest unit we will probe when no unit is specified.
pub const MAX_UNIT: u32 = 255;

/// The address families as the system numbers them.
#[derive(Clone, Copy, Debug, PartialEq, Eq, Structural)]
pub struct Families {
    pub inet: u32,
    pub inet6: u32,
}

/// The family of an IP packet, by its version; none for anything else.
pub open spec fn family_of(packet: Seq<u8>, families: Families) -> Option<u32> {
    if packet.len() == 0 {
        None
    } else if packet[0] / 16 == 4 {
        Some(families.inet)
    } else if packet[0] / 16 == 6 {
        Some(families.inet6)
    } else {
        None
    }
}

/// What to write for one IP packet: the address-family header and the packet.
/// Nothing is written for what is not IP.
pub fn frame_packet(packet: &[u8], families: Families) -> (r: Option<Vec<u8>>)
    ensures
        match r {
            Some(bytes) => family_of(packet@, families) is Some && bytes@ == be32(
                family_of(packet@, families)->0,
            ) + packet@,
            None => family_of(packet@, families) is None,
        },
{
    if packet.len() == 0 {
        return None;
    }
    let version: u8 = packet[0] / 16;
    let family: u32 = if version == 4 {
        families.inet
    } else if version == 6 {
        families.inet6
    } else {
        return None;
    };
    let mut bytes: Vec<u8> = Vec::new();
    put_be32(&mut bytes, family);
    put_bytes(&mut bytes, packet);
    assert(bytes@ =~= be32(family) + packet@);
    Some(bytes)
}

/// Drop the address-family header of the `n` bytes read into `buf`: the packet
/// moves to the front, and its length is returned. A read too short for a header
/// holds no packet.
pub fn strip_header(buf: &mut Vec<u8>, n: usize) -> (len: usize)
    requires
        n <= old(buf)@.len(),
    ensures
        final(buf)@.len() == old(buf)@.len(),
        n < AF_HEADER_LEN ==> len == 0 && final(buf)@ == old(buf)@,
        n >= AF_HEADER_LEN ==> len == n - AF_HEADER_LEN && final(buf)@.take(len as int)
            == old(buf)@.subrange(AF_HEADER_LEN as int, n as int) && final(buf)@.skip(len as int)
            == old(buf)@.skip(len as int),
{
    if n < AF_HEADER_LEN {
        return 0;
    }
    let len: usize = n - AF_HEADER_LEN;
    let ghost before = buf@;
    for i in 0..len
        invariant
            len == n - AF_HEADER_LEN,
            n <= before.len(),
            buf@.len() == before.len(),
            forall|j: int| 0 <= j < i ==> buf@[j] == before[j + 4],
            forall|j: int| i <= j < buf@.len() ==> buf@[j] == before[j],
    {
        let byte: u8 = buf[i + AF_HEADER_LEN];
        buf.set(i, byte);
    }
    assert(buf@.take(len as int) =~= before.subrange(4, n as int));
    assert(buf@.skip(len as int) =~= before.skip(len as int));
    len
}

/// The name in a buffer the kernel filled: everything up to the first NUL.
pub fn name_len(buf: &[u8]) -> (n: usize)
    ensures
        n <= buf@.len(),
        forall|i: int| 0 <= i < n ==> #[trigger] buf@[i] != 0,
        n < buf@.len() ==> buf@[n as int] == 0,
{
    for i in 0..buf.len()
        invariant
            forall|j: int| 0 <= j < i ==> #[trigger] buf@[j] != 0,
    {
        if buf[i] == 0 {
            return i;
        }
    }
    buf.len()
}

/// A span as the kernel wants it: seconds and microseconds.
#[derive(Clone, Copy, Debug, PartialEq, Eq, Structural)]
pub struct TimeVal {
    pub seconds: i64,
    pub micros: i32,
}

/// `a` by `b` towards zero.
pub open spec fn quotient(a: int, b: int) -> int {
    if a >= 0 {
        a / b
    } else {
        -((-a) / b)
    }
}

/// A read timeout of `millis` milliseconds: whole seconds, and microseconds over,
/// both with the sign of `millis`.
pub fn read_timeout(millis: i64) -> (r: TimeVal)
    ensures
        r.seconds == quotient(millis as int, 1000),
        r.micros == (millis - 1000 * quotient(millis as int, 1000)) * 1000,
{
    let seconds: i64 = millis / 1000;
    let rest: i64 = millis % 1000;
    TimeVal { seconds, micros: (rest * 1000) as i32 }
}

/// The number by which the kernel knows a unit: it counts from 1, so utun0 is
/// unit 1.
pub fn kernel_unit(unit: u32) -> (r: u32)
    requires
        unit < MAX_UNIT,
    ensures
        r == unit + 1,
{
    unit + 1
}

/// Why a unit could not be opened.
#[derive(Debug)]
pub enum UnitError {
    /// Someone else has it.
    Busy(String),
    /// Something that would defeat every unit equally — not being root, above all.
    Other(String),
}

/// Something that opens one unit at a time.
pub trait UnitOpener {
    type Device;

    fn open_unit(&self, unit: u32) -> Result<Self::Device, UnitError>;
}

/// Why no utun device could be opened.
#[derive(Debug)]
pub enum OpenError {
    /// Every unit is taken; the text is about the last one.
    NoneFree(String),
    Failed(String),
}

impl OpenError {
    pub open spec fn text(self) -> Seq<char> {
        match self {
            OpenError::NoneFree(last) => "no free utun device: "@ + last@,
            OpenError::Failed(why) => why@,
        }
    }

    /// The text shown for this error.
    pub fn message(&self) -> (s: String)
        ensures
            s@ == self.text(),
    {
        match self {
            OpenError::NoneFree(last) => {
                let mut s = "no free utun device: ".to_owned();
                s.append(last.as_str());
                s
            },
            OpenError::Failed(why) => why.clone(),
        }
    }
}

/// Whether the units tried, from the first on, are these: one after another from zero,
/// each but the last of them taken. The last is free, or fails for a reason that would
/// defeat every unit, or was the last there is.
pub open spec fn tried_in_order<D>(tries: Seq<Tried<D>>, r: Result<D, OpenError>) -> bool {
    &&& 0 < tries.len() <= MAX_UNIT
    &&& forall|i: int| 0 <= i < tries.len() ==> (#[trigger] tries[i]).unit == i
    &&& forall|i: int|
        0 <= i < tries.len() - 1 ==> (#[trigger] tries[i]).outcome is Err
            && tries[i].outcome->Err_0 is Busy
    &&& match r {
        Ok(device) => tries.last().outcome == Ok::<D, UnitError>(device),
        Err(OpenError::NoneFree(last)) => tries.len() == MAX_UNIT && tries.last().outcome == Err::<
            D,
            UnitError,
        >(UnitError::Busy(last)),
        Err(OpenError::Failed(why)) => tries.last().outcome == Err::<D, UnitError>(
            UnitError::Other(why),
        ),
    }
}

/// Open the first free utun device. Only a busy unit is worth trying another;
/// anything else applies to every unit and would just repeat.
pub fn open<O: UnitOpener>(units: &mut Units<O>) -> (r: Result<O::Device, OpenError>)
    ensures
        final(units).opener() == old(units).opener(),
        exists|tries: Seq<Tried<O::Device>>|
            {
                &&& final(units).log() == old(units).log() + tries
                &&& #[trigger] tried_in_order(tries, r)
                &&& forall|i: int|
                    0 <= i < tries.len() ==> call_ensures(
                        O::open_unit,
                        (&old(units).opener(), (#[trigger] tries[i]).unit),
                        tries[i].outcome,
                    )
            },
{
    let ghost start = units.log();
    let ghost mut tries: Seq<Tried<O::Device>> = Seq::empty();
    let mut last: String = String::new();
    assert(start =~= start + tries);
    for unit in 0..MAX_UNIT
        invariant
            start == old(units).log(),
            units.opener() == old(units).opener(),
            units.log() == start + tries,
            tries.len() == unit,
            forall|i: int| 0 <= i < tries.len() ==> (#[trigger] tries[i]).unit == i,
            forall|i: int|
                0 <= i < tries.len() ==> (#[trigger] tries[i]).outcome is Err
                    && tries[i].outcome->Err_0 is Busy,
            forall|i: int|
                0 <= i < tries.len() ==> call_ensures(
                    O::open_unit,
                    (&units.opener(), (#[trigger] tries[i]).unit),
                    tries[i].outcome,
                ),
            unit > 0 ==> tries.last().outcome == Err::<O::Device, UnitError>(
                UnitError::Busy(last),
            ),
    {
        let outcome = units.open_unit(unit);
        proof {
            tries = tries.push(Tried { unit, outcome });
            assert(units.log() =~= start + tries);
        }
        match outcome {
            Ok(device) => {
                let r = Ok(device);
                assert(tried_in_order(tries, r));
                return r;
            },
            Err(UnitError::Busy(why)) => {
                last = why;
            },
            Err(UnitError::Other(why)) => {
                let r = Err(OpenError::Failed(why));
                assert(tried_in_order(tries, r));
                return r;
            },
        }
    }
    let r = Err(OpenError::NoneFree(last));
    assert(tried_in_order(tries, r));
    r
}

/// A packet's family goes by the top half of its first byte: four and six are the two
/// versions of IP, and nothing else is one.
pub proof fn families_go_by_the_version(packet: Seq<u8>, families: Families)
    ensures
        family_of(packet, families) == (if packet.len() > 0 && 0x40 <= packet[0] < 0x50 {
            Some(families.inet)
        } else if packet.len() > 0 && 0x60 <= packet[0] < 0x70 {
            Some(families.inet6)
        } else {
            None
        }),
{
}

/// The first free unit is taken: units are tried from zero, all in front were busy, and
/// only a unit that is busy is passed over, up to the two hundred and fifty-fifth.
pub proof fn the_first_free_unit_is_taken<D>(tries: Seq<Tried<D>>, r: Result<D, OpenError>, i: int)
    requires
        tried_in_order(tries, r),
        0 <= i < tries.len(),
    ensures
        tries.len() <= 255,
        tries[i].unit == i,
        i < tries.len() - 1 ==> (tries[i].outcome matches Err(UnitError::Busy(_))),
        r matches Ok(d) ==> tries.last().outcome == Ok::<D, UnitError>(d),
        r matches Err(OpenError::Failed(why)) ==> tries.last().outcome == Err::<D, UnitError>(
            UnitError::Other(why),
        ),
        r matches Err(OpenError::NoneFree(why)) ==> tries.len() == 255 && tries.last().outcome
            == Err::<D, UnitError>(UnitError::Busy(why)),
{
}

/// Why no unit could be opened is said.
pub proof fn open_errors_say_what_went_wrong(what: String)
    ensures
        OpenError::NoneFree(what).text() == "no free utun device: "@ + what@,
        OpenError::Failed(what).text() == what@,
{
}

} // verus!
