//! Where inbound IP packets go.

use vstd::prelude::*;

use crate::link::tap::Tap;

verus! {

/// Where inbound IP packets go. Replaced by the utun writer once it exists.
pub trait IpSink: Send + Sync {
    fn deliver(&self, packet: &[u8]);
}

/// The RX thread starts before the tunnel exists, so the real sink is swapped
/// in once utun is up. Packets arriving before that are counted and dropped.
pub struct SwitchableSink<S> {
    pub inner: Option<Tap<S>>,
    pub delivered: u64,
    pub bytes_in: u64,
    pub dropped: u64,
}

/// `n` more, around at the end.
pub open spec fn counted(count: u64, n: int) -> u64 {
    ((count + n) % 0x1_0000_0000_0000_0000) as u64
}

impl<S: IpSink> SwitchableSink<S> {
    pub fn new() -> (r: Self)
        ensures
            r.inner is None,
            r.delivered == 0,
            r.bytes_in == 0,
            r.dropped == 0,
    {
        SwitchableSink { inner: None, delivered: 0, bytes_in: 0, dropped: 0 }
    }

    pub fn attach(&mut self, sink: S)
        ensures
            final(self).inner is Some,
            final(self).inner->0.sink() == sink,
            final(self).inner->0.handed() == Seq::<Seq<u8>>::empty(),
            final(self).delivered == old(self).delivered,
            final(self).bytes_in == old(self).bytes_in,
            final(self).dropped == old(self).dropped,
    {
        self.inner = Some(Tap::new(sink));
    }

    pub fn detach(&mut self)
        ensures
            final(self).inner is None,
            final(self).delivered == old(self).delivered,
            final(self).bytes_in == old(self).bytes_in,
            final(self).dropped == old(self).dropped,
    {
        self.inner = None;
    }

    /// Hand a packet to the attached sink, once, or count it as dropped.
    pub fn deliver(&mut self, packet: &[u8])
        ensures
            match (old(self).inner, final(self).inner) {
                (Some(before), Some(after)) => {
                    &&& call_ensures(S::deliver, (&before.sink(), packet), ())
                    &&& after.sink() == before.sink()
                    &&& after.handed() == before.handed().push(packet@)
                    &&& final(self).delivered == counted(old(self).delivered, 1)
                    &&& final(self).bytes_in == counted(
                        old(self).bytes_in,
                        packet@.len() as int,
                    )
                    &&& final(self).dropped == old(self).dropped
                },
                (None, None) => {
                    &&& final(self).delivered == old(self).delivered
                    &&& final(self).bytes_in == old(self).bytes_in
                    &&& final(self).dropped == counted(old(self).dropped, 1)
                },
                _ => false,
            },
            old(self).delivered + old(self).dropped < u64::MAX ==> final(self).delivered
                + final(self).dropped == old(self).delivered + old(self).dropped + 1,
    {
        match self.inner.take() {
            Some(mut sink) => {
                self.delivered = self.delivered.wrapping_add(1);
                self.bytes_in = self.bytes_in.wrapping_add(packet.len() as u64);
                sink.deliver(packet);
                self.inner = Some(sink);
            },
            None => {
                self.dropped = self.dropped.wrapping_add(1);
            },
        }
    }
}

/// Counting adds, and starts over past the largest count.
pub proof fn counting_adds(count: u64, n: u64)
    ensures
        count + n <= u64::MAX ==> counted(count, n as int) == count + n,
        count + n > u64::MAX ==> counted(count, n as int) == count + n - u64::MAX - 1,
{
}

} // verus!
