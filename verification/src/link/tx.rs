//! Packing outbound frames into bulk transfers.

use vstd::prelude::*;

use crate::rndis::control::Session;
use crate::rndis::error::Error;
use crate::rndis::packet;
use crate::rndis::packet::{
    batch, fits_a_message, frames, lemma_batch_then, lemma_packet_len, lemma_packet_then,
};
use crate::rndis::wire::DATA_HEADER_LEN;
use crate::time::{millis, Duration};
use crate::usb::backend::OutEndpoint;
use crate::usb::queue::{out_extends, OutEvent, OutQueue, StopFlag};

verus! {

/// Cap on writes in flight before the TX thread waits for a completion.
pub const TX_DEPTH: usize = 8;

/// What the device said it can accept in one bulk transfer.
#[derive(Clone, Copy, Debug, PartialEq, Eq, Structural)]
pub struct TxLimits {
    pub max_transfer_size: usize,
    /// `MaxPacketsPerTransfer`. The stock Linux gadget reports 1, which
    /// disables batching; vendors that patched theirs report more.
    pub max_packets: usize,
    pub alignment: usize,
}

impl TxLimits {
    /// The limits a device named during bring-up.
    pub fn of_session(session: &Session) -> (r: Self)
        ensures
            r.max_transfer_size == session.device_max_transfer_size,
            r.max_packets == session.max_packets_per_transfer,
            r.alignment == session.packet_alignment,
            plausible(r),
    {
        TxLimits {
            max_transfer_size: session.device_max_transfer_size as usize,
            max_packets: session.max_packets_per_transfer as usize,
            alignment: session.packet_alignment as usize,
        }
    }
}

/// One bulk transfer as its bytes and the number of frames.
#[verifier::ext_equal]
pub struct TransferView {
    pub data: Seq<u8>,
    pub packets: nat,
}

/// A transfer that was handed to the endpoint.
#[derive(Clone, Copy, Debug, PartialEq, Eq, Structural)]
pub struct Sent {
    /// How many frames it carries.
    pub packets: u64,
    /// How long it is.
    pub bytes: u64,
}

/// What waits in a transfer that is being filled.
#[verifier::ext_equal]
pub struct TxState {
    pub limits: TxLimits,
    pub max_packet: nat,
    pub frames: Seq<Seq<u8>>,
}

/// A transfer as it is sent. One that is an exact multiple of the packet size would need
/// a zero-length packet to terminate; one byte past the last message is cheaper, and
/// every parser stops before a partial header. A transfer that fills what the device
/// takes ends there by itself.
pub open spec fn terminated(data: Seq<u8>, max_packet: nat, limit: nat) -> Seq<u8> {
    if data.len() % max_packet == 0 && data.len() < limit {
        data.push(0)
    } else {
        data
    }
}

impl TxState {
    /// The most bytes that the device takes.
    pub open spec fn limit(self) -> nat {
        self.limits.max_transfer_size as nat
    }

    /// The messages gathered so far, each filled up to the alignment, so that another
    /// can follow.
    pub open spec fn data(self) -> Seq<u8> {
        batch(self.frames, self.limits.alignment as nat)
    }

    /// The messages as they are sent. Nothing follows the last one, so its filling is
    /// left off where it would go beyond what the device takes.
    pub open spec fn body(self) -> Seq<u8> {
        if self.frames.len() == 0 || self.data().len() <= self.limit() {
            self.data()
        } else {
            batch(self.frames.drop_last(), self.limits.alignment as nat) + packet::packet(
                self.frames.last(),
                1,
            )
        }
    }

    /// Whether `frame` still fits the transfer being built.
    pub open spec fn has_room(self, frame: Seq<u8>) -> bool {
        &&& self.frames.len() < self.limits.max_packets
        &&& self.data().len() + DATA_HEADER_LEN + frame.len() <= self.limits.max_transfer_size
    }

    /// Whether the transfer being built came about by adding frames that fit.
    pub open spec fn is_acceptable(self) -> bool {
        &&& self.frames.len() <= self.limits.max_packets
        &&& self.frames.len() > 0 ==> batch(
            self.frames.drop_last(),
            self.limits.alignment as nat,
        ).len() + DATA_HEADER_LEN + self.frames.last().len() <= self.limits.max_transfer_size
    }

    /// With `frame` at the end of the transfer.
    pub open spec fn with(self, frame: Seq<u8>) -> TxState {
        TxState { frames: self.frames.push(frame), ..self }
    }

    /// With nothing waiting.
    pub open spec fn emptied(self) -> TxState {
        TxState { frames: Seq::empty(), ..self }
    }

    /// The transfer that carries what waits.
    pub open spec fn transfer(self) -> Option<TransferView> {
        if self.frames.len() == 0 {
            None
        } else {
            Some(
                TransferView {
                    data: terminated(self.body(), self.max_packet, self.limit()),
                    packets: self.frames.len(),
                },
            )
        }
    }

    /// What becomes of a frame: it joins the transfer being built, or goes first
    /// in the next one, or is dropped because it fits none.
    pub open spec fn offered(self, frame: Seq<u8>) -> (Option<TransferView>, bool, TxState) {
        if self.has_room(frame) {
            (None, true, self.with(frame))
        } else if self.emptied().has_room(frame) {
            (self.transfer(), true, self.emptied().with(frame))
        } else {
            (self.transfer(), false, self.emptied())
        }
    }
}

/// Packs outbound frames into as few bulk transfers as the device allows.
pub struct Tx {
    limits: TxLimits,
    max_packet: usize,
    batch: Vec<u8>,
    packets: u64,
    /// Whether the filling of the last message was left off, so that nothing can follow.
    closed: bool,
    frames: Ghost<Seq<Seq<u8>>>,
}

impl View for Tx {
    type V = TxState;

    closed spec fn view(&self) -> TxState {
        TxState {
            limits: self.limits,
            max_packet: self.max_packet as nat,
            frames: self.frames@,
        }
    }
}

impl Tx {
    /// What every `Tx` keeps: the bytes and the count are those of the frames that
    /// wait, they make a transfer that the device takes, and packets have a size.
    pub closed spec fn valid(&self) -> bool {
        &&& self.max_packet > 0
        &&& self.packets == self.frames@.len()
        &&& self.batch@ == self@.body()
        &&& self.closed == (self@.data().len() > self@.limit())
        &&& self@.is_acceptable()
    }

    /// An empty transfer for an endpoint with packets of `max_packet_size` bytes.
    pub fn new(limits: TxLimits, max_packet_size: usize) -> (r: Self)
        ensures
            r.valid(),
            r@ == (TxState {
                limits,
                max_packet: if max_packet_size == 0 {
                    1
                } else {
                    max_packet_size as nat
                },
                frames: Seq::empty(),
            }),
    {
        Tx {
            limits,
            max_packet: if max_packet_size == 0 {
                1
            } else {
                max_packet_size
            },
            batch: Vec::new(),
            packets: 0,
            closed: false,
            frames: Ghost(Seq::empty()),
        }
    }

    /// Whether `frame` still fits the transfer being built.
    pub fn fits(&self, frame: &[u8]) -> (r: bool)
        requires
            self.valid(),
        ensures
            r == self@.has_room(frame@),
    {
        self.packets < self.limits.max_packets as u64 && !self.closed && self.batch.len() as u128
            + DATA_HEADER_LEN as u128 + frame.len() as u128 <= self.limits.max_transfer_size as u128
    }

    /// Add a frame that fits.
    pub fn push(&mut self, frame: &[u8])
        requires
            old(self).valid(),
            old(self)@.has_room(frame@),
        ensures
            final(self).valid(),
            final(self)@ == old(self)@.with(frame@),
    {
        let len: u128 = self.batch.len() as u128 + packet::encoded_len(
            frame.len(),
            self.limits.alignment,
        );
        proof {
            assert(self@.with(frame@).frames.drop_last() =~= self.frames@);
            lemma_packet_len(frame@, self.limits.alignment as nat);
        }
        if len <= self.limits.max_transfer_size as u128 {
            packet::append(&mut self.batch, frame, self.limits.alignment);
        } else {
            packet::append(&mut self.batch, frame, 1);
            self.closed = true;
        }
        self.packets = self.packets + 1;
        self.frames = Ghost(self.frames@.push(frame@));
        assert(self.frames@.drop_last() =~= old(self).frames@);
    }
}

/// What the transmit thread hears.
#[derive(Debug)]
pub enum TxEvent {
    /// A frame came out of the queue.
    Frame(Vec<u8>),
    /// Nothing more is queued right now.
    Drained,
    /// Nothing came for a tick.
    Quiet,
    /// The queue was closed.
    Closed,
}

/// Where the transmit thread looks next.
#[derive(Clone, Copy, Debug, PartialEq, Eq, Structural)]
pub enum TxNext {
    /// Wait for a frame.
    Receive,
    /// See whether another frame is already queued.
    Poll,
    /// Stop.
    Finish,
}

/// Bound on the waits for one endpoint. An endpoint comes to rest long before.
pub const MAX_WAITS: u64 = u64::MAX;

/// How long threads block before re-checking the shutdown flag.
pub const TICK_MS: u64 = 200;

/// How long what is still queued may take once the link is shut down.
pub const DRAIN_MS: u64 = 500;

/// The span between two looks at the shutdown flag.
pub open spec fn tick() -> Duration {
    millis(TICK_MS as int)
}

/// Where collecting finished transfers ends: none is left, one failed, or none
/// finished in time.
pub open spec fn reaped(es: Seq<OutEvent>, at: int, timeout: Duration, waits: nat) -> Option<int>
    decreases waits,
{
    if waits == 0 {
        Some(at)
    } else if at + 1 > es.len() {
        None
    } else {
        match es[at] {
            OutEvent::Counted { pending } => if pending == 0 {
                Some(at + 1)
            } else if at + 2 > es.len() {
                None
            } else {
                match es[at + 1] {
                    OutEvent::Waited { timeout: waited, outcome } => if waited != timeout {
                        None
                    } else if outcome matches Some(Ok(_)) {
                        reaped(es, at + 2, timeout, (waits - 1) as nat)
                    } else {
                        Some(at + 2)
                    },
                    _ => None,
                }
            },
            _ => None,
        }
    }
}

/// Collect transfers that have finished.
pub fn reap<E: OutEndpoint>(bulk_out: &mut OutQueue<E>, timeout: Duration)
    ensures
        out_extends(final(bulk_out).log(), old(bulk_out).log()),
        forall|l: Seq<OutEvent>| #[trigger]
            out_extends(l, final(bulk_out).log()) ==> reaped(
                l,
                old(bulk_out).log().len() as int,
                timeout,
                MAX_WAITS as nat,
            ) == Some(final(bulk_out).log().len() as int),
{
    let ghost start = bulk_out.log();
    let mut waits: u64 = MAX_WAITS;
    while waits > 0
        invariant
            start == old(bulk_out).log(),
            out_extends(bulk_out.log(), start),
            forall|l: Seq<OutEvent>| #[trigger]
                out_extends(l, bulk_out.log()) ==> reaped(
                    l,
                    start.len() as int,
                    timeout,
                    MAX_WAITS as nat,
                ) == reaped(l, bulk_out.log().len() as int, timeout, waits as nat),
        decreases waits,
    {
        let ghost held = bulk_out.log();
        let pending: usize = bulk_out.pending();
        assert(bulk_out.log()[held.len() as int] == (OutEvent::Counted { pending }));
        assert forall|l: Seq<OutEvent>| #[trigger] out_extends(
            l,
            bulk_out.log(),
        ) implies out_extends(l, held) by {}
        if pending == 0 {
            return ;
        }
        let outcome = bulk_out.wait(timeout);
        assert(bulk_out.log()[held.len() + 1int] == (OutEvent::Waited { timeout, outcome }));
        assert forall|l: Seq<OutEvent>| #[trigger] out_extends(
            l,
            bulk_out.log(),
        ) implies out_extends(l, held) by {}
        match outcome {
            Some(Ok(_)) => {},
            _ => return ,
        }
        waits = waits - 1;
    }
}

/// Where waiting for room ends: fewer than `TX_DEPTH` transfers are in flight, or
/// nothing finished for a tick and a stop was asked for.
pub open spec fn room_made(es: Seq<OutEvent>, at: int, waits: nat) -> Option<(bool, int)>
    decreases waits,
{
    if waits == 0 {
        Some((false, at))
    } else if at + 1 > es.len() {
        None
    } else {
        match es[at] {
            OutEvent::Counted { pending } => if pending < TX_DEPTH {
                Some((true, at + 1))
            } else if at + 2 > es.len() {
                None
            } else {
                match es[at + 1] {
                    OutEvent::Waited { timeout, outcome } => if timeout != tick() {
                        None
                    } else if outcome is Some {
                        room_made(es, at + 2, (waits - 1) as nat)
                    } else if at + 3 > es.len() {
                        None
                    } else {
                        match es[at + 2] {
                            OutEvent::Asked { stop } => if stop {
                                Some((false, at + 3))
                            } else {
                                room_made(es, at + 3, (waits - 1) as nat)
                            },
                            _ => None,
                        }
                    },
                    _ => None,
                }
            },
            _ => None,
        }
    }
}

/// Bound the queue so a stalled endpoint cannot grow it without limit: wait until
/// there is room for one more transfer, or give up when asked to stop.
pub fn make_room<E: OutEndpoint, S: StopFlag>(bulk_out: &mut OutQueue<E>, stop: &S) -> (r: bool)
    ensures
        out_extends(final(bulk_out).log(), old(bulk_out).log()),
        forall|l: Seq<OutEvent>| #[trigger]
            out_extends(l, final(bulk_out).log()) ==> room_made(
                l,
                old(bulk_out).log().len() as int,
                MAX_WAITS as nat,
            ) == Some((r, final(bulk_out).log().len() as int)),
{
    let ghost start = bulk_out.log();
    let tick = Duration::from_millis(TICK_MS);
    let mut waits: u64 = MAX_WAITS;
    while waits > 0
        invariant
            tick == self::tick(),
            start == old(bulk_out).log(),
            out_extends(bulk_out.log(), start),
            forall|l: Seq<OutEvent>| #[trigger]
                out_extends(l, bulk_out.log()) ==> room_made(
                    l,
                    start.len() as int,
                    MAX_WAITS as nat,
                ) == room_made(l, bulk_out.log().len() as int, waits as nat),
        decreases waits,
    {
        let ghost held = bulk_out.log();
        let pending: usize = bulk_out.pending();
        assert(bulk_out.log()[held.len() as int] == (OutEvent::Counted { pending }));
        assert forall|l: Seq<OutEvent>| #[trigger] out_extends(
            l,
            bulk_out.log(),
        ) implies out_extends(l, held) by {}
        if pending < TX_DEPTH {
            return true;
        }
        let outcome = bulk_out.wait(tick);
        assert(bulk_out.log()[held.len() + 1int] == (OutEvent::Waited { timeout: tick, outcome }));
        if outcome.is_none() {
            let stopped: bool = bulk_out.ask(stop);
            assert(bulk_out.log()[held.len() + 2int] == (OutEvent::Asked { stop: stopped }));
            assert forall|l: Seq<OutEvent>| #[trigger] out_extends(
                l,
                bulk_out.log(),
            ) implies out_extends(l, held) by {}
            if stopped {
                return false;
            }
        }
        assert forall|l: Seq<OutEvent>| #[trigger] out_extends(
            l,
            bulk_out.log(),
        ) implies out_extends(l, held) by {}
        waits = waits - 1;
    }
    false
}

/// What waits, sent off: whether a transfer went out, what waits then, and where that
/// ends. Where there is room the transfer is submitted, once and unchanged, and
/// finished ones are collected without waiting; where a stop is asked for instead,
/// what waits is kept.
pub open spec fn flushed(st: TxState, es: Seq<OutEvent>, at: int) -> Option<
    (bool, TxState, int),
> {
    match st.transfer() {
        None => Some((false, st, at)),
        Some(t) => match room_made(es, at, MAX_WAITS as nat) {
            Some((true, next)) => if next < es.len() && es[next] == (OutEvent::Submitted {
                data: t.data,
            }) {
                match reaped(es, next + 1, Duration { nanos: 0 }, MAX_WAITS as nat) {
                    Some(end) => Some((true, st.emptied(), end)),
                    None => None,
                }
            } else {
                None
            },
            Some((false, next)) => Some((false, st, next)),
            None => None,
        },
    }
}

/// The transfer that carries what waits, in numbers.
pub open spec fn sent_of(st: TxState) -> Sent {
    Sent { packets: st.frames.len() as u64, bytes: st.transfer()->0.data.len() as u64 }
}

/// The transfer that went out, if one did.
pub open spec fn sent_if(went: bool, st: TxState) -> Option<Sent> {
    if went {
        Some(sent_of(st))
    } else {
        None
    }
}

/// What the transmit thread does about an event.
#[derive(Clone, Copy, Debug, PartialEq, Eq, Structural)]
pub struct TxStep {
    /// The transfer that went out.
    pub sent: Option<Sent>,
    /// Whether a frame over the device limit was dropped.
    pub dropped: bool,
    pub next: TxNext,
}

/// What an event leads to. One transfer is filled with whatever is already queued,
/// so a burst costs one transfer per batch, not per frame. A frame that does not fit
/// what waits goes behind it; one that fits no transfer is dropped.
pub open spec fn tx_ran(st: TxState, event: TxEvent, es: Seq<OutEvent>, at: int) -> Option<
    (TxStep, TxState, int),
> {
    match event {
        TxEvent::Frame(frame) => if st.has_room(frame@) {
            Some(
                (
                    TxStep { sent: None, dropped: false, next: TxNext::Poll },
                    st.with(frame@),
                    at,
                ),
            )
        } else {
            match flushed(st, es, at) {
                None => None,
                Some((went, left, next)) => if left.has_room(frame@) {
                    Some(
                        (
                            TxStep { sent: sent_if(went, st), dropped: false, next: TxNext::Poll },
                            left.with(frame@),
                            next,
                        ),
                    )
                } else {
                    match flushed(left, es, next) {
                        None => None,
                        Some((again, last, end)) => Some(
                            (
                                TxStep {
                                    sent: if went {
                                        Some(sent_of(st))
                                    } else {
                                        sent_if(again, left)
                                    },
                                    dropped: true,
                                    next: TxNext::Receive,
                                },
                                last,
                                end,
                            ),
                        ),
                    }
                },
            }
        },
        TxEvent::Drained => match flushed(st, es, at) {
            None => None,
            Some((went, left, end)) => Some(
                (
                    TxStep { sent: sent_if(went, st), dropped: false, next: TxNext::Receive },
                    left,
                    end,
                ),
            ),
        },
        TxEvent::Quiet => match reaped(es, at, Duration { nanos: 0 }, MAX_WAITS as nat) {
            None => None,
            Some(end) => Some(
                (TxStep { sent: None, dropped: false, next: TxNext::Receive }, st, end),
            ),
        },
        TxEvent::Closed => Some(
            (TxStep { sent: None, dropped: false, next: TxNext::Finish }, st, at),
        ),
    }
}

impl Tx {
    /// Send off the transfer built so far, if anything is in it. It never exceeds what
    /// the device advertised. Where a stop is asked for before there is room, it is
    /// kept.
    pub fn flush<E: OutEndpoint, S: StopFlag>(
        &mut self,
        bulk_out: &mut OutQueue<E>,
        stop: &S,
    ) -> (r: Option<Sent>)
        requires
            old(self).valid(),
        ensures
            final(self).valid(),
            out_extends(final(bulk_out).log(), old(bulk_out).log()),
            r == sent_if(r is Some, old(self)@),
            final(self)@ == (if r is Some {
                old(self)@.emptied()
            } else {
                old(self)@
            }),
            r is Some ==> old(self)@.transfer() is Some,
            forall|l: Seq<OutEvent>| #[trigger]
                out_extends(l, final(bulk_out).log()) ==> flushed(
                    old(self)@,
                    l,
                    old(bulk_out).log().len() as int,
                ) == Some((r is Some, final(self)@, final(bulk_out).log().len() as int)),
            old(self)@.transfer() is Some ==> old(self)@.transfer()->0.data.len()
                <= old(self)@.limits.max_transfer_size,
    {
        let ghost st = self@;
        proof {
            lemma_body_fits(st);
        }
        if self.packets == 0 {
            assert(self.frames@ =~= Seq::empty());
            return None;
        }
        if !make_room(bulk_out, stop) {
            return None;
        }
        let ghost roomy = bulk_out.log();
        let mut data: Vec<u8> = Vec::new();
        std::mem::swap(&mut data, &mut self.batch);
        // A transfer that is an exact multiple of the packet size would need a
        // zero-length packet to terminate; one byte past the last message is
        // cheaper, and every parser stops before a partial header.
        if data.len() % self.max_packet == 0 && data.len() < self.limits.max_transfer_size {
            data.push(0);
        }
        assert(st.transfer()->0.data == data@);
        let sent = Sent { packets: self.packets, bytes: data.len() as u64 };
        let ghost bytes = data@;
        bulk_out.submit(data);
        let ghost given = bulk_out.log();
        assert(given[roomy.len() as int] == (OutEvent::Submitted { data: bytes }));
        self.packets = 0;
        self.closed = false;
        self.frames = Ghost(Seq::empty());
        reap(bulk_out, Duration { nanos: 0 });
        assert forall|l: Seq<OutEvent>| #[trigger] out_extends(
            l,
            bulk_out.log(),
        ) implies flushed(st, l, old(bulk_out).log().len() as int) == Some(
            (true, self@, bulk_out.log().len() as int),
        ) by {
            assert(out_extends(l, roomy));
            assert(l[roomy.len() as int] == given[roomy.len() as int]);
        }
        Some(sent)
    }

    /// React to an event of the transmit thread.
    pub fn step<E: OutEndpoint, S: StopFlag>(
        &mut self,
        event: TxEvent,
        bulk_out: &mut OutQueue<E>,
        stop: &S,
    ) -> (r: TxStep)
        requires
            old(self).valid(),
        ensures
            final(self).valid(),
            out_extends(final(bulk_out).log(), old(bulk_out).log()),
            tx_ran(
                old(self)@,
                event,
                final(bulk_out).log(),
                old(bulk_out).log().len() as int,
            ) == Some((r, final(self)@, final(bulk_out).log().len() as int)),
    {
        match event {
            TxEvent::Frame(frame) => {
                let mut sent: Option<Sent> = None;
                if !self.fits(frame.as_slice()) {
                    sent = self.flush(bulk_out, stop);
                    let ghost once = bulk_out.log();
                    if !self.fits(frame.as_slice()) {
                        let again = self.flush(bulk_out, stop);
                        assert(out_extends(bulk_out.log(), bulk_out.log()));
                        assert(out_extends(bulk_out.log(), once));
                        return TxStep {
                            sent: if sent.is_some() {
                                sent
                            } else {
                                again
                            },
                            dropped: true,
                            next: TxNext::Receive,
                        };
                    }
                    assert(out_extends(once, once));
                }
                self.push(frame.as_slice());
                TxStep { sent, dropped: false, next: TxNext::Poll }
            },
            TxEvent::Drained => {
                let sent = self.flush(bulk_out, stop);
                assert(out_extends(bulk_out.log(), bulk_out.log()));
                TxStep { sent, dropped: false, next: TxNext::Receive }
            },
            TxEvent::Quiet => {
                reap(bulk_out, Duration { nanos: 0 });
                assert(out_extends(bulk_out.log(), bulk_out.log()));
                TxStep { sent: None, dropped: false, next: TxNext::Receive }
            },
            TxEvent::Closed => TxStep { sent: None, dropped: false, next: TxNext::Finish },
        }
    }
}

/// Limits as a device can give them: sizes are 32-bit.
pub open spec fn plausible(limits: TxLimits) -> bool {
    limits.max_transfer_size <= u32::MAX
}

/// A transfer being built under its limits: every message but the last, filling
/// counted, is one whose length can be written down.
pub open spec fn within_limits(st: TxState) -> bool {
    &&& st.is_acceptable()
    &&& forall|i: int|
        0 <= i < st.frames.len() - 1 ==> fits_a_message(
            #[trigger] st.frames[i],
            st.limits.alignment as nat,
        )
}

/// What was added frame by frame never exceeds what the device takes.
proof fn lemma_body_fits(st: TxState)
    requires
        st.is_acceptable(),
    ensures
        st.body().len() <= st.limit(),
{
    if st.frames.len() > 0 {
        lemma_packet_len(st.frames.last(), 1);
    } else {
        assert(st.frames =~= Seq::empty());
    }
}

/// Batching never goes beyond what the device advertised: at most that many packets,
/// and transfers of at most that many bytes.
pub proof fn batching_stays_within_limits(st: TxState, frame: Seq<u8>)
    requires
        plausible(st.limits),
        within_limits(st),
    ensures
        within_limits(st.emptied()),
        within_limits(st.offered(frame).2),
        st.transfer() is Some ==> {
            &&& st.transfer()->0.packets <= st.limits.max_packets
            &&& st.transfer()->0.data.len() <= st.limits.max_transfer_size
        },
{
    lemma_body_fits(st);
    if st.has_room(frame) {
        lemma_with(st, frame);
    } else if st.emptied().has_room(frame) {
        lemma_with(st.emptied(), frame);
    }
}

proof fn lemma_with(st: TxState, frame: Seq<u8>)
    requires
        plausible(st.limits),
        within_limits(st),
        st.has_room(frame),
    ensures
        within_limits(st.with(frame)),
{
    let a = st.limits.alignment as nat;
    let after = st.with(frame);
    assert(after.frames.drop_last() =~= st.frames);
    assert forall|i: int| 0 <= i < after.frames.len() - 1 implies fits_a_message(
        #[trigger] after.frames[i],
        a,
    ) by {
        assert(after.frames[i] == st.frames[i]);
        if i == st.frames.len() - 1 {
            lemma_packet_len(st.frames.last(), a);
        }
    }
}

/// A frame is offered to the transfer being built wherever that can go out: it joins
/// it, goes first in the next one, or is dropped because it fits none.
pub proof fn frames_are_offered(st: TxState, frame: Vec<u8>, es: Seq<OutEvent>, at: int)
    requires
        st.has_room(frame@) || st.frames.len() == 0 || flushed(st, es, at) matches Some(
            (true, _, _),
        ),
    ensures
        ({
            let (full, taken, after) = st.offered(frame@);
            match tx_ran(st, TxEvent::Frame(frame), es, at) {
                Some((step, last, _)) => {
                    &&& step.sent == sent_if(full is Some, st)
                    &&& step.dropped == !taken
                    &&& last == after
                },
                None => false,
            }
        }),
{
    assert(st.frames.len() == 0 ==> st.frames =~= Seq::empty());
}

/// Where a stop keeps what waits from going out, nothing of it is lost: it waits
/// still, and is tried again.
pub proof fn refused_transfers_are_kept(st: TxState, es: Seq<OutEvent>, at: int)
    ensures
        flushed(st, es, at) matches Some((false, left, _)) ==> left == st,
{
}

/// What the device decodes from a transfer is exactly the frames that were put in,
/// in order.
pub proof fn transfer_carries_its_frames(st: TxState)
    requires
        st.max_packet > 0,
        plausible(st.limits),
        within_limits(st),
        st.transfer() is Some,
    ensures
        frames(st.transfer()->0.data) == st.frames.map_values(
            |f: Seq<u8>| Ok::<Seq<u8>, Error>(f),
        ),
        st.transfer()->0.packets == st.frames.len(),
{
    let d = st.body();
    if d.len() % st.max_packet == 0 && d.len() < st.limit() {
        lemma_body_yields(st, seq![0u8]);
        assert(d.push(0) =~= d + seq![0u8]);
    } else {
        lemma_body_yields(st, Seq::empty());
        assert(d + Seq::<u8>::empty() =~= d);
    }
}

/// The alignment the last message is filled up to: none where that would go beyond
/// what the device takes.
pub open spec fn last_alignment(st: TxState) -> nat {
    if st.data().len() <= st.limit() {
        st.limits.alignment as nat
    } else {
        1
    }
}

/// The messages as they are sent are those before the last, then the last, and the
/// length of each can be written down.
proof fn lemma_body_parts(st: TxState)
    requires
        plausible(st.limits),
        within_limits(st),
        st.frames.len() > 0,
    ensures
        ({
            let a = st.limits.alignment as nat;
            let init = st.frames.drop_last();
            &&& st.body() == batch(init, a) + packet::packet(st.frames.last(), last_alignment(st))
            &&& fits_a_message(st.frames.last(), last_alignment(st))
            &&& forall|i: int| 0 <= i < init.len() ==> fits_a_message(#[trigger] init[i], a)
        }),
{
    let a = st.limits.alignment as nat;
    let init = st.frames.drop_last();
    lemma_body_fits(st);
    lemma_packet_len(st.frames.last(), last_alignment(st));
    assert forall|i: int| 0 <= i < init.len() implies fits_a_message(#[trigger] init[i], a) by {
        assert(init[i] == st.frames[i]);
    }
}

/// Messages yield their frames, whatever few bytes follow, and however far the last
/// one is filled up.
#[verifier::spinoff_prover]
proof fn lemma_parts_yield(fs: Seq<Seq<u8>>, a: nat, last: Seq<u8>, b: nat, tail: Seq<u8>)
    requires
        forall|i: int| 0 <= i < fs.len() ==> fits_a_message(#[trigger] fs[i], a),
        fits_a_message(last, b),
        tail.len() < DATA_HEADER_LEN,
    ensures
        frames(batch(fs, a) + packet::packet(last, b) + tail) == fs.map_values(
            |f: Seq<u8>| Ok::<Seq<u8>, Error>(f),
        ).push(Ok::<Seq<u8>, Error>(last)),
{
    let m = packet::packet(last, b);
    let mapped = fs.map_values(|f: Seq<u8>| Ok::<Seq<u8>, Error>(f));
    let one = seq![Ok::<Seq<u8>, Error>(last)];
    lemma_batch_then(fs, a, m + tail);
    lemma_packet_then(last, b, tail);
    let none = Seq::<crate::rndis::error::Result<Seq<u8>>>::empty();
    assert(frames(tail) == none);
    assert(batch(fs, a) + m + tail =~= batch(fs, a) + (m + tail));
    assert(mapped + (one + none) =~= mapped.push(Ok::<Seq<u8>, Error>(last)));
}

/// The messages as they are sent yield their frames, whatever few bytes follow.
proof fn lemma_body_yields(st: TxState, tail: Seq<u8>)
    requires
        plausible(st.limits),
        within_limits(st),
        st.frames.len() > 0,
        tail.len() < DATA_HEADER_LEN,
    ensures
        frames(st.body() + tail) == st.frames.map_values(|f: Seq<u8>| Ok::<Seq<u8>, Error>(f)),
{
    let ok = |f: Seq<u8>| Ok::<Seq<u8>, Error>(f);
    let init = st.frames.drop_last();
    let last = st.frames.last();
    lemma_body_parts(st);
    lemma_parts_yield(init, st.limits.alignment as nat, last, last_alignment(st), tail);
    assert(st.frames.map_values(ok) =~= init.map_values(ok).push(ok(last)));
}

/// No transfer short of what the device takes needs a zero-length packet to end it.
pub proof fn transfers_end_by_themselves(st: TxState)
    requires
        st.max_packet > 1,
        st.transfer() is Some,
        st.body().len() < st.limits.max_transfer_size,
    ensures
        st.transfer()->0.data.len() % st.max_packet != 0,
{
    let n = st.body().len() as int;
    let m = st.max_packet as int;
    if n % m == 0 {
        vstd::arithmetic::div_mod::lemma_fundamental_div_mod(n, m);
        vstd::arithmetic::div_mod::lemma_mod_multiples_vanish(n / m, 1, m);
        vstd::arithmetic::div_mod::lemma_small_mod(1, st.max_packet);
        assert((n + 1) % m == 1) by {
            assert(n + 1 == m * (n / m) + 1);
        }
    }
}

/// What offering `fs` one after another and flushing at the end puts on the wire.
pub open spec fn sent_for(st: TxState, fs: Seq<Seq<u8>>) -> Seq<TransferView>
    decreases fs.len(),
{
    if fs.len() == 0 {
        match st.transfer() {
            Some(t) => seq![t],
            None => Seq::empty(),
        }
    } else {
        let (full, _, after) = st.offered(fs[0]);
        (match full {
            Some(t) => seq![t],
            None => Seq::empty(),
        }) + sent_for(after, fs.skip(1))
    }
}

/// Whether a frame is within the device limit: its message, filling aside, is no longer
/// than what the device takes.
pub open spec fn is_sendable(limits: TxLimits, frame: Seq<u8>) -> bool {
    limits.max_packets > 0 && DATA_HEADER_LEN + frame.len() <= limits.max_transfer_size
}

/// Every transfer carries at least one frame, and no more than the device takes in
/// number and in bytes.
pub proof fn every_transfer_is_acceptable(st: TxState, fs: Seq<Seq<u8>>, i: int)
    requires
        plausible(st.limits),
        within_limits(st),
        0 <= i < sent_for(st, fs).len(),
    ensures
        1 <= sent_for(st, fs)[i].packets <= st.limits.max_packets,
        sent_for(st, fs)[i].data.len() <= st.limits.max_transfer_size,
    decreases fs.len(),
{
    if fs.len() == 0 {
        batching_stays_within_limits(st, Seq::empty());
    } else {
        let (full, _, after) = st.offered(fs[0]);
        batching_stays_within_limits(st, fs[0]);
        let first: int = if full is Some {
            1
        } else {
            0
        };
        if i >= first {
            every_transfer_is_acceptable(after, fs.skip(1), i - first);
        }
    }
}

/// The frames of `fs` that are not over the device limit.
pub open spec fn sendable(limits: TxLimits, fs: Seq<Seq<u8>>) -> Seq<Seq<u8>> {
    fs.filter(|f: Seq<u8>| is_sendable(limits, f))
}

/// Everything the device decodes from `ts`.
pub open spec fn decoded(ts: Seq<TransferView>) -> Seq<crate::rndis::error::Result<Seq<u8>>>
    decreases ts.len(),
{
    if ts.len() == 0 {
        Seq::empty()
    } else {
        frames(ts[0].data) + decoded(ts.skip(1))
    }
}

/// Frames go out in the order they came, each once, whatever transfers they are
/// packed into; only those over the device limit are missing.
pub proof fn frames_go_out_in_order(st: TxState, fs: Seq<Seq<u8>>)
    requires
        st.max_packet > 0,
        plausible(st.limits),
        within_limits(st),
    ensures
        decoded(sent_for(st, fs)) == (st.frames + sendable(st.limits, fs)).map_values(
            |f: Seq<u8>| Ok::<Seq<u8>, Error>(f),
        ),
    decreases fs.len(),
{
    let ok = |f: Seq<u8>| Ok::<Seq<u8>, Error>(f);
    let room = |f: Seq<u8>| is_sendable(st.limits, f);
    if fs.len() == 0 {
        assert(fs.filter(room) =~= Seq::empty()) by {
            reveal(Seq::filter);
        }
        assert(st.frames + sendable(st.limits, fs) =~= st.frames);
        lemma_decoded_behind(st, Seq::empty());
        assert(sent_for(st, fs) =~= waiting(st) + Seq::empty());
        assert(st.frames.map_values(ok) + decoded(Seq::empty()) =~= st.frames.map_values(ok));
    } else {
        let rest = fs.skip(1);
        let after = st.offered(fs[0]).2;
        batching_stays_within_limits(st, fs[0]);
        frames_go_out_in_order(after, rest);
        lemma_filter_first(fs, room);
        lemma_offer_step(st, fs);
        if !st.has_room(fs[0]) {
            let tail = after.frames + sendable(st.limits, rest);
            lemma_decoded_behind(st, sent_for(after, rest));
            assert((st.frames + tail).map_values(ok) =~= st.frames.map_values(ok)
                + tail.map_values(ok));
        }
    }
}

/// The transfer that carries what waits, if there is one.
pub open spec fn waiting(st: TxState) -> Seq<TransferView> {
    match st.transfer() {
        Some(t) => seq![t],
        None => Seq::empty(),
    }
}

/// What offering the first of `fs` does to what is sent and to what waits.
proof fn lemma_offer_step(st: TxState, fs: Seq<Seq<u8>>)
    requires
        fs.len() > 0,
    ensures
        ({
            let after = st.offered(fs[0]).2;
            let first = if is_sendable(st.limits, fs[0]) {
                seq![fs[0]]
            } else {
                Seq::empty()
            };
            let rest = sendable(st.limits, fs.skip(1));
            &&& after.limits == st.limits
            &&& if st.has_room(fs[0]) {
                &&& sent_for(st, fs) == sent_for(after, fs.skip(1))
                &&& after.frames + rest == st.frames + (first + rest)
            } else {
                &&& sent_for(st, fs) == waiting(st) + sent_for(after, fs.skip(1))
                &&& after.frames + rest == first + rest
            }
        }),
{
    let after = st.offered(fs[0]).2;
    let rest = sendable(st.limits, fs.skip(1));
    lemma_room_alone(st, fs[0]);
    if st.has_room(fs[0]) {
        assert(sent_for(st, fs) =~= sent_for(after, fs.skip(1)));
        assert(after.frames + rest =~= st.frames + (seq![fs[0]] + rest));
    } else if is_sendable(st.limits, fs[0]) {
        assert(after.frames =~= seq![fs[0]]);
    } else {
        assert(after.frames =~= Seq::empty());
    }
}

/// What waits is decoded first, then what is sent behind it.
proof fn lemma_decoded_behind(st: TxState, ts: Seq<TransferView>)
    requires
        st.max_packet > 0,
        plausible(st.limits),
        within_limits(st),
    ensures
        decoded(waiting(st) + ts) == st.frames.map_values(|f: Seq<u8>| Ok::<Seq<u8>, Error>(f))
            + decoded(ts),
{
    let ok = |f: Seq<u8>| Ok::<Seq<u8>, Error>(f);
    match st.transfer() {
        Some(t) => {
            transfer_carries_its_frames(st);
            let all = waiting(st) + ts;
            assert(all[0] == t);
            assert(all.skip(1) =~= ts);
        },
        None => {
            assert(waiting(st) + ts =~= ts);
            assert(st.frames.map_values(ok) =~= Seq::empty());
            assert(st.frames.map_values(ok) + decoded(ts) =~= decoded(ts));
        },
    }
}

/// A frame fits alone exactly if it is within the device limit, and does if it fits
/// beside others.
proof fn lemma_room_alone(st: TxState, frame: Seq<u8>)
    ensures
        st.emptied().has_room(frame) == is_sendable(st.limits, frame),
        st.has_room(frame) ==> is_sendable(st.limits, frame),
{
    assert(batch(st.emptied().frames, st.limits.alignment as nat).len() == 0);
}

/// Filtering looks at the first element and then at the rest.
proof fn lemma_filter_first(s: Seq<Seq<u8>>, keep: spec_fn(Seq<u8>) -> bool)
    requires
        s.len() > 0,
    ensures
        s.filter(keep) == (if keep(s[0]) {
            seq![s[0]]
        } else {
            Seq::empty()
        }) + s.skip(1).filter(keep),
    decreases s.len(),
{
    reveal(Seq::filter);
    if s.len() == 1 {
        assert(s.drop_last() =~= Seq::empty());
        assert(s.skip(1) =~= Seq::empty());
        assert(s.drop_last().filter(keep) =~= Seq::empty());
        assert(s.skip(1).filter(keep) =~= Seq::empty());
    } else {
        let init = s.drop_last();
        lemma_filter_first(init, keep);
        assert(init.skip(1) =~= s.skip(1).drop_last());
        assert(init[0] == s[0]);
        assert(s.skip(1).last() == s.last());
    }
}

} // verus!
