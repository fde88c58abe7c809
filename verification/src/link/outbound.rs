//! What the transmit thread puts on the wire, and when.

use vstd::prelude::*;

use crate::link::tx::{
    flushed, plausible, reaped, room_made, transfer_carries_its_frames, tx_ran,
    within_limits, TxEvent, TxNext, TxState, TxStep, MAX_WAITS,
};
use crate::rndis::error::Error;
use crate::rndis::packet::{batch, frames, packet};
use crate::time::Duration;
use crate::usb::queue::OutEvent;

verus! {

/// How many transfers are handed over between two points of the record.
pub open spec fn submissions(es: Seq<OutEvent>, from: int, to: int) -> nat
    decreases to - from,
{
    if from >= to {
        0
    } else {
        submissions(es, from, to - 1) + (if es[to - 1] is Submitted {
            1nat
        } else {
            0
        })
    }
}

/// A frame joins the transfer being built whenever one more message is allowed and its
/// bytes still fit behind those that wait, so a burst shares as few transfers as the
/// device lets it. Only a frame that does not fit sends off what waits, and only one
/// that would not fit an empty transfer is lost.
pub proof fn bursts_share_transfers(st: TxState, frame: Seq<u8>)
    ensures
        ({
            let (full, taken, after) = st.offered(frame);
            let waiting = batch(st.frames, st.limits.alignment as nat).len();
            let joins = st.frames.len() < st.limits.max_packets && waiting + 44 + frame.len()
                <= st.limits.max_transfer_size;
            let alone = 0 < st.limits.max_packets && 44 + frame.len()
                <= st.limits.max_transfer_size;
            &&& joins ==> full is None && taken && after.frames == st.frames.push(frame)
            &&& !joins ==> {
                &&& full == st.transfer()
                &&& taken == alone
                &&& after.frames == (if alone {
                    seq![frame]
                } else {
                    seq![]
                })
            }
            &&& after.limits == st.limits
        }),
{
    let after = st.offered(frame).2;
    assert(batch(st.emptied().frames, st.limits.alignment as nat).len() == 0);
    assert(Seq::<Seq<u8>>::empty().push(frame) =~= seq![frame]);
}

/// A transfer is the messages that wait, in order, with at most one byte behind them:
/// a zero where the bytes would end on a packet boundary short of what the device takes.
pub proof fn transfers_hold_what_waits(st: TxState)
    requires
        st.max_packet > 0,
        plausible(st.limits),
        within_limits(st),
        st.frames.len() > 0,
    ensures
        st.transfer() matches Some(t) && {
            &&& t.packets == st.frames.len()
            &&& frames(t.data) == st.frames.map_values(|f: Seq<u8>| Ok::<Seq<u8>, Error>(f))
            &&& t.data == st.body() || {
                &&& t.data == st.body().push(0)
                &&& st.body().len() % st.max_packet == 0
                &&& t.data.len() <= st.limits.max_transfer_size
            }
        },
{
    transfer_carries_its_frames(st);
}

/// Sending off what waits hands over one transfer, which the device decodes to exactly
/// the frames that waited, right after fewer than eight were counted in flight. Nothing
/// is handed over where nothing goes out, and then everything still waits.
pub proof fn flushing_hands_over_one_transfer(st: TxState, es: Seq<OutEvent>, at: int)
    requires
        at >= 0,
        st.max_packet > 0,
        plausible(st.limits),
        within_limits(st),
        flushed(st, es, at) is Some,
    ensures
        flushed(st, es, at) matches Some((went, left, end)) && {
            &&& submissions(es, at, end) == (if went {
                1nat
            } else {
                0
            })
            &&& left.frames == (if went {
                seq![]
            } else {
                st.frames
            })
            &&& left.limits == st.limits
            &&& left.max_packet == st.max_packet
            &&& st.frames.len() == 0 ==> !went && end == at
            &&& went ==> exists|k: int|
                {
                    &&& at <= k < end - 1
                    &&& #[trigger] es[k] matches OutEvent::Counted { pending }
                    &&& pending < 8
                    &&& hands_over(es, k + 1, st.frames)
                }
        },
{
    if st.transfer() is Some {
        lemma_room(es, at, MAX_WAITS as nat);
        if let Some((true, next)) = room_made(es, at, MAX_WAITS as nat) {
            transfer_carries_its_frames(st);
            lemma_reap(es, next + 1, Duration { nanos: 0 }, MAX_WAITS as nat);
            let end = reaped(es, next + 1, Duration { nanos: 0 }, MAX_WAITS as nat)->0;
            lemma_submissions_split(es, at, next, end);
            lemma_submissions_split(es, next, next + 1, end);
            assert(submissions(es, next, next) == 0);
            assert(submissions(es, next, next + 1) == 1);
            assert(hands_over(es, next, st.frames));
            assert(es[next - 1] is Counted);
            assert(hands_over(es, (next - 1) + 1, st.frames));
        }
    } else {
        assert(st.frames =~= seq![]);
    }
}

/// Whether the transfer handed over at `k` is one that the device decodes to `fs`.
pub open spec fn hands_over(es: Seq<OutEvent>, k: int, fs: Seq<Seq<u8>>) -> bool {
    match es[k] {
        OutEvent::Submitted { data } => frames(data) == fs.map_values(
            |f: Seq<u8>| Ok::<Seq<u8>, Error>(f),
        ),
        _ => false,
    }
}

/// What waits stays unsent only for a stop: nothing finished for a fifth of a second,
/// and whoever was asked wanted to stop.
pub proof fn only_a_stop_holds_frames_back(st: TxState, es: Seq<OutEvent>, at: int)
    requires
        0 <= at <= es.len() < u64::MAX,
        st.frames.len() > 0,
        flushed(st, es, at) matches Some((false, _, _)),
    ensures
        flushed(st, es, at) matches Some((_, _, end)) && {
            &&& at + 2 < end <= es.len()
            &&& es[end - 1] == (OutEvent::Asked { stop: true })
            &&& es[end - 2] matches OutEvent::Waited { timeout, outcome: None }
            &&& timeout.nanos == 200_000_000
        },
{
    lemma_room_refused(es, at, MAX_WAITS as nat);
}

/// Once nothing more is queued, what waits goes out, and is counted in frames and bytes.
pub proof fn nothing_waits_once_the_queue_is_drained(st: TxState, es: Seq<OutEvent>, at: int)
    requires
        at >= 0,
        st.frames.len() > 0,
        st.frames.len() <= u64::MAX,
        st.transfer()->0.data.len() <= u64::MAX,
        flushed(st, es, at) matches Some((true, _, _)),
    ensures
        tx_ran(st, TxEvent::Drained, es, at) matches Some((step, after, _)) && {
            &&& after.frames.len() == 0
            &&& step.sent matches Some(sent) && sent.packets == st.frames.len() && sent.bytes
                == st.transfer()->0.data.len()
            &&& !step.dropped
            &&& step.next == TxNext::Receive
        },
{
}

/// A frame that was taken in is followed by a look at the queue, not by a wait; after
/// anything else the thread waits, and a closed queue ends it. A quiet tick and a closed
/// queue send nothing and lose nothing.
pub proof fn the_thread_looks_for_more_before_it_waits(
    st: TxState,
    event: TxEvent,
    es: Seq<OutEvent>,
    at: int,
)
    requires
        at >= 0,
        tx_ran(st, event, es, at) is Some,
    ensures
        tx_ran(st, event, es, at) matches Some((step, after, end)) && match event {
            TxEvent::Frame(frame) => {
                &&& !step.dropped ==> step.next == TxNext::Poll && after.frames.len() > 0
                    && after.frames.last() == frame@
                &&& step.dropped ==> step.next == TxNext::Receive
            },
            TxEvent::Drained => step.next == TxNext::Receive && !step.dropped,
            TxEvent::Quiet => {
                &&& step == (TxStep {
                    sent: None,
                    dropped: false,
                    next: TxNext::Receive,
                })
                &&& after == st
                &&& submissions(es, at, end) == 0
            },
            TxEvent::Closed => {
                &&& step == (TxStep {
                    sent: None,
                    dropped: false,
                    next: TxNext::Finish,
                })
                &&& after == st
                &&& end == at
            },
        },
{
    if event is Quiet {
        lemma_reap(es, at, Duration { nanos: 0 }, MAX_WAITS as nat);
    }
}

/// Collecting goes on while transfers finish well, and ends when none is left, when one
/// failed, or when none finished in time. It waits no longer than told, and hands over
/// nothing.
pub proof fn collecting_ends_when_nothing_finishes(
    es: Seq<OutEvent>,
    at: int,
    timeout: Duration,
    waits: nat,
    i: int,
)
    requires
        0 <= at <= es.len(),
        es.len() - at < waits,
        reaped(es, at, timeout, waits) is Some,
    ensures
        reaped(es, at, timeout, waits) matches Some(end) && {
            &&& at < end <= es.len()
            &&& match es[end - 1] {
                OutEvent::Counted { pending } => pending == 0,
                OutEvent::Waited { outcome, .. } => !(outcome matches Some(Ok(_))),
                _ => false,
            }
            &&& at <= i < end ==> match es[i] {
                OutEvent::Counted { pending } => pending == 0 ==> i == end - 1,
                OutEvent::Waited { timeout: waited, outcome } => waited == timeout && (i < end - 1
                    ==> outcome matches Some(Ok(_))),
                _ => false,
            }
        },
    decreases waits,
{
    if let OutEvent::Counted { pending } = es[at] {
        if pending > 0 && at + 2 <= es.len() {
            if let OutEvent::Waited { timeout: waited, outcome } = es[at + 1] {
                if waited == timeout && outcome matches Some(Ok(_)) {
                    collecting_ends_when_nothing_finishes(
                        es,
                        at + 2,
                        timeout,
                        (waits - 1) as nat,
                        i,
                    );
                }
            }
        }
    }
}

proof fn lemma_submissions_split(es: Seq<OutEvent>, a: int, b: int, c: int)
    requires
        a <= b <= c,
    ensures
        submissions(es, a, c) == submissions(es, a, b) + submissions(es, b, c),
    decreases c - b,
{
    if b < c {
        lemma_submissions_split(es, a, b, c - 1);
    }
}

proof fn lemma_reap(es: Seq<OutEvent>, at: int, timeout: Duration, waits: nat)
    ensures
        reaped(es, at, timeout, waits) matches Some(end) ==> end >= at && submissions(es, at, end)
            == 0,
    decreases waits,
{
    reveal_with_fuel(submissions, 3);
    if waits > 0 && at + 2 <= es.len() {
        lemma_reap(es, at + 2, timeout, (waits - 1) as nat);
        if let Some(end) = reaped(es, at + 2, timeout, (waits - 1) as nat) {
            lemma_submissions_split(es, at, at + 2, end);
        }
    }
}

proof fn lemma_room(es: Seq<OutEvent>, at: int, waits: nat)
    ensures
        room_made(es, at, waits) matches Some((room, next)) ==> {
            &&& next >= at
            &&& submissions(es, at, next) == 0
            &&& room ==> next > at && (es[next - 1] matches OutEvent::Counted { pending }
                && pending < 8)
        },
    decreases waits,
{
    reveal_with_fuel(submissions, 4);
    if waits > 0 {
        if at + 2 <= es.len() {
            lemma_room(es, at + 2, (waits - 1) as nat);
            if let Some((_, next)) = room_made(es, at + 2, (waits - 1) as nat) {
                lemma_submissions_split(es, at, at + 2, next);
            }
        }
        if at + 3 <= es.len() {
            lemma_room(es, at + 3, (waits - 1) as nat);
            if let Some((_, next)) = room_made(es, at + 3, (waits - 1) as nat) {
                lemma_submissions_split(es, at, at + 3, next);
            }
        }
    }
}

proof fn lemma_room_refused(es: Seq<OutEvent>, at: int, waits: nat)
    requires
        0 <= at <= es.len(),
        es.len() - at < waits,
        room_made(es, at, waits) matches Some((false, _)),
    ensures
        room_made(es, at, waits) matches Some((_, end)) && {
            &&& at + 2 < end <= es.len()
            &&& es[end - 1] == (OutEvent::Asked { stop: true })
            &&& es[end - 2] matches OutEvent::Waited { timeout, outcome: None }
            &&& timeout.nanos == 200_000_000
        },
    decreases waits,
{
    if at + 2 <= es.len() {
        if let OutEvent::Waited { outcome, .. } = es[at + 1] {
            if outcome is Some {
                lemma_room_refused(es, at + 2, (waits - 1) as nat);
            } else if at + 3 <= es.len() {
                if es[at + 2] != (OutEvent::Asked { stop: true }) {
                    lemma_room_refused(es, at + 3, (waits - 1) as nat);
                }
            }
        }
    }
}

/// A transfer holds its messages as they are filled up for the device: each but the last
/// to the alignment, and the last one too unless that would go beyond what the device
/// takes.
pub proof fn transfers_keep_the_alignment(st: TxState)
    requires
        st.frames.len() > 0,
    ensures
        ({
            let a = st.limits.alignment as nat;
            let front = batch(st.frames.drop_last(), a);
            let last = packet(st.frames.last(), a);
            &&& st.transfer() is Some
            &&& front.len() + last.len() <= st.limits.max_transfer_size ==> st.body() == front + last
            &&& front.len() + last.len() > st.limits.max_transfer_size ==> st.body() == front
                + packet(st.frames.last(), 1)
        }),
{
}

/// Finished transfers are collected without waiting for any: behind a transfer that was
/// handed over, and on a quiet tick, every wait is for no time at all.
pub proof fn collecting_never_waits(st: TxState, es: Seq<OutEvent>, at: int, i: int)
    requires
        0 <= at <= es.len() < u64::MAX,
    ensures
        tx_ran(st, TxEvent::Quiet, es, at) matches Some((_, _, end)) ==> (at <= i < end && es[i]
            is Waited ==> es[i]->Waited_timeout.nanos == 0),
        flushed(st, es, at) matches Some((true, _, end)) ==> exists|k: int|
            {
                &&& at <= k < end
                &&& #[trigger] es[k] is Submitted
                &&& k < i < end && es[i] is Waited ==> es[i]->Waited_timeout.nanos == 0
            },
{
    let none = Duration { nanos: 0 };
    if reaped(es, at, none, MAX_WAITS as nat) is Some {
        collecting_ends_when_nothing_finishes(es, at, none, MAX_WAITS as nat, i);
    }
    if let Some((true, _, end)) = flushed(st, es, at) {
        lemma_room(es, at, MAX_WAITS as nat);
        let (_, next) = room_made(es, at, MAX_WAITS as nat)->0;
        collecting_ends_when_nothing_finishes(es, next + 1, none, MAX_WAITS as nat, i);
        assert(es[next] is Submitted);
    }
}

} // verus!
