//! What the daemon does from one look at the bus to the next.

use vstd::prelude::*;
use vstd::string::*;

use crate::device::Scan;
use crate::text::texts;
use crate::time::{secs, Duration};
use crate::usb::descriptor::DeviceInfo;
use crate::usb::error::{Result as UsbResult, UsbError};
use crate::usb::matcher::RndisFunction;

verus! {

/// Pause before retrying after a failed session, so a phone that keeps
/// rejecting us is not hammered.
pub fn retry_delay() -> (r: Duration)
    ensures
        r == secs(2),
{
    Duration::from_secs(2)
}

/// How long to block waiting for a hotplug event between scans.
pub fn hotplug_wait() -> (r: Duration)
    ensures
        r == secs(2),
{
    Duration::from_secs(2)
}

/// What to do after a look at the bus.
#[derive(Debug)]
pub enum Round {
    /// Hold a session with this phone.
    Session(DeviceInfo, RndisFunction),
    /// Say that these devices are idle, then wait for something to be plugged in.
    Wait(Vec<String>),
    /// The look failed; try again after a pause.
    Retry(UsbError),
}

/// What is said of an idle device.
pub open spec fn idle_notice(label: Seq<char>) -> Seq<char> {
    label + " is attached but not tethering; enable USB tethering on the phone"@
}

/// What is said of idle devices.
pub open spec fn idle_notices(labels: Seq<Seq<char>>) -> Seq<Seq<char>> {
    labels.map_values(|l: Seq<char>| idle_notice(l))
}

fn same_texts(a: &Vec<String>, b: &Vec<String>) -> (r: bool)
    ensures
        r == (texts(a@) == texts(b@)),
{
    if a.len() != b.len() {
        assert(texts(a@).len() != texts(b@).len());
        return false;
    }
    for i in 0..a.len()
        invariant
            a@.len() == b@.len(),
            forall|j: int| 0 <= j < i ==> (#[trigger] a@[j])@ == b@[j]@,
    {
        if a[i] != b[i] {
            assert(texts(a@)[i as int] != texts(b@)[i as int]);
            return false;
        }
    }
    assert(texts(a@) =~= texts(b@));
    true
}

fn copy_texts(v: &Vec<String>) -> (r: Vec<String>)
    ensures
        texts(r@) == texts(v@),
{
    let mut r: Vec<String> = Vec::new();
    assert(texts(r@) =~= texts(v@).take(0));
    for i in 0..v.len()
        invariant
            texts(r@) == texts(v@).take(i as int),
    {
        let ghost before = texts(r@);
        let s = v[i].clone();
        let ghost text = s@;
        r.push(s);
        assert(texts(r@) =~= before.push(text));
        assert(texts(r@) =~= texts(v@).take(i + 1));
    }
    assert(texts(v@).take(v@.len() as int) =~= texts(v@));
    r
}

/// Name the devices that are attached without an RNDIS function, once per
/// change rather than once per scan. A phone that is plugged in but not
/// tethering looks exactly like this, and is the usual reason the wait drags on.
pub fn report_idle(seen: &Vec<String>, reported: &mut Vec<String>) -> (notices: Vec<String>)
    ensures
        texts(final(reported)@) == texts(seen@),
        texts(notices@) == (if texts(old(reported)@) == texts(seen@) {
            Seq::empty()
        } else {
            idle_notices(texts(seen@))
        }),
{
    let mut notices: Vec<String> = Vec::new();
    assert(texts(notices@) =~= Seq::empty());
    if same_texts(reported, seen) {
        return notices;
    }
    let ghost all = idle_notices(texts(seen@));
    assert(all.take(0) =~= Seq::empty());
    for i in 0..seen.len()
        invariant
            all == idle_notices(texts(seen@)),
            texts(notices@) == all.take(i as int),
    {
        let ghost before = texts(notices@);
        let mut s = seen[i].clone();
        s.append(" is attached but not tethering; enable USB tethering on the phone");
        let ghost text = s@;
        notices.push(s);
        assert(texts(notices@) =~= before.push(text));
        assert(texts(notices@) =~= all.take(i + 1));
    }
    assert(all.take(seen@.len() as int) =~= all);
    *reported = copy_texts(seen);
    notices
}

/// Decide what to do after a look at the bus.
pub fn next_round(scan: UsbResult<Scan>, reported: &mut Vec<String>) -> (r: Round)
    ensures
        match scan {
            Err(e) => r == Round::Retry(e) && final(reported)@ == old(reported)@,
            Ok(scan) => match scan.rndis {
                Some((info, function)) => {
                    &&& r == Round::Session(info, function)
                    &&& final(reported)@.len() == 0
                },
                None => {
                    &&& r is Wait
                    &&& texts(final(reported)@) == texts(scan.idle@)
                    &&& texts(r->Wait_0@) == (if texts(old(reported)@) == texts(scan.idle@) {
                        Seq::empty()
                    } else {
                        idle_notices(texts(scan.idle@))
                    })
                },
            },
        },
{
    match scan {
        Err(e) => Round::Retry(e),
        Ok(scan) => match scan.rndis {
            Some((info, function)) => {
                *reported = Vec::new();
                Round::Session(info, function)
            },
            None => Round::Wait(report_idle(&scan.idle, reported)),
        },
    }
}

/// What the daemon hears.
#[derive(Debug)]
pub enum WatchEvent {
    /// Whether a shutdown was asked for.
    Stop(bool),
    /// What a look at the bus showed.
    Scanned(UsbResult<Scan>),
    /// What was last asked for is done.
    Done,
}

/// What the daemon does next.
#[derive(Debug)]
pub enum WatchAction {
    /// See whether a shutdown was asked for.
    AskStop,
    /// Look at the bus.
    Scan,
    /// Show the phone in the status, hold a session with it until that ends, and
    /// clear the status again.
    Hold(DeviceInfo, RndisFunction),
    /// Say these things, then wait until something is plugged in or time is up.
    Wait(Vec<String>, Duration),
    /// The look failed; let some time pass.
    Retry(UsbError, Duration),
    /// The session is over; let some time pass before the next look.
    Rest(Duration),
    /// Shut down.
    Finish,
}

/// Where the daemon stands.
#[derive(Clone, Copy, Debug, PartialEq, Eq, Structural)]
pub enum WatchPhase {
    /// Before a look at the bus.
    Idle,
    /// Looking at the bus.
    Scanning,
    /// Holding a session.
    Holding,
    /// After a session.
    Ended,
}

/// An action as plain values.
pub enum WatchActionView {
    AskStop,
    Scan,
    Hold(DeviceInfo, RndisFunction),
    Wait(Seq<Seq<char>>, Duration),
    Retry(UsbError, Duration),
    Rest(Duration),
    Finish,
}

impl View for WatchAction {
    type V = WatchActionView;

    open spec fn view(&self) -> WatchActionView {
        match *self {
            WatchAction::AskStop => WatchActionView::AskStop,
            WatchAction::Scan => WatchActionView::Scan,
            WatchAction::Hold(info, function) => WatchActionView::Hold(info, function),
            WatchAction::Wait(notices, time) => WatchActionView::Wait(texts(notices@), time),
            WatchAction::Retry(e, time) => WatchActionView::Retry(e, time),
            WatchAction::Rest(time) => WatchActionView::Rest(time),
            WatchAction::Finish => WatchActionView::Finish,
        }
    }
}

/// Where the daemon stands, and which idle devices it has named.
#[verifier::ext_equal]
pub struct WatchState {
    pub phase: WatchPhase,
    pub reported: Seq<Seq<char>>,
}

/// What is said of idle devices, given those already named.
pub open spec fn news(reported: Seq<Seq<char>>, seen: Seq<Seq<char>>) -> Seq<Seq<char>> {
    if reported == seen {
        Seq::empty()
    } else {
        idle_notices(seen)
    }
}

impl WatchState {
    /// The daemon looks at the bus until a shutdown is asked for. A phone that
    /// tethers gets a session, and a pause behind it so that one that keeps
    /// rejecting us is not hammered.
    pub open spec fn step(self, event: WatchEvent) -> (WatchActionView, WatchState) {
        match (self.phase, event) {
            (WatchPhase::Idle, WatchEvent::Stop(stop)) => if stop {
                (WatchActionView::Finish, self)
            } else {
                (WatchActionView::Scan, WatchState { phase: WatchPhase::Scanning, ..self })
            },
            (WatchPhase::Scanning, WatchEvent::Scanned(Err(e))) => (
                WatchActionView::Retry(e, secs(2)),
                WatchState { phase: WatchPhase::Idle, ..self },
            ),
            (WatchPhase::Scanning, WatchEvent::Scanned(Ok(scan))) => match scan.rndis {
                Some((info, function)) => (
                    WatchActionView::Hold(info, function),
                    WatchState { phase: WatchPhase::Holding, reported: Seq::empty() },
                ),
                None => (
                    WatchActionView::Wait(news(self.reported, texts(scan.idle@)), secs(2)),
                    WatchState { phase: WatchPhase::Idle, reported: texts(scan.idle@) },
                ),
            },
            (WatchPhase::Holding, WatchEvent::Done) => (
                WatchActionView::AskStop,
                WatchState { phase: WatchPhase::Ended, ..self },
            ),
            (WatchPhase::Ended, WatchEvent::Stop(stop)) => if stop {
                (WatchActionView::Finish, self)
            } else {
                (WatchActionView::Rest(secs(2)), WatchState { phase: WatchPhase::Idle, ..self })
            },
            // A wait is over, or nothing was asked for that this answers; look again.
            _ => (WatchActionView::AskStop, WatchState { phase: WatchPhase::Idle, ..self }),
        }
    }
}

/// The daemon between sessions.
pub struct Watch {
    phase: WatchPhase,
    reported: Vec<String>,
}

impl View for Watch {
    type V = WatchState;

    closed spec fn view(&self) -> WatchState {
        WatchState { phase: self.phase, reported: texts(self.reported@) }
    }
}

impl Watch {
    pub fn new() -> (r: Self)
        ensures
            r@ == (WatchState { phase: WatchPhase::Idle, reported: Seq::empty() }),
    {
        let r = Watch { phase: WatchPhase::Idle, reported: Vec::new() };
        assert(r@.reported =~= Seq::empty());
        r
    }

    /// What to do next, after `event`.
    pub fn step(&mut self, event: WatchEvent) -> (r: WatchAction)
        ensures
            (r@, final(self)@) == old(self)@.step(event),
    {
        match (self.phase, event) {
            (WatchPhase::Idle, WatchEvent::Stop(stop)) => if stop {
                WatchAction::Finish
            } else {
                self.phase = WatchPhase::Scanning;
                WatchAction::Scan
            },
            (WatchPhase::Scanning, WatchEvent::Scanned(scan)) => {
                match next_round(scan, &mut self.reported) {
                    Round::Retry(e) => {
                        self.phase = WatchPhase::Idle;
                        WatchAction::Retry(e, retry_delay())
                    },
                    Round::Session(info, function) => {
                        self.phase = WatchPhase::Holding;
                        assert(self@.reported =~= Seq::empty());
                        WatchAction::Hold(info, function)
                    },
                    Round::Wait(notices) => {
                        self.phase = WatchPhase::Idle;
                        WatchAction::Wait(notices, hotplug_wait())
                    },
                }
            },
            (WatchPhase::Holding, WatchEvent::Done) => {
                self.phase = WatchPhase::Ended;
                WatchAction::AskStop
            },
            (WatchPhase::Ended, WatchEvent::Stop(stop)) => if stop {
                WatchAction::Finish
            } else {
                self.phase = WatchPhase::Idle;
                WatchAction::Rest(retry_delay())
            },
            _ => {
                self.phase = WatchPhase::Idle;
                WatchAction::AskStop
            },
        }
    }
}

/// A shutdown that is asked for between sessions, or during one, is the last thing
/// the daemon does.
pub proof fn a_stop_is_final(st: WatchState)
    requires
        st.phase == WatchPhase::Idle || st.phase == WatchPhase::Ended,
    ensures
        st.step(WatchEvent::Stop(true)).0 is Finish,
        st.step(WatchEvent::Stop(true)).1 == st,
{
}

/// Idle devices are named once per change: a second look that shows the same ones
/// says nothing.
pub proof fn unchanged_devices_are_not_named_again(st: WatchState, first: Scan, second: Scan)
    requires
        st.phase == WatchPhase::Scanning,
        first.rndis is None,
        second.rndis is None,
        texts(first.idle@) == texts(second.idle@),
    ensures
        ({
            let one = st.step(WatchEvent::Scanned(Ok(first))).1;
            let again = WatchState { phase: WatchPhase::Scanning, ..one };
            again.step(WatchEvent::Scanned(Ok(second))).0 == WatchActionView::Wait(
                Seq::empty(),
                secs(2),
            )
        }),
{
}

/// A phone that tethers gets a session, and after it a pause of two seconds and another
/// look at the bus, unless a shutdown was asked for meanwhile. Idle devices are named
/// anew afterwards.
pub proof fn phones_are_held_and_looked_for_again(
    st: WatchState,
    scan: Scan,
    info: DeviceInfo,
    function: RndisFunction,
)
    requires
        st.phase == WatchPhase::Scanning,
        scan.rndis == Some((info, function)),
    ensures
        ({
            let (hold, holding) = st.step(WatchEvent::Scanned(Ok(scan)));
            let (ask, ended) = holding.step(WatchEvent::Done);
            let (rest, idle) = ended.step(WatchEvent::Stop(false));
            let (again, asking) = idle.step(WatchEvent::Done);
            let (look, looking) = asking.step(WatchEvent::Stop(false));
            &&& hold == WatchActionView::Hold(info, function)
            &&& ask is AskStop
            &&& ended.step(WatchEvent::Stop(true)).0 is Finish
            &&& rest == WatchActionView::Rest(Duration { nanos: 2_000_000_000 })
            &&& again is AskStop
            &&& look is Scan
            &&& looking.phase == WatchPhase::Scanning
            &&& looking.reported.len() == 0
        }),
{
}

/// A look that fails is repeated after two seconds, with the error said, and what was
/// named before is still known to be named.
pub proof fn failed_looks_are_repeated(st: WatchState, e: UsbError)
    requires
        st.phase == WatchPhase::Scanning,
    ensures
        ({
            let (retry, idle) = st.step(WatchEvent::Scanned(Err(e)));
            let (ask, asking) = idle.step(WatchEvent::Done);
            let (look, looking) = asking.step(WatchEvent::Stop(false));
            &&& retry == WatchActionView::Retry(e, Duration { nanos: 2_000_000_000 })
            &&& ask is AskStop
            &&& look is Scan
            &&& looking == st
        }),
{
}

/// A look that finds no phone that tethers is followed by a wait of two seconds. Devices
/// that were not there before, or not alone, are each named with what to do about them.
pub proof fn idle_devices_are_named(st: WatchState, scan: Scan)
    requires
        st.phase == WatchPhase::Scanning,
        scan.rndis is None,
    ensures
        st.step(WatchEvent::Scanned(Ok(scan))).0 matches WatchActionView::Wait(notices, time) && {
            let seen = texts(scan.idle@);
            &&& time.nanos == 2_000_000_000
            &&& seen == st.reported ==> notices.len() == 0
            &&& seen != st.reported ==> notices.len() == seen.len() && forall|i: int|
                0 <= i < seen.len() ==> #[trigger] notices[i] == seen[i]
                    + " is attached but not tethering; enable USB tethering on the phone"@
        },
        st.step(WatchEvent::Scanned(Ok(scan))).1.reported == texts(scan.idle@),
        st.step(WatchEvent::Scanned(Ok(scan))).1.phase == WatchPhase::Idle,
{
}

/// What is said of the daemon's action is what stands in it.
pub proof fn watch_actions_show_all_they_hold(
    info: DeviceInfo,
    function: RndisFunction,
    notices: Vec<String>,
    e: UsbError,
    time: Duration,
)
    ensures
        WatchAction::Hold(info, function)@ == WatchActionView::Hold(info, function),
        WatchAction::Wait(notices, time)@ == WatchActionView::Wait(texts(notices@), time),
        WatchAction::Retry(e, time)@ == WatchActionView::Retry(e, time),
        WatchAction::Rest(time)@ == WatchActionView::Rest(time),
        WatchAction::AskStop@ is AskStop,
        WatchAction::Scan@ is Scan,
        WatchAction::Finish@ is Finish,
{
}

} // verus!
