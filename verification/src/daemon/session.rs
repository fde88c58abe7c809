//! What happens while one phone's tunnel is held up.

use vstd::prelude::*;
use vstd::string::*;

use crate::addr::Ipv4Addr;
use crate::link::rx::LinkEvent;
use crate::netstack::dhcp::{Lease, LeaseView};
use crate::status::{Status, StatusView};
use crate::time::{millis, secs, Duration, Instant};

verus! {

/// How often the device is asked whether it is still there.
pub open spec fn keepalive_interval() -> Duration {
    secs(10)
}

/// How long a session pauses between looks at its link.
pub open spec fn poll_interval() -> Duration {
    millis(100)
}

/// Bytes since the last keepalive.
#[derive(Clone, Copy, Debug, PartialEq, Eq, Structural)]
pub struct Traffic {
    pub bytes_in: u64,
    pub bytes_out: u64,
}

/// What was added since, and nothing if the count went back.
pub open spec fn added(count: u64, before: u64) -> u64 {
    if count >= before {
        (count - before) as u64
    } else {
        0
    }
}

/// What a session hears.
#[derive(Debug)]
pub enum SessionEvent {
    /// Whether a shutdown was asked for.
    Stop(bool),
    /// What the link reported, if anything.
    Heard(Option<LinkEvent>),
    /// Whether the tunnel came up.
    Raised(Result<(), String>),
    /// What time it is.
    Time(Instant),
    /// How the keepalive went, with the bytes counted so far.
    KeptAlive(Result<Traffic, String>),
    /// What was last asked for is done.
    Done,
}

/// What a session does next.
#[derive(Debug)]
pub enum SessionAction {
    /// See whether a shutdown was asked for.
    AskStop,
    /// Pause, then see what the link reported.
    Listen(Duration),
    /// Stop delivering and take the old tunnel down, so its routes are gone before
    /// the new ones go in; then bring one up for this lease and start delivering.
    Replace(Box<Lease>),
    /// See what time it is.
    ReadClock,
    /// Send a keepalive.
    Keepalive,
    /// Show the traffic since the last keepalive.
    Report(Traffic),
    /// Stop delivering packets.
    Detach,
    /// Take the tunnel down, restoring routes and DNS.
    Lower,
    /// Tell the device.
    Halt,
    /// Stop the link threads.
    StopLink,
    /// The session is over, for this reason if it failed.
    End(Option<String>),
}

/// An action as plain values.
pub enum SessionActionView {
    AskStop,
    Listen(Duration),
    Replace(LeaseView),
    ReadClock,
    Keepalive,
    Report(Traffic),
    Detach,
    Lower,
    Halt,
    StopLink,
    End(Option<Seq<char>>),
}

/// A reason that may be absent.
pub open spec fn reason_of(why: Option<String>) -> Option<Seq<char>> {
    match why {
        Some(s) => Some(s@),
        None => None,
    }
}

impl View for SessionAction {
    type V = SessionActionView;

    open spec fn view(&self) -> SessionActionView {
        match *self {
            SessionAction::AskStop => SessionActionView::AskStop,
            SessionAction::Listen(time) => SessionActionView::Listen(time),
            SessionAction::Replace(lease) => SessionActionView::Replace((*lease)@),
            SessionAction::ReadClock => SessionActionView::ReadClock,
            SessionAction::Keepalive => SessionActionView::Keepalive,
            SessionAction::Report(traffic) => SessionActionView::Report(traffic),
            SessionAction::Detach => SessionActionView::Detach,
            SessionAction::Lower => SessionActionView::Lower,
            SessionAction::Halt => SessionActionView::Halt,
            SessionAction::StopLink => SessionActionView::StopLink,
            SessionAction::End(why) => SessionActionView::End(reason_of(why)),
        }
    }
}

/// Where a session stands.
#[derive(Clone, Copy, Debug, PartialEq, Eq, Structural)]
pub enum Phase {
    /// At the start of a round.
    Round,
    /// Waiting for what the link reports.
    Listening,
    /// Bringing a tunnel up for this address.
    Raising(Ipv4Addr),
    /// Looking at the clock.
    Timing,
    /// Waiting for a keepalive.
    Keeping,
    /// Showing the traffic.
    Reporting,
    /// Ending, with delivery stopped.
    Detached,
    /// Ending, with the tunnel down.
    Lowered,
    /// Ending, with the device told.
    Halted,
    /// Ending, with nothing left running.
    Stopped,
}

/// What a session knows.
#[verifier::ext_equal]
pub struct SessionState {
    pub phase: Phase,
    /// The address of the tunnel that is up.
    pub tunnel: Option<Ipv4Addr>,
    pub next_keepalive: Instant,
    /// The byte counts at the last keepalive.
    pub last: Traffic,
    /// Why the session ends, if it failed.
    pub failure: Option<Seq<char>>,
}

impl SessionState {
    /// On to `phase`.
    pub open spec fn at(self, phase: Phase) -> SessionState {
        SessionState { phase, ..self }
    }

    /// The end begins: stop delivering, then restore routes and DNS, then stop the
    /// link. Order matters.
    pub open spec fn ending(self, why: Option<Seq<char>>) -> (SessionActionView, SessionState) {
        (
            SessionActionView::Detach,
            SessionState { phase: Phase::Detached, failure: why, ..self },
        )
    }

    /// What a session does after `event`.
    pub open spec fn step(self, event: SessionEvent) -> (SessionActionView, SessionState) {
        match (self.phase, event) {
            (Phase::Round, SessionEvent::Stop(stop)) => if stop {
                self.ending(None)
            } else {
                (SessionActionView::Listen(poll_interval()), self.at(Phase::Listening))
            },
            (Phase::Listening, SessionEvent::Heard(None)) => (
                SessionActionView::ReadClock,
                self.at(Phase::Timing),
            ),
            (Phase::Listening, SessionEvent::Heard(Some(LinkEvent::Failed(why)))) => self.ending(
                Some("link failed: "@ + why@),
            ),
            (Phase::Listening, SessionEvent::Heard(Some(LinkEvent::Bound(lease)))) => if self.tunnel
                == Some(lease.ip) {
                // The lease in use was extended.
                (SessionActionView::ReadClock, self.at(Phase::Timing))
            } else {
                (
                    SessionActionView::Replace((*lease)@),
                    SessionState { phase: Phase::Raising(lease.ip), tunnel: None, ..self },
                )
            },
            (Phase::Raising(_), SessionEvent::Raised(Err(why))) => self.ending(Some(why@)),
            (Phase::Raising(ip), SessionEvent::Raised(Ok(_))) => (
                SessionActionView::ReadClock,
                SessionState { phase: Phase::Timing, tunnel: Some(ip), ..self },
            ),
            (Phase::Timing, SessionEvent::Time(now)) => if now.nanos >= self.next_keepalive.nanos {
                (
                    SessionActionView::Keepalive,
                    SessionState {
                        phase: Phase::Keeping,
                        next_keepalive: now.after(keepalive_interval()),
                        ..self
                    },
                )
            } else {
                (SessionActionView::AskStop, self.at(Phase::Round))
            },
            (Phase::Keeping, SessionEvent::KeptAlive(Err(why))) => self.ending(
                Some("keepalive failed: "@ + why@),
            ),
            (Phase::Keeping, SessionEvent::KeptAlive(Ok(count))) => (
                SessionActionView::Report(
                    Traffic {
                        bytes_in: added(count.bytes_in, self.last.bytes_in),
                        bytes_out: added(count.bytes_out, self.last.bytes_out),
                    },
                ),
                SessionState { phase: Phase::Reporting, last: count, ..self },
            ),
            (Phase::Reporting, SessionEvent::Done) => (
                SessionActionView::AskStop,
                self.at(Phase::Round),
            ),
            (Phase::Detached, SessionEvent::Done) => (
                SessionActionView::Lower,
                SessionState { phase: Phase::Lowered, tunnel: None, ..self },
            ),
            (Phase::Lowered, SessionEvent::Done) => (
                SessionActionView::Halt,
                self.at(Phase::Halted),
            ),
            (Phase::Halted, SessionEvent::Done) => (
                SessionActionView::StopLink,
                self.at(Phase::Stopped),
            ),
            (Phase::Stopped, _) => (SessionActionView::End(self.failure), self),
            // Nothing was asked for that this answers.
            _ => self.ending(Some("the session lost its place"@)),
        }
    }
}

/// One phone's session.
pub struct Session {
    phase: Phase,
    tunnel: Option<Ipv4Addr>,
    next_keepalive: Instant,
    last: Traffic,
    failure: Option<String>,
}

impl View for Session {
    type V = SessionState;

    closed spec fn view(&self) -> SessionState {
        SessionState {
            phase: self.phase,
            tunnel: self.tunnel,
            next_keepalive: self.next_keepalive,
            last: self.last,
            failure: reason_of(self.failure),
        }
    }
}

impl Session {
    /// A session that starts at `now`.
    pub fn new(now: Instant) -> (r: Self)
        ensures
            r@ == (SessionState {
                phase: Phase::Round,
                tunnel: None,
                next_keepalive: now.after(keepalive_interval()),
                last: Traffic { bytes_in: 0, bytes_out: 0 },
                failure: None,
            }),
    {
        Session {
            phase: Phase::Round,
            tunnel: None,
            next_keepalive: now.plus(Duration::from_secs(10)),
            last: Traffic { bytes_in: 0, bytes_out: 0 },
            failure: None,
        }
    }

    fn end(&mut self, why: Option<String>) -> (r: SessionAction)
        ensures
            (r@, final(self)@) == old(self)@.ending(reason_of(why)),
    {
        self.phase = Phase::Detached;
        self.failure = why;
        SessionAction::Detach
    }

    /// What to do next, after `event`.
    pub fn step(&mut self, event: SessionEvent) -> (r: SessionAction)
        ensures
            (r@, final(self)@) == old(self)@.step(event),
    {
        match (self.phase, event) {
            (Phase::Round, SessionEvent::Stop(stop)) => if stop {
                self.end(None)
            } else {
                self.phase = Phase::Listening;
                SessionAction::Listen(Duration::from_millis(100))
            },
            (Phase::Listening, SessionEvent::Heard(None)) => {
                self.phase = Phase::Timing;
                SessionAction::ReadClock
            },
            (Phase::Listening, SessionEvent::Heard(Some(LinkEvent::Failed(why)))) => {
                let mut s = "link failed: ".to_owned();
                s.append(why.as_str());
                self.end(Some(s))
            },
            (Phase::Listening, SessionEvent::Heard(Some(LinkEvent::Bound(lease)))) => {
                let same: bool = match self.tunnel {
                    Some(ip) => ip == lease.ip,
                    None => false,
                };
                if same {
                    self.phase = Phase::Timing;
                    SessionAction::ReadClock
                } else {
                    self.phase = Phase::Raising(lease.ip);
                    self.tunnel = None;
                    SessionAction::Replace(lease)
                }
            },
            (Phase::Raising(_), SessionEvent::Raised(Err(why))) => self.end(Some(why)),
            (Phase::Raising(ip), SessionEvent::Raised(Ok(_))) => {
                self.phase = Phase::Timing;
                self.tunnel = Some(ip);
                SessionAction::ReadClock
            },
            (Phase::Timing, SessionEvent::Time(now)) => if now.is_before(self.next_keepalive) {
                self.phase = Phase::Round;
                SessionAction::AskStop
            } else {
                self.phase = Phase::Keeping;
                self.next_keepalive = now.plus(Duration::from_secs(10));
                SessionAction::Keepalive
            },
            (Phase::Keeping, SessionEvent::KeptAlive(Err(why))) => {
                let mut s = "keepalive failed: ".to_owned();
                s.append(why.as_str());
                self.end(Some(s))
            },
            (Phase::Keeping, SessionEvent::KeptAlive(Ok(count))) => {
                let traffic = Traffic {
                    bytes_in: since(count.bytes_in, self.last.bytes_in),
                    bytes_out: since(count.bytes_out, self.last.bytes_out),
                };
                self.last = count;
                self.phase = Phase::Reporting;
                SessionAction::Report(traffic)
            },
            (Phase::Reporting, SessionEvent::Done) => {
                self.phase = Phase::Round;
                SessionAction::AskStop
            },
            (Phase::Detached, SessionEvent::Done) => {
                self.phase = Phase::Lowered;
                self.tunnel = None;
                SessionAction::Lower
            },
            (Phase::Lowered, SessionEvent::Done) => {
                self.phase = Phase::Halted;
                SessionAction::Halt
            },
            (Phase::Halted, SessionEvent::Done) => {
                self.phase = Phase::Stopped;
                SessionAction::StopLink
            },
            (Phase::Stopped, _) => SessionAction::End(crate::text::clone_text(&self.failure)),
            _ => self.end(Some("the session lost its place".to_owned())),
        }
    }
}

fn since(count: u64, before: u64) -> (r: u64)
    ensures
        r == added(count, before),
{
    if count >= before {
        count - before
    } else {
        0
    }
}

impl Status {
    /// A phone was found.
    pub fn show_device(&mut self, label: String)
        ensures
            final(self)@ == (StatusView { device: Some(label@), ..old(self)@ }),
    {
        self.device = Some(label);
    }

    /// A tunnel is up.
    pub fn show_tunnel(&mut self, interface: String, lease: &Lease)
        ensures
            final(self)@ == (StatusView {
                link_up: true,
                interface: Some(interface@),
                address: Some(lease@.ip),
                gateway: lease@.router,
                dns: lease@.dns,
                ..old(self)@
            }),
    {
        let copy = lease.clone();
        self.link_up = true;
        self.interface = Some(interface);
        self.address = Some(copy.ip);
        self.gateway = copy.router;
        self.dns = copy.dns;
    }

    /// Packets were counted.
    pub fn show_packets(&mut self, packets_in: u64, packets_out: u64)
        ensures
            final(self)@ == (StatusView { packets_in, packets_out, ..old(self)@ }),
    {
        self.packets_in = packets_in;
        self.packets_out = packets_out;
    }
}

/// Whatever ends a session, the rest is the same, and in this order: delivery stops,
/// the tunnel goes down, the device is told, the link stops; then the session ends
/// with the reason it was ended for.
pub proof fn sessions_end_in_order(st: SessionState, why: Option<Seq<char>>)
    ensures
        ({
            let (a1, s1) = st.ending(why);
            let (a2, s2) = s1.step(SessionEvent::Done);
            let (a3, s3) = s2.step(SessionEvent::Done);
            let (a4, s4) = s3.step(SessionEvent::Done);
            let (a5, _) = s4.step(SessionEvent::Done);
            &&& a1 is Detach
            &&& a2 is Lower && s2.tunnel is None
            &&& a3 is Halt
            &&& a4 is StopLink
            &&& a5 == SessionActionView::End(why)
        }),
{
}

/// A renewal of the address in use leaves the tunnel alone; any other lease replaces
/// it, and the session does not count on the old tunnel meanwhile.
pub proof fn only_a_new_address_replaces_the_tunnel(st: SessionState, lease: Box<Lease>)
    requires
        st.phase == Phase::Listening,
    ensures
        ({
            let (action, after) = st.step(
                SessionEvent::Heard(Some(LinkEvent::Bound(lease))),
            );
            if st.tunnel == Some(lease.ip) {
                action is ReadClock && after.tunnel == st.tunnel
            } else {
                action == SessionActionView::Replace((*lease)@) && after.tunnel is None
            }
        }),
{
}

/// Keepalives go out when they are due and not before, and each schedules the next
/// ten seconds on.
pub proof fn keepalives_are_timely(st: SessionState, now: Instant)
    requires
        st.phase == Phase::Timing,
    ensures
        ({
            let (action, after) = st.step(SessionEvent::Time(now));
            &&& action is Keepalive <==> now.nanos >= st.next_keepalive.nanos
            &&& action is Keepalive ==> after.next_keepalive == now.after(keepalive_interval())
            &&& !(action is Keepalive) ==> after.next_keepalive == st.next_keepalive
        }),
{
}

/// Whether `event` answers what a session in this phase asked for.
pub open spec fn answers(phase: Phase, event: SessionEvent) -> bool {
    match phase {
        Phase::Round => event is Stop,
        Phase::Listening => event is Heard,
        Phase::Raising(_) => event is Raised,
        Phase::Timing => event is Time,
        Phase::Keeping => event is KeptAlive,
        _ => event is Done,
    }
}

/// Whether a session in this phase has just asked for `action`.
pub open spec fn asks(phase: Phase, action: SessionActionView) -> bool {
    match phase {
        Phase::Round => action is AskStop,
        Phase::Listening => action is Listen,
        Phase::Raising(_) => action is Replace,
        Phase::Timing => action is ReadClock,
        Phase::Keeping => action is Keepalive,
        Phase::Reporting => action is Report,
        Phase::Detached => action is Detach,
        Phase::Lowered => action is Lower,
        Phase::Halted => action is Halt,
        Phase::Stopped => action is StopLink || action is End,
    }
}

/// How far along a round, or the end, a phase stands.
pub open spec fn place(phase: Phase) -> nat {
    match phase {
        Phase::Round => 0,
        Phase::Listening => 1,
        Phase::Raising(_) => 2,
        Phase::Timing => 3,
        Phase::Keeping => 4,
        Phase::Reporting => 5,
        Phase::Detached => 6,
        Phase::Lowered => 7,
        Phase::Halted => 8,
        Phase::Stopped => 9,
    }
}

/// A shutdown that is asked for is noticed in every round: each step moves on, or
/// comes back to the start of a round, where the question is asked again.
pub proof fn every_round_comes_back_to_asking(st: SessionState, event: SessionEvent)
    requires
        answers(st.phase, event),
        st.phase != Phase::Stopped,
    ensures
        ({
            let (action, after) = st.step(event);
            &&& asks(after.phase, action)
            &&& after.phase == Phase::Round || place(after.phase) > place(st.phase)
        }),
        st.phase == Phase::Round && event == SessionEvent::Stop(true) ==> st.step(event)
            == st.ending(None),
{
}

/// A session looks at its link every tenth of a second and sends a keepalive every ten
/// seconds.
pub proof fn sessions_keep_their_pace(st: SessionState, now: Instant)
    requires
        now.nanos + 10_000_000_000 <= u64::MAX,
    ensures
        st.phase == Phase::Round ==> st.step(SessionEvent::Stop(false)).0
            == SessionActionView::Listen(Duration { nanos: 100_000_000 }),
        st.phase == Phase::Timing && now.nanos >= st.next_keepalive.nanos ==> ({
            let (action, after) = st.step(SessionEvent::Time(now));
            &&& action is Keepalive
            &&& after.next_keepalive.nanos == now.nanos + 10_000_000_000
            &&& after.tunnel == st.tunnel
        }),
        st.phase == Phase::Timing && now.nanos < st.next_keepalive.nanos ==> ({
            let (action, after) = st.step(SessionEvent::Time(now));
            &&& action is AskStop
            &&& after == st.at(Phase::Round)
        }),
{
}

/// Traffic is reported as what was added: with counts that only grow, each report
/// brings the last count up to the new one, so that the reports of a session add up to
/// all that was counted.
pub proof fn reports_add_up(st: SessionState, count: Traffic)
    requires
        st.phase == Phase::Keeping,
    ensures
        ({
            let (action, after) = st.step(SessionEvent::KeptAlive(Ok(count)));
            &&& after.last == count
            &&& after.phase == Phase::Reporting
            &&& after.tunnel == st.tunnel
            &&& action matches SessionActionView::Report(t) && {
                &&& count.bytes_in >= st.last.bytes_in ==> st.last.bytes_in + t.bytes_in
                    == count.bytes_in
                &&& count.bytes_out >= st.last.bytes_out ==> st.last.bytes_out + t.bytes_out
                    == count.bytes_out
                &&& count.bytes_in < st.last.bytes_in ==> t.bytes_in == 0
                &&& count.bytes_out < st.last.bytes_out ==> t.bytes_out == 0
            }
        }),
{
}

/// What went wrong is what the session ends with: a failed link, a tunnel that did not
/// come up, or a keepalive that was not answered. A shutdown is no failure.
pub proof fn failures_are_reported(st: SessionState, why: String)
    ensures
        st.phase == Phase::Listening ==> {
            let (action, after) = st.step(SessionEvent::Heard(Some(LinkEvent::Failed(why))));
            action is Detach && after.phase == Phase::Detached && after.failure == Some(
                "link failed: "@ + why@,
            )
        },
        st.phase is Raising ==> {
            let (action, after) = st.step(SessionEvent::Raised(Err(why)));
            action is Detach && after.phase == Phase::Detached && after.failure == Some(why@)
        },
        st.phase == Phase::Keeping ==> {
            let (action, after) = st.step(SessionEvent::KeptAlive(Err(why)));
            action is Detach && after.phase == Phase::Detached && after.failure == Some(
                "keepalive failed: "@ + why@,
            )
        },
        st.phase == Phase::Round ==> {
            let (action, after) = st.step(SessionEvent::Stop(true));
            action is Detach && after.phase == Phase::Detached && after.failure is None
        },
{
}

/// A lease for a new address replaces the tunnel. Once the new one is up its address is
/// the one in use, and renewing it changes nothing.
pub proof fn raised_tunnels_are_in_use(st: SessionState, lease: Box<Lease>, again: Box<Lease>)
    requires
        st.phase == Phase::Listening,
        st.tunnel != Some(lease.ip),
        again.ip == lease.ip,
    ensures
        ({
            let (replace, raising) = st.step(SessionEvent::Heard(Some(LinkEvent::Bound(lease))));
            let (read, up) = raising.step(SessionEvent::Raised(Ok(())));
            let (then, kept) = up.at(Phase::Listening).step(
                SessionEvent::Heard(Some(LinkEvent::Bound(again))),
            );
            &&& replace == SessionActionView::Replace((*lease)@)
            &&& read is ReadClock
            &&& up.tunnel == Some(lease.ip)
            &&& up.next_keepalive == st.next_keepalive
            &&& up.last == st.last
            &&& then is ReadClock
            &&& kept.tunnel == Some(lease.ip)
        }),
{
}

/// What is said of a session's action is what stands in it.
pub proof fn session_actions_show_all_they_hold(
    time: Duration,
    lease: Box<Lease>,
    traffic: Traffic,
    why: String,
)
    ensures
        SessionAction::Listen(time)@ == SessionActionView::Listen(time),
        SessionAction::Replace(lease)@ == SessionActionView::Replace((*lease)@),
        SessionAction::Report(traffic)@ == SessionActionView::Report(traffic),
        SessionAction::End(Some(why))@ == SessionActionView::End(Some(why@)),
        SessionAction::End(None)@ == SessionActionView::End(None),
        SessionAction::AskStop@ is AskStop,
        SessionAction::ReadClock@ is ReadClock,
        SessionAction::Keepalive@ is Keepalive,
        SessionAction::Detach@ is Detach,
        SessionAction::Lower@ is Lower,
        SessionAction::Halt@ is Halt,
        SessionAction::StopLink@ is StopLink,
{
}

/// An event that answers nothing the session asked for ends it, and says so.
pub proof fn sessions_end_when_they_lose_their_place(st: SessionState, event: SessionEvent)
    requires
        !answers(st.phase, event),
        st.phase != Phase::Stopped,
    ensures
        ({
            let (action, after) = st.step(event);
            &&& action is Detach
            &&& after.phase == Phase::Detached
            &&& after.failure == Some("the session lost its place"@)
        }),
{
}

} // verus!
