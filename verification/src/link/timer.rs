//! When to send the next DHCP message.

use vstd::prelude::*;

use crate::netstack::dhcp::{message_of, ClientState, DhcpClient, Lease, State};
use crate::time::{secs, Duration, Instant};

verus! {

/// First pause before a retransmission.
pub open spec fn retry_min() -> Duration {
    secs(1)
}

/// Longest pause between retransmissions.
pub open spec fn retry_max() -> Duration {
    secs(16)
}

/// Retransmit backoff for whatever DHCP is currently waiting on.
#[derive(Clone, Copy, Debug, PartialEq, Eq)]
pub struct DhcpTimer {
    pub next: Instant,
    pub backoff: Duration,
    pub renew_at: Option<Instant>,
}

/// Twice the pause, but no more than the longest.
pub open spec fn doubled(backoff: Duration) -> Duration {
    if 2 * backoff.nanos > retry_max().nanos {
        retry_max()
    } else {
        Duration { nanos: (2 * backoff.nanos) as u64 }
    }
}

impl DhcpTimer {
    /// A timer started at `now`.
    pub open spec fn started(now: Instant) -> DhcpTimer {
        DhcpTimer { next: now.after(retry_min()), backoff: retry_min(), renew_at: None }
    }

    /// After a lease was bound at `now`: nothing until it is time to renew.
    pub open spec fn after_bound(now: Instant, renewal_time: Duration) -> DhcpTimer {
        DhcpTimer {
            next: now.after(renewal_time),
            backoff: retry_min(),
            renew_at: Some(now.after(renewal_time)),
        }
    }

    /// Starting over: due at once.
    pub open spec fn restarted(now: Instant) -> DhcpTimer {
        DhcpTimer { next: now, backoff: retry_min(), renew_at: None }
    }

    /// What is due at `now`: the message, the timer and the client after it. A
    /// timer that ran out on a bound lease renews it; otherwise whatever is pending
    /// is repeated with twice the pause, and nothing pending means the previous
    /// attempt was abandoned, so discovery starts over.
    pub open spec fn expired(self, now: Instant, client: ClientState) -> (
        Option<Seq<u8>>,
        DhcpTimer,
        ClientState,
    ) {
        if now.nanos < self.next.nanos {
            (None, self, client)
        } else if self.renew_at is Some {
            let (message, after) = client.renewing();
            (
                message,
                DhcpTimer {
                    next: now.after(retry_min()),
                    backoff: retry_min(),
                    renew_at: None,
                },
                after,
            )
        } else {
            let backoff = doubled(self.backoff);
            let timer = DhcpTimer { next: now.after(backoff), backoff, renew_at: None };
            match client.pending() {
                Some(message) => (Some(message), timer, client),
                None => (
                    Some(client.discovering().discover_message()),
                    timer,
                    client.discovering(),
                ),
            }
        }
    }

    pub fn new(now: Instant) -> (r: Self)
        ensures
            r == Self::started(now),
    {
        let backoff = Duration::from_secs(1);
        DhcpTimer { next: now.plus(backoff), backoff, renew_at: None }
    }

    pub fn bound(&mut self, lease: &Lease, now: Instant)
        ensures
            *final(self) == Self::after_bound(now, lease.renewal_time),
    {
        let at = now.plus(lease.renewal_time);
        self.backoff = Duration::from_secs(1);
        self.renew_at = Some(at);
        self.next = at;
    }

    pub fn restart(&mut self, now: Instant)
        ensures
            *final(self) == Self::restarted(now),
    {
        self.backoff = Duration::from_secs(1);
        self.next = now;
        self.renew_at = None;
    }

    /// The next message to send, if a timer has expired.
    pub fn due(&mut self, dhcp: &mut DhcpClient, now: Instant) -> (r: Option<Vec<u8>>)
        ensures
            (message_of(r), *final(self), final(dhcp)@) == old(self).expired(now, old(dhcp)@),
    {
        if now.is_before(self.next) {
            return None;
        }
        if self.renew_at.is_some() {
            self.renew_at = None;
            self.backoff = Duration::from_secs(1);
            self.next = now.plus(self.backoff);
            return dhcp.renew();
        }
        let longest = Duration::from_secs(16);
        self.backoff =
        if self.backoff.nanos > longest.nanos / 2 {
            longest
        } else {
            Duration { nanos: 2 * self.backoff.nanos }
        };
        self.next = now.plus(self.backoff);
        match dhcp.retransmit() {
            Some(message) => Some(message),
            // Nothing pending means the previous attempt was abandoned; start over.
            None => Some(dhcp.discover()),
        }
    }
}

/// What every timer keeps: a pause between the shortest and the longest.
pub open spec fn paced(t: DhcpTimer) -> bool {
    retry_min().nanos <= t.backoff.nanos <= retry_max().nanos
}

/// Whatever happens, the pause stays between one and sixteen seconds, and each
/// retransmission at least keeps it.
pub proof fn backoff_stays_in_bounds(
    t: DhcpTimer,
    now: Instant,
    renewal_time: Duration,
    client: ClientState,
)
    requires
        paced(t),
    ensures
        paced(DhcpTimer::started(now)),
        paced(DhcpTimer::after_bound(now, renewal_time)),
        paced(DhcpTimer::restarted(now)),
        paced(t.expired(now, client).1),
        t.renew_at is None && now.nanos >= t.next.nanos ==> t.expired(now, client).1.backoff.nanos
            >= t.backoff.nanos,
{
}

/// A timer that ran out always leads to a message, unless it was to renew a lease
/// that is gone.
pub proof fn expiry_sends_something(t: DhcpTimer, now: Instant, client: ClientState)
    requires
        now.nanos >= t.next.nanos,
        t.renew_at is None || client.lease is Some,
    ensures
        t.expired(now, client).0 is Some,
{
}

/// Nothing is sent before its time.
pub proof fn nothing_is_sent_early(t: DhcpTimer, now: Instant, client: ClientState)
    requires
        now.nanos < t.next.nanos,
    ensures
        t.expired(now, client) == (None::<Seq<u8>>, t, client),
{
}

/// A bound lease is renewed when its renewal time has come, and not before.
pub proof fn renewal_is_timely(
    bound_at: Instant,
    renewal_time: Duration,
    now: Instant,
    client: ClientState,
)
    requires
        client.lease is Some,
    ensures
        ({
            let t = DhcpTimer::after_bound(bound_at, renewal_time);
            let (message, _, after) = t.expired(now, client);
            &&& message is Some <==> now.nanos >= bound_at.after(renewal_time).nanos
            &&& message is Some ==> after.state == State::Renewing && message
                == client.renewing().0
        }),
{
}

/// A link that starts sends again after a second if nothing came, a bound one not before
/// its renewal time, and one that was refused at once.
pub proof fn timers_wait_as_told(now: Instant, renewal_time: Duration)
    requires
        now.nanos + renewal_time.nanos <= u64::MAX,
        now.nanos + 1_000_000_000 <= u64::MAX,
    ensures
        DhcpTimer::started(now).next.nanos == now.nanos + 1_000_000_000,
        DhcpTimer::started(now).backoff.nanos == 1_000_000_000,
        DhcpTimer::started(now).renew_at is None,
        DhcpTimer::after_bound(now, renewal_time).next.nanos == now.nanos + renewal_time.nanos,
        DhcpTimer::after_bound(now, renewal_time).renew_at is Some,
        DhcpTimer::restarted(now).next.nanos == now.nanos,
        DhcpTimer::restarted(now).backoff.nanos == 1_000_000_000,
        DhcpTimer::restarted(now).renew_at is None,
{
}

/// A timer that runs out on an unanswered message repeats that very message and leaves
/// the client as it is; where nothing is unanswered, discovery begins anew. Either way
/// the pause doubles, to sixteen seconds at most, and is waited out before the next.
pub proof fn repeats_wait_twice_as_long(t: DhcpTimer, now: Instant, client: ClientState)
    requires
        t.renew_at is None,
        now.nanos >= t.next.nanos,
        now.nanos + 16_000_000_000 <= u64::MAX,
    ensures
        ({
            let (message, after, heard) = t.expired(now, client);
            &&& client.pending() is Some ==> message == client.pending() && heard == client
            &&& client.pending() is None ==> {
                &&& heard == client.discovering()
                &&& message == heard.pending()
            }
            &&& t.backoff.nanos <= 8_000_000_000 ==> after.backoff.nanos == 2 * t.backoff.nanos
            &&& t.backoff.nanos > 8_000_000_000 ==> after.backoff.nanos == 16_000_000_000
            &&& after.next.nanos == now.nanos + after.backoff.nanos
            &&& after.renew_at is None
        }),
{
}

/// A timer that runs out on a lease asks once to renew it, and a second later falls back
/// to repeating itself.
pub proof fn renewals_are_followed_up(t: DhcpTimer, now: Instant, client: ClientState)
    requires
        t.renew_at is Some,
        now.nanos >= t.next.nanos,
        client.lease is Some,
        now.nanos + 1_000_000_000 <= u64::MAX,
    ensures
        ({
            let (message, after, heard) = t.expired(now, client);
            &&& message is Some
            &&& heard.state == State::Renewing
            &&& heard.lease == client.lease
            &&& heard.pending() == message
            &&& after.renew_at is None
            &&& after.next.nanos == now.nanos + 1_000_000_000
            &&& after.backoff.nanos == 1_000_000_000
        }),
{
}

} // verus!
