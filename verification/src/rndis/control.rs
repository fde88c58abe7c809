//! RNDIS control channel: bring-up sequence and keepalives.
//!
//! Hardware-free — the caller supplies a `ControlTransport` over the USB
//! control endpoint, so the whole sequence runs without a phone.

use vstd::arithmetic::power2::{lemma2_to64, lemma_pow2_pos, lemma_pow2_strictly_increases, pow2};
use vstd::prelude::*;

use crate::bytes::{le32, le32_at, put_le32, zeros};
use crate::rndis::channel::{bytes_of, extends, Channel, ControlTransport, Event};
use crate::rndis::error::{Error, Result};
use crate::rndis::wire;
use crate::rndis::wire::{
    completion, halt_message, init_complete, init_message, keepalive_complete_message,
    keepalive_message, query_complete, query_message, set_message, InitComplete,
};
use crate::time::{millis, secs, Duration, Instant};

verus! {

/// Size we advertise as the largest transfer we can receive.
pub const HOST_MAX_TRANSFER_SIZE: u32 = 16384;

/// Bound on the polls of one transaction. The deadline ends it long before.
pub const MAX_POLLS: u64 = u64::MAX;

/// How long we wait for a control response before giving up.
pub open spec fn transaction_timeout() -> Duration {
    secs(5)
}

/// Bound on a single `await_response` wait, so a device that never raises
/// RESPONSE_AVAILABLE still gets polled.
pub open spec fn poll_interval() -> Duration {
    millis(50)
}

#[derive(Clone, Copy, Debug, PartialEq, Eq, Structural)]
pub enum LinkState {
    Unknown,
    Up,
    Down,
}

/// What the device told us during bring-up.
#[derive(Clone, Copy, Debug)]
pub struct Session {
    /// The MAC the gadget designates for the *host* side of the link, as
    /// Linux's rndis_host assigns to its own interface.
    pub host_mac: [u8; 6],
    /// Largest transfer the device will accept from us.
    pub device_max_transfer_size: u32,
    pub max_packets_per_transfer: u32,
    pub packet_alignment: u32,
}

/// A session as plain values.
#[verifier::ext_equal]
pub struct SessionView {
    pub host_mac: Seq<u8>,
    pub device_max_transfer_size: u32,
    pub max_packets_per_transfer: u32,
    pub packet_alignment: u32,
}

impl View for Session {
    type V = SessionView;

    open spec fn view(&self) -> SessionView {
        SessionView {
            host_mac: self.host_mac@,
            device_max_transfer_size: self.device_max_transfer_size,
            max_packets_per_transfer: self.max_packets_per_transfer,
            packet_alignment: self.packet_alignment,
        }
    }
}

/// How an exchange on the channel came out, and where the record stands behind
/// it.
pub struct Settled<A> {
    pub result: Result<A>,
    pub link: LinkState,
    pub next_id: u32,
    pub next: int,
}

/// The request id after `id`: never zero.
pub open spec fn following(id: u32) -> u32 {
    if id == u32::MAX {
        1
    } else {
        (id + 1) as u32
    }
}

/// The link state after an indication; a status that is not about the medium
/// changes nothing.
pub open spec fn link_after(link: LinkState, status: u32) -> LinkState {
    if status == wire::STATUS_MEDIA_CONNECT {
        LinkState::Up
    } else if status == wire::STATUS_MEDIA_DISCONNECT {
        LinkState::Down
    } else {
        link
    }
}

/// What becomes of a message the device sent on its own: an indication moves the
/// link state, a ping is answered with its own request id, anything else is
/// ignored. `None` where the record shows something else.
pub open spec fn serviced(es: Seq<Event>, at: int, reply: Seq<u8>, link: LinkState) -> Option<
    (Result<()>, LinkState, int),
> {
    let kind = le32_at(reply, 0);
    let word = le32_at(reply, 8);
    if kind == wire::MSG_INDICATE {
        Some((Ok(()), link_after(link, word), at))
    } else if kind == wire::MSG_KEEPALIVE {
        if at >= es.len() {
            None
        } else {
            match es[at] {
                Event::Sent { message, outcome } => if message == keepalive_complete_message(word) {
                    Some((outcome, link, at + 1))
                } else {
                    None
                },
                _ => None,
            }
        }
    } else {
        Some((Ok(()), link, at))
    }
}

/// What one poll does to a wait.
pub enum Step {
    /// The record shows something else.
    Stuck,
    /// The wait is over.
    Done(Result<Seq<u8>>, LinkState, int),
    /// Nothing of ours was heard; the wait goes on from here.
    Again(LinkState, int),
}

/// What a received message does to the wait for completion `expect` of request
/// `id`. Short reads and completions of other requests are skipped.
pub open spec fn weighed(
    es: Seq<Event>,
    at: int,
    reply: Seq<u8>,
    expect: u32,
    id: u32,
    link: LinkState,
) -> Step {
    if reply.len() < 12 {
        Step::Again(link, at)
    } else if le32_at(reply, 0) == expect {
        if reply.len() < 16 {
            Step::Done(Err(Error::Truncated), link, at)
        } else if le32_at(reply, 8) == id {
            Step::Done(Ok(reply), link, at)
        } else {
            Step::Again(link, at)
        }
    } else {
        match serviced(es, at, reply, link) {
            None => Step::Stuck,
            Some((Err(e), link, next)) => Step::Done(Err(e), link, next),
            Some((Ok(_), link, next)) => Step::Again(link, next),
        }
    }
}

/// One poll: unless the deadline has passed, wait a moment, read, and weigh what
/// was read.
pub open spec fn polled(
    es: Seq<Event>,
    at: int,
    expect: u32,
    id: u32,
    deadline: Instant,
    link: LinkState,
) -> Step {
    if at >= es.len() {
        Step::Stuck
    } else {
        match es[at] {
            Event::Clock { now } => if now.nanos >= deadline.nanos {
                Step::Done(Err(Error::NoResponse), link, at + 1)
            } else if at + 1 >= es.len() {
                Step::Stuck
            } else {
                match es[at + 1] {
                    Event::Waited { timeout, outcome } => if timeout != poll_interval() {
                        Step::Stuck
                    } else {
                        match outcome {
                            Err(e) => Step::Done(Err(e), link, at + 2),
                            Ok(_) => if at + 2 >= es.len() {
                                Step::Stuck
                            } else {
                                match es[at + 2] {
                                    Event::Heard { reply: Err(e) } => Step::Done(
                                        Err(e),
                                        link,
                                        at + 3,
                                    ),
                                    Event::Heard { reply: Ok(reply) } => weighed(
                                        es,
                                        at + 3,
                                        reply,
                                        expect,
                                        id,
                                        link,
                                    ),
                                    _ => Step::Stuck,
                                }
                            },
                        }
                    },
                    _ => Step::Stuck,
                }
            },
            _ => Step::Stuck,
        }
    }
}

/// How waiting for a completion comes out: poll until it is heard, something
/// fails, or the deadline passes.
pub open spec fn awaited(
    es: Seq<Event>,
    at: int,
    expect: u32,
    id: u32,
    deadline: Instant,
    link: LinkState,
    polls: nat,
) -> Option<Settled<Seq<u8>>>
    decreases polls,
{
    let next_id = following(id);
    if polls == 0 {
        Some(Settled { result: Err(Error::NoResponse), link, next_id, next: at })
    } else {
        match polled(es, at, expect, id, deadline, link) {
            Step::Stuck => None,
            Step::Done(result, link, next) => Some(Settled { result, link, next_id, next }),
            Step::Again(link, next) => awaited(
                es,
                next,
                expect,
                id,
                deadline,
                link,
                (polls - 1) as nat,
            ),
        }
    }
}

/// How a command comes out: it is sent, then its completion awaited for five
/// seconds.
pub open spec fn transacted(
    es: Seq<Event>,
    at: int,
    message: Seq<u8>,
    expect: u32,
    id: u32,
    link: LinkState,
) -> Option<Settled<Seq<u8>>> {
    if at >= es.len() {
        None
    } else {
        match es[at] {
            Event::Sent { message: sent, outcome } => if sent != message {
                None
            } else {
                match outcome {
                    Err(e) => Some(
                        Settled { result: Err(e), link, next_id: following(id), next: at + 1 },
                    ),
                    Ok(_) => if at + 1 >= es.len() {
                        None
                    } else {
                        match es[at + 1] {
                            Event::Clock { now } => awaited(
                                es,
                                at + 2,
                                expect,
                                id,
                                now.after(transaction_timeout()),
                                link,
                                MAX_POLLS as nat,
                            ),
                            _ => None,
                        }
                    },
                }
            },
            _ => None,
        }
    }
}

/// The same outcome with the result put through `f`.
pub open spec fn concluded<A, B>(
    s: Option<Settled<A>>,
    f: spec_fn(A) -> Result<B>,
) -> Option<Settled<B>> {
    match s {
        None => None,
        Some(s) => Some(
            Settled {
                result: match s.result {
                    Err(e) => Err(e),
                    Ok(a) => f(a),
                },
                link: s.link,
                next_id: s.next_id,
                next: s.next,
            },
        ),
    }
}

/// What an INITIALIZE completion tells: the device's limits, or why there is no
/// link.
pub open spec fn init_verdict(reply: Seq<u8>) -> Result<InitComplete> {
    match init_complete(reply) {
        Err(e) => Err(e),
        Ok(init) => if init.status != wire::STATUS_SUCCESS {
            Err(Error::Status(init.status))
        } else if init.max_transfer_size == 0 {
            Err(Error::Malformed("device advertised a zero transfer size"))
        } else {
            Ok(init)
        },
    }
}

/// Accept or reject the reply to INITIALIZE.
pub fn check_init(reply: &[u8]) -> (r: Result<InitComplete>)
    ensures
        r == init_verdict(reply@),
{
    let init = wire::decode_init_complete(reply)?;
    if init.status != wire::STATUS_SUCCESS {
        return Err(Error::Status(init.status));
    }
    if init.max_transfer_size == 0 {
        return Err(Error::Malformed("device advertised a zero transfer size"));
    }
    Ok(init)
}

/// What a QUERY completion tells: the information buffer of a success.
pub open spec fn query_verdict(reply: Seq<u8>) -> Result<Seq<u8>> {
    match query_complete(reply) {
        Err(e) => Err(e),
        Ok((_, status, info)) => if status != wire::STATUS_SUCCESS {
            Err(Error::Status(status))
        } else {
            Ok(info)
        },
    }
}

/// Accept or reject the reply to QUERY.
pub fn check_query(reply: &[u8]) -> (r: Result<Vec<u8>>)
    ensures
        bytes_of(r) == query_verdict(reply@),
{
    let (_, status, info) = wire::decode_query_complete(reply)?;
    if status != wire::STATUS_SUCCESS {
        return Err(Error::Status(status));
    }
    Ok(vstd::slice::slice_to_vec(info))
}

/// What any other completion tells.
pub open spec fn completion_verdict(reply: Seq<u8>) -> Result<()> {
    match completion(reply) {
        Err(e) => Err(e),
        Ok((_, status)) => if status != wire::STATUS_SUCCESS {
            Err(Error::Status(status))
        } else {
            Ok(())
        },
    }
}

/// Accept or reject the reply to SET or KEEPALIVE.
pub fn check_completion(reply: &[u8]) -> (r: Result<()>)
    ensures
        r == completion_verdict(reply@),
{
    let (_, status) = wire::decode_completion(reply)?;
    if status != wire::STATUS_SUCCESS {
        return Err(Error::Status(status));
    }
    Ok(())
}

/// The MAC in the answer to an address query: its first six bytes, unless they
/// are all zero.
pub open spec fn mac_in(answer: Result<Seq<u8>>) -> Option<Seq<u8>> {
    match answer {
        Ok(info) => if info.len() >= 6 && info.take(6) != zeros(6) {
            Some(info.take(6))
        } else {
            None
        },
        Err(_) => None,
    }
}

/// The MAC in an information buffer, if it holds a usable one.
pub fn usable_mac(info: &[u8]) -> (r: Option<[u8; 6]>)
    ensures
        match r {
            Some(mac) => mac_in(Ok(info@)) == Some(mac@),
            None => mac_in(Ok(info@)) == None::<Seq<u8>>,
        },
{
    if info.len() < 6 {
        return None;
    }
    let mac: [u8; 6] = [info[0], info[1], info[2], info[3], info[4], info[5]];
    assert(mac@ =~= info@.take(6));
    if mac[0] == 0 && mac[1] == 0 && mac[2] == 0 && mac[3] == 0 && mac[4] == 0 && mac[5] == 0 {
        assert(mac@ =~= zeros(6));
        None
    } else {
        assert(mac@ != zeros(6)) by {
            assert(zeros(6)[0] == 0 && zeros(6)[1] == 0 && zeros(6)[2] == 0 && zeros(6)[3] == 0
                && zeros(6)[4] == 0 && zeros(6)[5] == 0);
        }
        Some(mac)
    }
}

/// How INITIALIZE comes out.
pub open spec fn initialized(es: Seq<Event>, at: int, id: u32, link: LinkState) -> Option<
    Settled<InitComplete>,
> {
    concluded(
        transacted(es, at, init_message(id, HOST_MAX_TRANSFER_SIZE), wire::MSG_INIT_C, id, link),
        |reply: Seq<u8>| init_verdict(reply),
    )
}

/// How a QUERY comes out.
pub open spec fn queried(es: Seq<Event>, at: int, oid: u32, id: u32, link: LinkState) -> Option<
    Settled<Seq<u8>>,
> {
    concluded(
        transacted(es, at, query_message(id, oid), wire::MSG_QUERY_C, id, link),
        |reply: Seq<u8>| query_verdict(reply),
    )
}

/// How a SET comes out.
pub open spec fn was_set(
    es: Seq<Event>,
    at: int,
    oid: u32,
    data: Seq<u8>,
    id: u32,
    link: LinkState,
) -> Option<Settled<()>> {
    concluded(
        transacted(es, at, set_message(id, oid, data), wire::MSG_SET_C, id, link),
        |reply: Seq<u8>| completion_verdict(reply),
    )
}

/// How a KEEPALIVE comes out.
pub open spec fn kept_alive(es: Seq<Event>, at: int, id: u32, link: LinkState) -> Option<
    Settled<()>,
> {
    concluded(
        transacted(es, at, keepalive_message(id), wire::MSG_KEEPALIVE_C, id, link),
        |reply: Seq<u8>| completion_verdict(reply),
    )
}

/// How looking for the MAC comes out: the permanent address is asked first, the
/// current one only if that yields nothing usable.
pub open spec fn mac_found(es: Seq<Event>, at: int, id: u32, link: LinkState) -> Option<
    Settled<Seq<u8>>,
> {
    match queried(es, at, wire::OID_802_3_PERMANENT_ADDRESS, id, link) {
        None => None,
        Some(first) => match mac_in(first.result) {
            Some(mac) => Some(
                Settled {
                    result: Ok(mac),
                    link: first.link,
                    next_id: first.next_id,
                    next: first.next,
                },
            ),
            None => match queried(
                es,
                first.next,
                wire::OID_802_3_CURRENT_ADDRESS,
                first.next_id,
                first.link,
            ) {
                None => None,
                Some(second) => Some(
                    Settled {
                        result: match mac_in(second.result) {
                            Some(mac) => Ok(mac),
                            None => Err(
                                Error::Malformed("device did not report a usable MAC"),
                            ),
                        },
                        link: second.link,
                        next_id: second.next_id,
                        next: second.next,
                    },
                ),
            },
        },
    }
}

/// `n`, but at least one.
pub open spec fn at_least_one(n: u32) -> u32 {
    if n == 0 {
        1
    } else {
        n
    }
}

/// How bring-up comes out: INITIALIZE, the MAC, then the packet filter, each only
/// if what came before succeeded. A link nobody reported on counts as up once
/// the filter is set.
pub open spec fn brought_up(es: Seq<Event>, at: int, id: u32, link: LinkState) -> Option<
    Settled<SessionView>,
> {
    match initialized(es, at, id, link) {
        None => None,
        Some(s) => match s.result {
            Err(e) => Some(
                Settled { result: Err(e), link: s.link, next_id: s.next_id, next: s.next },
            ),
            Ok(init) => match mac_found(es, s.next, s.next_id, s.link) {
                None => None,
                Some(m) => match m.result {
                    Err(e) => Some(
                        Settled { result: Err(e), link: m.link, next_id: m.next_id, next: m.next },
                    ),
                    Ok(mac) => match was_set(
                        es,
                        m.next,
                        wire::OID_GEN_CURRENT_PACKET_FILTER,
                        le32(wire::DEFAULT_PACKET_FILTER),
                        m.next_id,
                        m.link,
                    ) {
                        None => None,
                        Some(f) => match f.result {
                            Err(e) => Some(
                                Settled {
                                    result: Err(e),
                                    link: f.link,
                                    next_id: f.next_id,
                                    next: f.next,
                                },
                            ),
                            Ok(_) => Some(
                                Settled {
                                    result: Ok(
                                        SessionView {
                                            host_mac: mac,
                                            device_max_transfer_size: init.max_transfer_size,
                                            max_packets_per_transfer: at_least_one(
                                                init.max_packets_per_transfer,
                                            ),
                                            packet_alignment: at_least_one(
                                                init.packet_alignment,
                                            ),
                                        },
                                    ),
                                    link: if f.link == LinkState::Unknown {
                                        LinkState::Up
                                    } else {
                                        f.link
                                    },
                                    next_id: f.next_id,
                                    next: f.next,
                                },
                            ),
                        },
                    },
                },
            },
        },
    }
}

/// How draining device-initiated messages comes out: each is serviced until a
/// read comes back short.
pub open spec fn drained(es: Seq<Event>, at: int, link: LinkState, polls: nat) -> Option<
    (Result<LinkState>, LinkState, int),
>
    decreases polls,
{
    if polls == 0 {
        Some((Ok(link), link, at))
    } else if at >= es.len() {
        None
    } else {
        match es[at] {
            Event::Heard { reply: Err(e) } => Some((Err(e), link, at + 1)),
            Event::Heard { reply: Ok(reply) } => if reply.len() < 12 {
                Some((Ok(link), link, at + 1))
            } else {
                match serviced(es, at + 1, reply, link) {
                    None => None,
                    Some((Err(e), link, next)) => Some((Err(e), link, next)),
                    Some((Ok(_), link, next)) => drained(es, next, link, (polls - 1) as nat),
                }
            },
            _ => None,
        }
    }
}

pub struct Rndis<T> {
    channel: Channel<T>,
    next_request_id: u32,
    link: LinkState,
}

impl<T> Rndis<T> {
    /// Everything that happened on the control channel.
    pub closed spec fn log(&self) -> Seq<Event> {
        self.channel.log()
    }

    /// The transport as it was handed over.
    pub closed spec fn made_with(&self) -> T {
        self.channel.made_with()
    }

    /// The transport as it stands.
    pub closed spec fn transport(&self) -> T {
        self.channel.transport()
    }

    /// The id the next request will carry.
    pub closed spec fn next_id(&self) -> u32 {
        self.next_request_id
    }

    /// The link state as last reported.
    pub closed spec fn link(&self) -> LinkState {
        self.link
    }

    /// What every channel keeps: its link state goes with the last media status heard,
    /// and the next id is not zero.
    pub open spec fn is_current(&self) -> bool {
        &&& agrees(self.link(), last_media(self.log(), self.log().len() as int))
        &&& self.next_id() != 0
    }

    /// This channel, after an exchange that came out as `s`.
    pub open spec fn settled_as<A>(&self, before: &Rndis<T>, s: Option<Settled<A>>) -> bool {
        &&& extends(self.log(), before.log())
        &&& self.made_with() == before.made_with()
        &&& s is Some
        &&& s->0.next == self.log().len()
        &&& s->0.next_id == self.next_id()
        &&& s->0.link == self.link()
    }
}

impl<T: ControlTransport> Rndis<T> {
    pub fn new(transport: T) -> (r: Self)
        ensures
            r.log() == Seq::<Event>::empty(),
            r.next_id() == 1,
            r.link() == LinkState::Unknown,
            r.made_with() == transport,
            r.transport() == transport,
            r.is_current(),
    {
        Rndis { channel: Channel::new(transport), next_request_id: 1, link: LinkState::Unknown }
    }

    pub fn link_state(&self) -> (r: LinkState)
        ensures
            r == self.link(),
    {
        self.link
    }

    /// The transport itself; what is done to it changes nothing else here.
    pub fn transport_mut(&mut self) -> (r: &mut T)
        ensures
            *r == old(self).transport(),
            final(self).transport() == *final(r),
            final(self).log() == old(self).log(),
            final(self).next_id() == old(self).next_id(),
            final(self).link() == old(self).link(),
            final(self).made_with() == old(self).made_with(),
    {
        self.channel.transport_mut()
    }

    /// Best-effort shutdown; the device has no completion for HALT.
    pub fn halt(&mut self) -> (r: Result<()>)
        ensures
            final(self).log() == old(self).log().push(
                (Event::Sent { message: halt_message(old(self).next_id()), outcome: r }),
            ),
            final(self).next_id() == following(old(self).next_id()),
            final(self).link() == old(self).link(),
            final(self).made_with() == old(self).made_with(),
    {
        let id: u32 = self.take_request_id();
        self.channel.send(wire::encode_halt(id).as_slice())
    }

    /// The id for the next request. Ids count up from one, and around without zero.
    pub fn take_request_id(&mut self) -> (id: u32)
        ensures
            id == old(self).next_id(),
            final(self).transport() == old(self).transport(),
            old(self).is_current() ==> id != 0 && final(self).is_current(),
            final(self).next_id() == following(id),
            final(self).log() == old(self).log(),
            final(self).link() == old(self).link(),
            final(self).made_with() == old(self).made_with(),
    {
        let id: u32 = self.next_request_id;
        self.next_request_id = if id == u32::MAX {
            1
        } else {
            id + 1
        };
        id
    }

    /// Messages the device sends on its own: link-state changes, and its own
    /// keepalive pings, which must be answered.
    fn handle_unsolicited(&mut self, msg_type: u32, reply: &[u8]) -> (r: Result<()>)
        requires
            reply@.len() >= 12,
            msg_type == le32_at(reply@, 0),
        ensures
            extends(final(self).log(), old(self).log()),
            final(self).next_id() == old(self).next_id(),
            final(self).made_with() == old(self).made_with(),
            forall|l: Seq<Event>| #[trigger]
                extends(l, final(self).log()) ==> serviced(
                    l,
                    old(self).log().len() as int,
                    reply@,
                    old(self).link(),
                ) == Some((r, final(self).link(), final(self).log().len() as int)),
    {
        if msg_type == wire::MSG_INDICATE {
            let status: u32 = wire::decode_indicate_status(reply)?;
            if status == wire::STATUS_MEDIA_CONNECT {
                self.link = LinkState::Up;
            } else if status == wire::STATUS_MEDIA_DISCONNECT {
                self.link = LinkState::Down;
            }
            Ok(())
        } else if msg_type == wire::MSG_KEEPALIVE {
            let id: u32 = wire::u32_at(reply, 8)?;
            let answer = wire::encode_keepalive_complete(id);
            let r = self.channel.send(answer.as_slice());
            proof {
                let n = old(self).log().len() as int;
                assert(self.log()[n] == (Event::Sent { message: answer@, outcome: r }));
            }
            r
        } else {
            Ok(())
        }
    }

    /// One poll for the completion of a request: what ends the wait, if anything
    /// does.
    fn poll(&mut self, expect: u32, request_id: u32, deadline: Instant) -> (r: Option<
        Result<Vec<u8>>,
    >)
        ensures
            extends(final(self).log(), old(self).log()),
            final(self).next_id() == old(self).next_id(),
            final(self).made_with() == old(self).made_with(),
            forall|l: Seq<Event>| #[trigger]
                extends(l, final(self).log()) ==> polled(
                    l,
                    old(self).log().len() as int,
                    expect,
                    request_id,
                    deadline,
                    old(self).link(),
                ) == match r {
                    Some(result) => Step::Done(
                        bytes_of(result),
                        final(self).link(),
                        final(self).log().len() as int,
                    ),
                    None => Step::Again(final(self).link(), final(self).log().len() as int),
                },
    {
        let ghost here = self.log().len() as int;
        let interval = Duration::from_millis(50);
        let now = self.channel.now();
        assert(self.log()[here] == (Event::Clock { now }));
        if !now.is_before(deadline) {
            return Some(Err(Error::NoResponse));
        }
        let waited = self.channel.await_response(interval);
        assert(self.log()[here + 1] == (Event::Waited { timeout: interval, outcome: waited }));
        if let Err(e) = waited {
            return Some(Err(e));
        }
        let heard = self.channel.receive();
        assert(self.log()[here + 2] == (Event::Heard { reply: bytes_of(heard) }));
        let reply = match heard {
            Ok(reply) => reply,
            Err(e) => return Some(Err(e)),
        };
        if reply.len() < 12 {
            return None;
        }
        let msg_type: u32 = match wire::u32_at(reply.as_slice(), 0) {
            Ok(t) => t,
            Err(e) => return Some(Err(e)),
        };
        if msg_type == expect {
            return match wire::decode_completion(reply.as_slice()) {
                Err(e) => Some(Err(e)),
                Ok((id, _)) => if id == request_id {
                    Some(Ok(reply))
                } else {
                    // A completion for a stale request.
                    None
                },
            };
        }
        let ghost held = self.log();
        let handled = self.handle_unsolicited(msg_type, reply.as_slice());
        assert forall|l: Seq<Event>| #[trigger] extends(l, self.log()) implies extends(
            l,
            held,
        ) by {}
        match handled {
            Err(e) => Some(Err(e)),
            Ok(_) => None,
        }
    }

    /// Send a command and wait for its matching completion, servicing any
    /// device-initiated messages that arrive in between.
    fn transact(&mut self, msg: Vec<u8>, expect: u32, request_id: u32) -> (r: Result<Vec<u8>>)
        requires
            old(self).next_id() == following(request_id),
        ensures
            extends(final(self).log(), old(self).log()),
            final(self).next_id() == old(self).next_id(),
            final(self).made_with() == old(self).made_with(),
            forall|l: Seq<Event>| #[trigger]
                extends(l, final(self).log()) ==> transacted(
                    l,
                    old(self).log().len() as int,
                    msg@,
                    expect,
                    request_id,
                    old(self).link(),
                ) == Some(
                    (Settled {
                        result: bytes_of(r),
                        link: final(self).link(),
                        next_id: final(self).next_id(),
                        next: final(self).log().len() as int,
                    }),
                ),
    {
        let ghost start = self.log();
        let ghost link = self.link();
        let sent = self.channel.send(msg.as_slice());
        assert(self.log()[start.len() as int] == (Event::Sent { message: msg@, outcome: sent }));
        sent?;
        let now = self.channel.now();
        let ghost opened = self.log();
        assert(opened[start.len() + 1int] == (Event::Clock { now }));
        let deadline = now.plus(Duration::from_secs(5));

        let mut polls: u64 = MAX_POLLS;
        while polls > 0
            invariant
                start == old(self).log(),
                link == old(self).link(),
                old(self).next_id() == following(request_id),
                opened.len() == start.len() + 2,
                extends(opened, start),
                opened[start.len() as int] == (Event::Sent { message: msg@, outcome: Ok(()) }),
                opened[start.len() + 1int] == (Event::Clock { now }),
                extends(self.log(), opened),
                self.made_with() == old(self).made_with(),
                self.next_id() == following(request_id),
                deadline == now.after(transaction_timeout()),
                forall|l: Seq<Event>| #[trigger]
                    extends(l, self.log()) ==> awaited(
                        l,
                        opened.len() as int,
                        expect,
                        request_id,
                        deadline,
                        link,
                        MAX_POLLS as nat,
                    ) == awaited(
                        l,
                        self.log().len() as int,
                        expect,
                        request_id,
                        deadline,
                        self.link(),
                        polls as nat,
                    ),
            decreases polls,
        {
            let ghost held = self.log();
            let ended = self.poll(expect, request_id, deadline);
            proof {
                assert forall|l: Seq<Event>| #[trigger] extends(l, self.log()) implies extends(
                    l,
                    held,
                ) && extends(l, opened) by {}
            }
            if let Some(result) = ended {
                return result;
            }
            polls = polls - 1;
        }
        assert forall|l: Seq<Event>| #[trigger] extends(l, self.log()) implies extends(
            l,
            opened,
        ) by {}
        Err(Error::NoResponse)
    }

    pub fn initialize(&mut self) -> (r: Result<InitComplete>)
        ensures
            ({
                let s = initialized(
                    final(self).log(),
                    old(self).log().len() as int,
                    old(self).next_id(),
                    old(self).link(),
                );
                final(self).settled_as(old(self), s) && s->0.result == r
            }),
    {
        let id: u32 = self.take_request_id();
        let reply = self.transact(
            wire::encode_init(id, HOST_MAX_TRANSFER_SIZE),
            wire::MSG_INIT_C,
            id,
        );
        assert(extends(self.log(), self.log()));
        check_init(reply?.as_slice())
    }

    pub fn query(&mut self, oid: u32) -> (r: Result<Vec<u8>>)
        ensures
            ({
                let s = queried(
                    final(self).log(),
                    old(self).log().len() as int,
                    oid,
                    old(self).next_id(),
                    old(self).link(),
                );
                final(self).settled_as(old(self), s) && s->0.result == bytes_of(r)
            }),
    {
        let id: u32 = self.take_request_id();
        let reply = self.transact(wire::encode_query(id, oid), wire::MSG_QUERY_C, id);
        assert(extends(self.log(), self.log()));
        check_query(reply?.as_slice())
    }

    pub fn set(&mut self, oid: u32, data: &[u8]) -> (r: Result<()>)
        ensures
            ({
                let s = was_set(
                    final(self).log(),
                    old(self).log().len() as int,
                    oid,
                    data@,
                    old(self).next_id(),
                    old(self).link(),
                );
                final(self).settled_as(old(self), s) && s->0.result == r
            }),
    {
        let id: u32 = self.take_request_id();
        let reply = self.transact(wire::encode_set(id, oid, data), wire::MSG_SET_C, id);
        assert(extends(self.log(), self.log()));
        check_completion(reply?.as_slice())
    }

    pub fn keepalive(&mut self) -> (r: Result<()>)
        ensures
            ({
                let s = kept_alive(
                    final(self).log(),
                    old(self).log().len() as int,
                    old(self).next_id(),
                    old(self).link(),
                );
                final(self).settled_as(old(self), s) && s->0.result == r
            }),
    {
        let id: u32 = self.take_request_id();
        let reply = self.transact(wire::encode_keepalive(id), wire::MSG_KEEPALIVE_C, id);
        assert(extends(self.log(), self.log()));
        check_completion(reply?.as_slice())
    }

    /// Prefer the permanent address, as Linux does; fall back to the current
    /// one for gadgets that only implement the latter.
    fn query_mac(&mut self) -> (r: Result<[u8; 6]>)
        ensures
            ({
                let s = mac_found(
                    final(self).log(),
                    old(self).log().len() as int,
                    old(self).next_id(),
                    old(self).link(),
                );
                &&& final(self).settled_as(old(self), s)
                &&& s->0.result == match r {
                    Ok(mac) => Ok::<_, Error>(mac@),
                    Err(e) => Err(e),
                }
            }),
    {
        let ghost start = *self;
        let permanent = self.query(wire::OID_802_3_PERMANENT_ADDRESS);
        let ghost first = *self;
        if let Ok(info) = permanent {
            if let Some(mac) = usable_mac(info.as_slice()) {
                return Ok(mac);
            }
        }
        let current = self.query(wire::OID_802_3_CURRENT_ADDRESS);
        proof {
            lemma_transacted_stays(
                first.log(),
                self.log(),
                start.log().len() as int,
                query_message(start.next_id(), wire::OID_802_3_PERMANENT_ADDRESS),
                wire::MSG_QUERY_C,
                start.next_id(),
                start.link(),
            );
        }
        if let Ok(info) = current {
            if let Some(mac) = usable_mac(info.as_slice()) {
                return Ok(mac);
            }
        }
        Err(Error::Malformed("device did not report a usable MAC"))
    }

    /// INITIALIZE, learn the phone's MAC, then set the packet filter to bring
    /// the link up. This is the whole bring-up.
    pub fn bring_up(&mut self) -> (r: Result<Session>)
        ensures
            ({
                let s = brought_up(
                    final(self).log(),
                    old(self).log().len() as int,
                    old(self).next_id(),
                    old(self).link(),
                );
                &&& final(self).settled_as(old(self), s)
                &&& s->0.result == match r {
                    Ok(session) => Ok::<_, Error>(session@),
                    Err(e) => Err(e),
                }
            }),
    {
        let ghost start = *self;
        let init = self.initialize()?;
        let ghost one = *self;
        let found = self.query_mac();
        let ghost two = *self;
        proof {
            lemma_transacted_stays(
                one.log(),
                two.log(),
                start.log().len() as int,
                init_message(start.next_id(), HOST_MAX_TRANSFER_SIZE),
                wire::MSG_INIT_C,
                start.next_id(),
                start.link(),
            );
        }
        let host_mac = found?;
        let mut filter: Vec<u8> = Vec::new();
        put_le32(&mut filter, wire::DEFAULT_PACKET_FILTER);
        assert(filter@ =~= le32(wire::DEFAULT_PACKET_FILTER));
        let done = self.set(wire::OID_GEN_CURRENT_PACKET_FILTER, filter.as_slice());
        proof {
            lemma_transacted_stays(
                one.log(),
                self.log(),
                start.log().len() as int,
                init_message(start.next_id(), HOST_MAX_TRANSFER_SIZE),
                wire::MSG_INIT_C,
                start.next_id(),
                start.link(),
            );
            lemma_mac_found_stays(
                two.log(),
                self.log(),
                one.log().len() as int,
                one.next_id(),
                one.link(),
            );
        }
        done?;
        if self.link == LinkState::Unknown {
            self.link = LinkState::Up;
        }
        Ok(
            Session {
                host_mac,
                device_max_transfer_size: init.max_transfer_size,
                max_packets_per_transfer: if init.max_packets_per_transfer == 0 {
                    1
                } else {
                    init.max_packets_per_transfer
                },
                packet_alignment: if init.packet_alignment == 0 {
                    1
                } else {
                    init.packet_alignment
                },
            },
        )
    }

    /// Drain device-initiated messages without sending a command. Called
    /// between keepalives so link-down is noticed promptly.
    pub fn poll_unsolicited(&mut self) -> (r: Result<LinkState>)
        ensures
            extends(final(self).log(), old(self).log()),
            final(self).next_id() == old(self).next_id(),
            final(self).made_with() == old(self).made_with(),
            drained(
                final(self).log(),
                old(self).log().len() as int,
                old(self).link(),
                MAX_POLLS as nat,
            ) == Some((r, final(self).link(), final(self).log().len() as int)),
    {
        let ghost start = *self;
        let mut polls: u64 = MAX_POLLS;
        while polls > 0
            invariant
                start == *old(self),
                extends(self.log(), start.log()),
                self.made_with() == start.made_with(),
                self.next_id() == start.next_id(),
                forall|l: Seq<Event>| #[trigger]
                    extends(l, self.log()) ==> drained(
                        l,
                        start.log().len() as int,
                        start.link(),
                        MAX_POLLS as nat,
                    ) == drained(l, self.log().len() as int, self.link(), polls as nat),
            decreases polls,
        {
            let ghost held = self.log();
            let heard = self.channel.receive();
            assert(self.log()[held.len() as int] == (Event::Heard { reply: bytes_of(heard) }));
            let ghost read = self.log();
            proof {
                assert forall|l: Seq<Event>| #[trigger] extends(l, read) implies extends(
                    l,
                    held,
                ) by {}
                assert(extends(read, read));
            }
            let reply = heard?;
            if reply.len() < 12 {
                return Ok(self.link);
            }
            let msg_type: u32 = wire::u32_at(reply.as_slice(), 0)?;
            let handled = self.handle_unsolicited(msg_type, reply.as_slice());
            proof {
                assert forall|l: Seq<Event>| #[trigger] extends(l, self.log()) implies extends(
                    l,
                    read,
                ) by {}
                assert(extends(self.log(), self.log()));
            }
            handled?;
            polls = polls - 1;
        }
        assert(extends(self.log(), self.log()));
        Ok(self.link)
    }
}

/// What is on record stays: later events do not change how a transaction came
/// out.
pub proof fn lemma_transacted_stays(
    es: Seq<Event>,
    l: Seq<Event>,
    at: int,
    message: Seq<u8>,
    expect: u32,
    id: u32,
    link: LinkState,
)
    requires
        at >= 0,
        extends(l, es),
        transacted(es, at, message, expect, id, link) is Some,
    ensures
        transacted(l, at, message, expect, id, link) == transacted(
            es,
            at,
            message,
            expect,
            id,
            link,
        ),
{
    if es[at]->Sent_outcome is Ok {
        let now = es[at + 1]->now;
        lemma_awaited_stays(
            es,
            l,
            at + 2,
            expect,
            id,
            now.after(transaction_timeout()),
            link,
            MAX_POLLS as nat,
        );
    }
}

proof fn lemma_awaited_stays(
    es: Seq<Event>,
    l: Seq<Event>,
    at: int,
    expect: u32,
    id: u32,
    deadline: Instant,
    link: LinkState,
    polls: nat,
)
    requires
        at >= 0,
        extends(l, es),
        awaited(es, at, expect, id, deadline, link, polls) is Some,
    ensures
        awaited(l, at, expect, id, deadline, link, polls) == awaited(
            es,
            at,
            expect,
            id,
            deadline,
            link,
            polls,
        ),
    decreases polls,
{
    if polls > 0 {
        match polled(es, at, expect, id, deadline, link) {
            Step::Again(link, next) => {
                lemma_awaited_stays(
                    es,
                    l,
                    next,
                    expect,
                    id,
                    deadline,
                    link,
                    (polls - 1) as nat,
                );
            },
            _ => {},
        }
    }
}

/// What is on record stays, for the search for the MAC.
proof fn lemma_mac_found_stays(
    es: Seq<Event>,
    l: Seq<Event>,
    at: int,
    id: u32,
    link: LinkState,
)
    requires
        at >= 0,
        extends(l, es),
        mac_found(es, at, id, link) is Some,
    ensures
        mac_found(l, at, id, link) == mac_found(es, at, id, link),
{
    lemma_transacted_stays(
        es,
        l,
        at,
        query_message(id, wire::OID_802_3_PERMANENT_ADDRESS),
        wire::MSG_QUERY_C,
        id,
        link,
    );
    let first = queried(es, at, wire::OID_802_3_PERMANENT_ADDRESS, id, link)->0;
    if mac_in(first.result) is None {
        lemma_transacted_moves_on(
            es,
            at,
            query_message(id, wire::OID_802_3_PERMANENT_ADDRESS),
            wire::MSG_QUERY_C,
            id,
            link,
        );
        lemma_transacted_stays(
            es,
            l,
            first.next,
            query_message(first.next_id, wire::OID_802_3_CURRENT_ADDRESS),
            wire::MSG_QUERY_C,
            first.next_id,
            first.link,
        );
    }
}

/// A transaction leaves the record further along.
pub proof fn lemma_transacted_moves_on(
    es: Seq<Event>,
    at: int,
    message: Seq<u8>,
    expect: u32,
    id: u32,
    link: LinkState,
)
    requires
        at >= 0,
        transacted(es, at, message, expect, id, link) is Some,
    ensures
        transacted(es, at, message, expect, id, link)->0.next > at,
{
    if es[at]->Sent_outcome is Ok {
        let now = es[at + 1]->now;
        lemma_awaited_moves_on(
            es,
            at + 2,
            expect,
            id,
            now.after(transaction_timeout()),
            link,
            MAX_POLLS as nat,
        );
    }
}

/// A wait never leaves the record further back.
pub proof fn lemma_awaited_moves_on(
    es: Seq<Event>,
    at: int,
    expect: u32,
    id: u32,
    deadline: Instant,
    link: LinkState,
    polls: nat,
)
    requires
        awaited(es, at, expect, id, deadline, link, polls) is Some,
    ensures
        awaited(es, at, expect, id, deadline, link, polls)->0.next >= at,
    decreases polls,
{
    if polls > 0 {
        match polled(es, at, expect, id, deadline, link) {
            Step::Again(link, next) => {
                lemma_awaited_moves_on(es, next, expect, id, deadline, link, (polls - 1) as nat);
            },
            _ => {},
        }
    }
}

/// No request carries the id zero.
pub proof fn request_ids_are_never_zero(id: u32)
    ensures
        following(id) != 0,
{
}

/// The id `n` requests after one that carries `first`.
pub open spec fn nth_id(first: u32, n: nat) -> u32
    decreases n,
{
    if n == 0 {
        first
    } else {
        following(nth_id(first, (n - 1) as nat))
    }
}

/// Ids come around only when all but zero were used: of as many requests in a row as
/// there are ids, no two carry the same one.
pub proof fn request_ids_do_not_repeat(first: u32, i: nat, j: nat)
    requires
        first != 0,
        i < j,
        j - i < u32::MAX,
    ensures
        nth_id(first, i) != nth_id(first, j),
        nth_id(first, i) != 0,
{
    lemma_nth_id(first, i);
    lemma_nth_id(first, j);
    let m = u32::MAX as int;
    let a = first - 1 + i;
    let b = first - 1 + j;
    if a % m == b % m {
        vstd::arithmetic::div_mod::lemma_fundamental_div_mod(a, m);
        vstd::arithmetic::div_mod::lemma_fundamental_div_mod(b, m);
        let p = a / m;
        let q = b / m;
        assert(b - a == m * (q - p)) by (nonlinear_arith)
            requires
                a == m * p + a % m,
                b == m * q + b % m,
                a % m == b % m,
        ;
        assert(false) by (nonlinear_arith)
            requires
                0 < b - a < m,
                b - a == m * (q - p),
        ;
    }
}

/// The ids count through all values but zero, over and over.
proof fn lemma_nth_id(first: u32, n: nat)
    requires
        first != 0,
    ensures
        nth_id(first, n) == (first - 1 + n) % (u32::MAX as int) + 1,
    decreases n,
{
    let m = u32::MAX as int;
    if n == 0 {
        vstd::arithmetic::div_mod::lemma_small_mod((first - 1) as nat, u32::MAX as nat);
    } else {
        lemma_nth_id(first, (n - 1) as nat);
        let a = first - 1 + (n - 1);
        vstd::arithmetic::div_mod::lemma_fundamental_div_mod(a, m);
        vstd::arithmetic::div_mod::lemma_mod_bound(a, m);
        let q = a / m;
        let r = a % m;
        if r + 1 == m {
            assert(a + 1 == (q + 1) * m + 0) by (nonlinear_arith)
                requires
                    a == m * q + r,
                    r + 1 == m,
            ;
            vstd::arithmetic::div_mod::lemma_fundamental_div_mod_converse(a + 1, m, q + 1, 0);
        } else {
            assert(a + 1 == q * m + (r + 1)) by (nonlinear_arith)
                requires
                    a == m * q + r,
            ;
            vstd::arithmetic::div_mod::lemma_fundamental_div_mod_converse(a + 1, m, q, r + 1);
        }
    }
}

/// What an event says of the medium, if anything: whether it is connected.
pub open spec fn media_in(e: Event) -> Option<bool> {
    match e {
        Event::Heard { reply: Ok(reply) } => if reply.len() < 12 || le32_at(reply, 0)
            != wire::MSG_INDICATE {
            None
        } else if le32_at(reply, 8) == wire::STATUS_MEDIA_CONNECT {
            Some(true)
        } else if le32_at(reply, 8) == wire::STATUS_MEDIA_DISCONNECT {
            Some(false)
        } else {
            None
        },
        _ => None,
    }
}

/// What was last heard of the medium among the first `n` events.
pub open spec fn last_media(es: Seq<Event>, n: int) -> Option<bool>
    decreases n,
{
    if n <= 0 {
        None
    } else {
        match media_in(es[n - 1]) {
            Some(connected) => Some(connected),
            None => last_media(es, n - 1),
        }
    }
}

/// Whether a link state goes with what was last heard of the medium.
pub open spec fn agrees(link: LinkState, media: Option<bool>) -> bool {
    match media {
        Some(true) => link == LinkState::Up,
        Some(false) => link == LinkState::Down,
        None => link != LinkState::Down,
    }
}

/// The link state follows the last media status heard, through any command.
pub proof fn link_follows_the_media_status(
    es: Seq<Event>,
    at: int,
    message: Seq<u8>,
    expect: u32,
    id: u32,
    link: LinkState,
)
    requires
        at >= 0,
        expect != wire::MSG_INDICATE,
        agrees(link, last_media(es, at)),
        transacted(es, at, message, expect, id, link) is Some,
    ensures
        ({
            let s = transacted(es, at, message, expect, id, link)->0;
            &&& s.next >= 0
            &&& agrees(s.link, last_media(es, s.next))
        }),
{
    assert(media_in(es[at]) is None);
    assert(last_media(es, at + 1) == last_media(es, at));
    if es[at]->Sent_outcome is Ok {
        let now = es[at + 1]->now;
        assert(media_in(es[at + 1]) is None);
        assert(last_media(es, at + 2) == last_media(es, at + 1));
        lemma_awaited_agrees(
            es,
            at + 2,
            expect,
            id,
            now.after(transaction_timeout()),
            link,
            MAX_POLLS as nat,
        );
    }
}

/// The link state follows the last media status heard, through a drain of what the
/// device sent on its own.
pub proof fn drained_link_follows_the_media_status(
    es: Seq<Event>,
    at: int,
    link: LinkState,
    polls: nat,
)
    requires
        at >= 0,
        agrees(link, last_media(es, at)),
    ensures
        match drained(es, at, link, polls) {
            Some((_, after, next)) => next >= 0 && agrees(after, last_media(es, next)),
            None => true,
        },
    decreases polls,
{
    if polls > 0 && at < es.len() {
        match es[at] {
            Event::Heard { reply: Ok(reply) } => {
                if reply.len() >= 12 {
                    lemma_serviced_agrees(es, at + 1, reply, link);
                    if let Some((Ok(_), after, next)) = serviced(es, at + 1, reply, link) {
                        drained_link_follows_the_media_status(es, next, after, (polls - 1) as nat);
                    }
                }
            },
            _ => {},
        }
    }
}

/// After a bring-up the link is down if the last media status the device sent says
/// so, and up otherwise.
pub proof fn bring_up_tells_the_link(es: Seq<Event>, at: int, id: u32, link: LinkState)
    requires
        at >= 0,
        agrees(link, last_media(es, at)),
        brought_up(es, at, id, link) is Some,
    ensures
        ({
            let s = brought_up(es, at, id, link)->0;
            &&& s.next >= 0
            &&& agrees(s.link, last_media(es, s.next))
            &&& s.result is Ok ==> s.link == (if last_media(es, s.next) == Some(false) {
                LinkState::Down
            } else {
                LinkState::Up
            })
        }),
{
    let init = init_message(id, HOST_MAX_TRANSFER_SIZE);
    link_follows_the_media_status(es, at, init, wire::MSG_INIT_C, id, link);
    let s = initialized(es, at, id, link)->0;
    if s.result is Ok {
        let first = query_message(s.next_id, wire::OID_802_3_PERMANENT_ADDRESS);
        link_follows_the_media_status(es, s.next, first, wire::MSG_QUERY_C, s.next_id, s.link);
        let q = queried(es, s.next, wire::OID_802_3_PERMANENT_ADDRESS, s.next_id, s.link)->0;
        if mac_in(q.result) is None {
            let second = query_message(q.next_id, wire::OID_802_3_CURRENT_ADDRESS);
            link_follows_the_media_status(es, q.next, second, wire::MSG_QUERY_C, q.next_id, q.link);
        }
        let m = mac_found(es, s.next, s.next_id, s.link)->0;
        if m.result is Ok {
            let filter = set_message(
                m.next_id,
                wire::OID_GEN_CURRENT_PACKET_FILTER,
                le32(wire::DEFAULT_PACKET_FILTER),
            );
            link_follows_the_media_status(es, m.next, filter, wire::MSG_SET_C, m.next_id, m.link);
        }
    }
}

/// Later events do not change what was last heard among the first ones.
proof fn lemma_last_media_stays(es: Seq<Event>, longer: Seq<Event>, n: int)
    requires
        extends(longer, es),
        n <= es.len(),
    ensures
        last_media(longer, n) == last_media(es, n),
    decreases n,
{
    if n > 0 {
        assert(longer[n - 1] == es[n - 1]);
        lemma_last_media_stays(es, longer, n - 1);
    }
}

/// A channel stays current through any command.
pub proof fn commands_keep_the_channel_current<T, A>(
    before: &Rndis<T>,
    after: &Rndis<T>,
    message: Seq<u8>,
    expect: u32,
    f: spec_fn(Seq<u8>) -> Result<A>,
)
    requires
        before.is_current(),
        expect != wire::MSG_INDICATE,
        after.settled_as(
            before,
            concluded(
                transacted(
                    after.log(),
                    before.log().len() as int,
                    message,
                    expect,
                    before.next_id(),
                    before.link(),
                ),
                f,
            ),
        ),
    ensures
        after.is_current(),
{
    let es = after.log();
    let at = before.log().len() as int;
    lemma_last_media_stays(before.log(), es, at);
    link_follows_the_media_status(es, at, message, expect, before.next_id(), before.link());
    lemma_transacted_next_id(es, at, message, expect, before.next_id(), before.link());
}

/// A channel stays current through a drain of what the device sent on its own.
pub proof fn drains_keep_the_channel_current<T>(
    before: &Rndis<T>,
    after: &Rndis<T>,
    r: Result<LinkState>,
)
    requires
        before.is_current(),
        extends(after.log(), before.log()),
        after.next_id() == before.next_id(),
        drained(
            after.log(),
            before.log().len() as int,
            before.link(),
            MAX_POLLS as nat,
        ) == Some((r, after.link(), after.log().len() as int)),
    ensures
        after.is_current(),
{
    let es = after.log();
    let at = before.log().len() as int;
    lemma_last_media_stays(before.log(), es, at);
    drained_link_follows_the_media_status(es, at, before.link(), MAX_POLLS as nat);
}

/// A channel stays current through a halt.
pub proof fn halting_keeps_the_channel_current<T>(
    before: &Rndis<T>,
    after: &Rndis<T>,
    outcome: Result<()>,
)
    requires
        before.is_current(),
        after.log() == before.log().push(
            (Event::Sent { message: halt_message(before.next_id()), outcome }),
        ),
        after.next_id() == following(before.next_id()),
        after.link() == before.link(),
    ensures
        after.is_current(),
{
    let es = after.log();
    let at = before.log().len() as int;
    lemma_last_media_stays(before.log(), es, at);
    assert(media_in(es[at]) is None);
    assert(last_media(es, at + 1) == last_media(es, at));
}

/// A channel stays current through a bring-up, and behind one that succeeded the link
/// is down if the last media status the device ever sent says so, and up otherwise.
pub proof fn bring_up_keeps_the_channel_current<T>(before: &Rndis<T>, after: &Rndis<T>)
    requires
        before.is_current(),
        after.settled_as(
            before,
            brought_up(
                after.log(),
                before.log().len() as int,
                before.next_id(),
                before.link(),
            ),
        ),
    ensures
        after.is_current(),
        brought_up(
            after.log(),
            before.log().len() as int,
            before.next_id(),
            before.link(),
        )->0.result is Ok ==> after.link() == (if last_media(
            after.log(),
            after.log().len() as int,
        ) == Some(false) {
            LinkState::Down
        } else {
            LinkState::Up
        }),
{
    let es = after.log();
    let at = before.log().len() as int;
    let id = before.next_id();
    lemma_last_media_stays(before.log(), es, at);
    bring_up_tells_the_link(es, at, id, before.link());
    let s = initialized(es, at, id, before.link())->0;
    lemma_transacted_next_id(
        es,
        at,
        init_message(id, HOST_MAX_TRANSFER_SIZE),
        wire::MSG_INIT_C,
        id,
        before.link(),
    );
    if s.result is Ok {
        let first = query_message(s.next_id, wire::OID_802_3_PERMANENT_ADDRESS);
        lemma_transacted_next_id(es, s.next, first, wire::MSG_QUERY_C, s.next_id, s.link);
        let q = queried(es, s.next, wire::OID_802_3_PERMANENT_ADDRESS, s.next_id, s.link)->0;
        if mac_in(q.result) is None {
            let second = query_message(q.next_id, wire::OID_802_3_CURRENT_ADDRESS);
            lemma_transacted_next_id(es, q.next, second, wire::MSG_QUERY_C, q.next_id, q.link);
        }
        let m = mac_found(es, s.next, s.next_id, s.link)->0;
        if m.result is Ok {
            let filter = set_message(
                m.next_id,
                wire::OID_GEN_CURRENT_PACKET_FILTER,
                le32(wire::DEFAULT_PACKET_FILTER),
            );
            lemma_transacted_next_id(es, m.next, filter, wire::MSG_SET_C, m.next_id, m.link);
        }
    }
}

/// A message the device sent on its own moves the link as it says.
proof fn lemma_serviced_agrees(es: Seq<Event>, at: int, reply: Seq<u8>, link: LinkState)
    requires
        at >= 1,
        es[at - 1] == (Event::Heard { reply: Ok(reply) }),
        reply.len() >= 12,
        agrees(link, last_media(es, at - 1)),
    ensures
        match serviced(es, at, reply, link) {
            Some((_, after, next)) => next >= at && agrees(after, last_media(es, next)),
            None => true,
        },
{
    if let Some((_, after, next)) = serviced(es, at, reply, link) {
        if next == at + 1 {
            assert(media_in(es[at]) is None);
            assert(last_media(es, at + 1) == last_media(es, at));
        }
    }
}

proof fn lemma_awaited_agrees(
    es: Seq<Event>,
    at: int,
    expect: u32,
    id: u32,
    deadline: Instant,
    link: LinkState,
    polls: nat,
)
    requires
        at >= 0,
        expect != wire::MSG_INDICATE,
        agrees(link, last_media(es, at)),
        awaited(es, at, expect, id, deadline, link, polls) is Some,
    ensures
        ({
            let s = awaited(es, at, expect, id, deadline, link, polls)->0;
            &&& s.next >= 0
            &&& agrees(s.link, last_media(es, s.next))
        }),
    decreases polls,
{
    if polls > 0 && at < es.len() {
        assert(media_in(es[at]) is None);
        assert(last_media(es, at + 1) == last_media(es, at));
        if at + 1 < es.len() && es[at + 1] is Waited {
            assert(media_in(es[at + 1]) is None);
            assert(last_media(es, at + 2) == last_media(es, at + 1));
            if at + 2 < es.len() {
                if let Event::Heard { reply } = es[at + 2] {
                    if let Ok(reply) = reply {
                        if reply.len() >= 12 {
                            lemma_serviced_agrees(es, at + 3, reply, link);
                        }
                    }
                    assert(media_in(es[at + 2]) is None ==> last_media(es, at + 3) == last_media(
                        es,
                        at + 2,
                    ));
                }
            }
        }
        if let Step::Again(after, next) = polled(es, at, expect, id, deadline, link) {
            lemma_awaited_agrees(es, next, expect, id, deadline, after, (polls - 1) as nat);
        }
    }
}

/// A session handed out can be used: a device that accepts transfers, at least one
/// packet, an alignment that is a power of two up to 128, a MAC that is not all zero,
/// and a link that someone vouched for.
pub proof fn session_is_usable(es: Seq<Event>, at: int, id: u32, link: LinkState)
    requires
        brought_up(es, at, id, link) is Some,
        brought_up(es, at, id, link)->0.result is Ok,
    ensures
        ({
            let s = brought_up(es, at, id, link)->0;
            let session = s.result->Ok_0;
            &&& session.device_max_transfer_size > 0
            &&& session.max_packets_per_transfer >= 1
            &&& exists|k: nat| k < 8 && session.packet_alignment == #[trigger] pow2(k)
            &&& 1 <= session.packet_alignment <= 128
            &&& session.host_mac.len() == 6
            &&& session.host_mac != zeros(6)
            &&& s.link != LinkState::Unknown
        }),
{
    lemma2_to64();
    let reply = transacted(
        es,
        at,
        init_message(id, HOST_MAX_TRANSFER_SIZE),
        wire::MSG_INIT_C,
        id,
        link,
    )->0.result->Ok_0;
    let exponent = le32_at(reply, 40);
    let session = brought_up(es, at, id, link)->0.result->Ok_0;
    let k: nat = if exponent < 8 {
        exponent as nat
    } else {
        0
    };
    lemma_pow2_strictly_increases(k, 8);
    lemma_pow2_pos(k);
    if k < 7 {
        lemma_pow2_strictly_increases(k, 7);
    }
    assert(session.packet_alignment == pow2(k));
}

/// Whether `es[i]` is a ping from the device.
pub open spec fn is_ping(es: Seq<Event>, i: int) -> bool {
    match es[i] {
        Event::Heard { reply: Ok(reply) } => reply.len() >= 12 && le32_at(reply, 0)
            == wire::MSG_KEEPALIVE,
        _ => false,
    }
}

/// Whether `es[i]` answers the ping in `es[i - 1]`.
pub open spec fn answers_ping(es: Seq<Event>, i: int) -> bool {
    match (es[i - 1], es[i]) {
        (Event::Heard { reply: Ok(reply) }, Event::Sent { message, .. }) => message
            == keepalive_complete_message(le32_at(reply, 8)),
        _ => false,
    }
}

/// Every ping the device sends while a command is under way is answered at once,
/// with the ping's own request id.
pub proof fn pings_are_answered(
    es: Seq<Event>,
    at: int,
    message: Seq<u8>,
    expect: u32,
    id: u32,
    link: LinkState,
    i: int,
)
    requires
        at >= 0,
        expect != wire::MSG_KEEPALIVE,
        transacted(es, at, message, expect, id, link) is Some,
        at <= i < transacted(es, at, message, expect, id, link)->0.next,
        is_ping(es, i),
    ensures
        answers_ping(es, i + 1),
{
    if es[at]->Sent_outcome is Ok {
        let now = es[at + 1]->now;
        lemma_awaited_answers_pings(
            es,
            at + 2,
            expect,
            id,
            now.after(transaction_timeout()),
            link,
            MAX_POLLS as nat,
            i,
        );
    }
}

proof fn lemma_awaited_answers_pings(
    es: Seq<Event>,
    at: int,
    expect: u32,
    id: u32,
    deadline: Instant,
    link: LinkState,
    polls: nat,
    i: int,
)
    requires
        at >= 0,
        expect != wire::MSG_KEEPALIVE,
        awaited(es, at, expect, id, deadline, link, polls) is Some,
        at <= i < awaited(es, at, expect, id, deadline, link, polls)->0.next,
        is_ping(es, i),
    ensures
        answers_ping(es, i + 1),
    decreases polls,
{
    match polled(es, at, expect, id, deadline, link) {
        Step::Again(link, next) => {
            if next <= i {
                lemma_awaited_answers_pings(
                    es,
                    next,
                    expect,
                    id,
                    deadline,
                    link,
                    (polls - 1) as nat,
                    i,
                );
            }
        },
        _ => {},
    }
}

/// A command succeeds only on a completion that the device really sent: the right
/// message, for this very request.
pub proof fn success_was_heard(
    es: Seq<Event>,
    at: int,
    message: Seq<u8>,
    expect: u32,
    id: u32,
    link: LinkState,
)
    requires
        transacted(es, at, message, expect, id, link) is Some,
        transacted(es, at, message, expect, id, link)->0.result is Ok,
    ensures
        ({
            let s = transacted(es, at, message, expect, id, link)->0;
            let reply = s.result->Ok_0;
            &&& at < s.next - 1
            &&& es[s.next - 1] == (Event::Heard { reply: Ok(reply) })
            &&& le32_at(reply, 0) == expect
            &&& le32_at(reply, 8) == id
        }),
{
    let now = es[at + 1]->now;
    lemma_awaited_success(
        es,
        at + 2,
        expect,
        id,
        now.after(transaction_timeout()),
        link,
        MAX_POLLS as nat,
    );
}

proof fn lemma_awaited_success(
    es: Seq<Event>,
    at: int,
    expect: u32,
    id: u32,
    deadline: Instant,
    link: LinkState,
    polls: nat,
)
    requires
        awaited(es, at, expect, id, deadline, link, polls) is Some,
        awaited(es, at, expect, id, deadline, link, polls)->0.result is Ok,
    ensures
        ({
            let s = awaited(es, at, expect, id, deadline, link, polls)->0;
            let reply = s.result->Ok_0;
            &&& at < s.next
            &&& es[s.next - 1] == (Event::Heard { reply: Ok(reply) })
            &&& le32_at(reply, 0) == expect
            &&& le32_at(reply, 8) == id
        }),
    decreases polls,
{
    match polled(es, at, expect, id, deadline, link) {
        Step::Again(link, next) => {
            lemma_awaited_success(es, next, expect, id, deadline, link, (polls - 1) as nat);
        },
        _ => {},
    }
}

/// Whether nothing went wrong in `es[i]` and no message was heard: what is heard
/// of a device that keeps silent.
pub open spec fn is_silent(e: Event) -> bool {
    match e {
        Event::Sent { outcome, .. } => outcome is Ok,
        Event::Waited { outcome, .. } => outcome is Ok,
        Event::Heard { reply: Ok(reply) } => reply.len() < 12,
        Event::Heard { reply: Err(_) } => false,
        Event::Clock { .. } => true,
    }
}

/// A device that keeps silent is given up on: a command it never answers ends, and
/// ends in no response.
pub proof fn silence_is_no_response(
    es: Seq<Event>,
    at: int,
    message: Seq<u8>,
    expect: u32,
    id: u32,
    link: LinkState,
)
    requires
        at >= 0,
        transacted(es, at, message, expect, id, link) is Some,
        forall|i: int|
            at <= i < transacted(es, at, message, expect, id, link)->0.next ==> is_silent(
                #[trigger] es[i],
            ),
    ensures
        transacted(es, at, message, expect, id, link)->0.result == Err::<Seq<u8>, _>(
            Error::NoResponse,
        ),
        transacted(es, at, message, expect, id, link)->0.link == link,
{
    lemma_transacted_moves_on(es, at, message, expect, id, link);
    assert(is_silent(es[at]));
    let now = es[at + 1]->now;
    lemma_awaited_silence(
        es,
        at + 2,
        expect,
        id,
        now.after(transaction_timeout()),
        link,
        MAX_POLLS as nat,
    );
}

proof fn lemma_awaited_silence(
    es: Seq<Event>,
    at: int,
    expect: u32,
    id: u32,
    deadline: Instant,
    link: LinkState,
    polls: nat,
)
    requires
        at >= 0,
        awaited(es, at, expect, id, deadline, link, polls) is Some,
        forall|i: int|
            at <= i < awaited(es, at, expect, id, deadline, link, polls)->0.next ==> is_silent(
                #[trigger] es[i],
            ),
    ensures
        awaited(es, at, expect, id, deadline, link, polls)->0.result == Err::<Seq<u8>, _>(
            Error::NoResponse,
        ),
        awaited(es, at, expect, id, deadline, link, polls)->0.link == link,
    decreases polls,
{
    if polls > 0 {
        lemma_awaited_moves_on(es, at, expect, id, deadline, link, polls);
        match polled(es, at, expect, id, deadline, link) {
            Step::Again(after, next) => {
                lemma_awaited_moves_on(es, next, expect, id, deadline, after, (polls - 1) as nat);
                assert(is_silent(es[at + 1]));
                assert(is_silent(es[at + 2]));
                lemma_awaited_silence(es, next, expect, id, deadline, link, (polls - 1) as nat);
            },
            Step::Done(..) => {
                let now = es[at]->now;
                if now.nanos < deadline.nanos {
                    assert(is_silent(es[at + 1]));
                    assert(is_silent(es[at + 2]));
                }
            },
            _ => {},
        }
    }
}

/// Whether `es[i]` is the sending of `message`.
pub open spec fn sends(es: Seq<Event>, i: int, message: Seq<u8>) -> bool {
    match es[i] {
        Event::Sent { message: sent, .. } => sent == message,
        _ => false,
    }
}

/// A bring-up that succeeds has sent INITIALIZE, then asked for the permanent
/// address, and last set the packet filter that brings the link up.
pub proof fn bring_up_runs_in_order(es: Seq<Event>, at: int, id: u32, link: LinkState)
    requires
        at >= 0,
        brought_up(es, at, id, link) is Some,
        brought_up(es, at, id, link)->0.result is Ok,
    ensures
        sends(es, at, init_message(id, HOST_MAX_TRANSFER_SIZE)),
        exists|i: int, j: int, set_id: u32|
            at < i < j < brought_up(es, at, id, link)->0.next && #[trigger] sends(
                es,
                i,
                query_message(following(id), wire::OID_802_3_PERMANENT_ADDRESS),
            ) && #[trigger] sends(
                es,
                j,
                set_message(
                    set_id,
                    wire::OID_GEN_CURRENT_PACKET_FILTER,
                    le32(wire::DEFAULT_PACKET_FILTER),
                ),
            ),
{
    let init = initialized(es, at, id, link)->0;
    let mac = mac_found(es, init.next, init.next_id, init.link)->0;
    let asked = queried(
        es,
        init.next,
        wire::OID_802_3_PERMANENT_ADDRESS,
        init.next_id,
        init.link,
    )->0;
    let filter = set_message(
        mac.next_id,
        wire::OID_GEN_CURRENT_PACKET_FILTER,
        le32(wire::DEFAULT_PACKET_FILTER),
    );
    lemma_transacted_moves_on(
        es,
        at,
        init_message(id, HOST_MAX_TRANSFER_SIZE),
        wire::MSG_INIT_C,
        id,
        link,
    );
    lemma_transacted_next_id(
        es,
        at,
        init_message(id, HOST_MAX_TRANSFER_SIZE),
        wire::MSG_INIT_C,
        id,
        link,
    );
    lemma_transacted_moves_on(
        es,
        init.next,
        query_message(init.next_id, wire::OID_802_3_PERMANENT_ADDRESS),
        wire::MSG_QUERY_C,
        init.next_id,
        init.link,
    );
    if mac_in(asked.result) is None {
        lemma_transacted_moves_on(
            es,
            asked.next,
            query_message(asked.next_id, wire::OID_802_3_CURRENT_ADDRESS),
            wire::MSG_QUERY_C,
            asked.next_id,
            asked.link,
        );
    }
    lemma_transacted_moves_on(es, mac.next, filter, wire::MSG_SET_C, mac.next_id, mac.link);
    assert(sends(
        es,
        init.next,
        query_message(following(id), wire::OID_802_3_PERMANENT_ADDRESS),
    ));
    assert(sends(es, mac.next, filter));
}

/// A transaction uses up one request id.
pub proof fn lemma_transacted_next_id(
    es: Seq<Event>,
    at: int,
    message: Seq<u8>,
    expect: u32,
    id: u32,
    link: LinkState,
)
    requires
        transacted(es, at, message, expect, id, link) is Some,
    ensures
        transacted(es, at, message, expect, id, link)->0.next_id == following(id),
{
    if es[at]->Sent_outcome is Ok {
        let now = es[at + 1]->now;
        lemma_awaited_next_id(
            es,
            at + 2,
            expect,
            id,
            now.after(transaction_timeout()),
            link,
            MAX_POLLS as nat,
        );
    }
}

proof fn lemma_awaited_next_id(
    es: Seq<Event>,
    at: int,
    expect: u32,
    id: u32,
    deadline: Instant,
    link: LinkState,
    polls: nat,
)
    requires
        awaited(es, at, expect, id, deadline, link, polls) is Some,
    ensures
        awaited(es, at, expect, id, deadline, link, polls)->0.next_id == following(id),
    decreases polls,
{
    if polls > 0 {
        match polled(es, at, expect, id, deadline, link) {
            Step::Again(link, next) => {
                lemma_awaited_next_id(es, next, expect, id, deadline, link, (polls - 1) as nat);
            },
            _ => {},
        }
    }
}

/// Request ids count up by one and start over at one, leaving out zero.
pub proof fn request_ids_count_up(id: u32)
    ensures
        id < u32::MAX ==> following(id) == id + 1,
        following(u32::MAX) == 1,
{
}

/// What is said of a session is what stands in it.
pub proof fn sessions_show_all_they_hold(s: Session)
    ensures
        s@.host_mac == s.host_mac@,
        s@.device_max_transfer_size == s.device_max_transfer_size,
        s@.max_packets_per_transfer == s.max_packets_per_transfer,
        s@.packet_alignment == s.packet_alignment,
{
}

} // verus!
