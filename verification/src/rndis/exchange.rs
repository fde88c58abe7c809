//! What the control channel promises, in terms of what was sent and what was heard.

use vstd::prelude::*;

use crate::bytes::{le32, le32_at, zeros};
use crate::rndis::channel::Event;
use crate::rndis::control::{
    answers_ping, awaited, brought_up, drained, following, init_verdict, initialized, is_ping,
    kept_alive, lemma_awaited_moves_on, lemma_transacted_moves_on, lemma_transacted_next_id,
    link_after, mac_found, mac_in, polled, queried, serviced, success_was_heard, transacted,
    transaction_timeout, was_set, LinkState, Step, HOST_MAX_TRANSFER_SIZE, MAX_POLLS,
};
use crate::rndis::error::Error;
use crate::rndis::wire::{
    alignment_of, alignments_double, commands_are_laid_out, init_message, is_words,
    keepalive_message, query_message, set_message, set_of_a_word_is_laid_out, InitComplete,
};
use crate::time::Instant;

verus! {

/// Whether these words were sent at `i`, without an error.
pub open spec fn sent_words(es: Seq<Event>, i: int, ws: Seq<u32>) -> bool {
    match es[i] {
        Event::Sent { message, outcome } => outcome is Ok && is_words(message, ws),
        _ => false,
    }
}

/// What was heard at `i`.
pub open spec fn reply_at(es: Seq<Event>, i: int) -> Seq<u8> {
    match es[i] {
        Event::Heard { reply: Ok(reply) } => reply,
        _ => Seq::empty(),
    }
}

/// Whether the completion of this type for this request was heard at `i`, and reported
/// success.
pub open spec fn completed(es: Seq<Event>, i: int, kind: u32, id: u32) -> bool {
    let reply = reply_at(es, i);
    &&& 0 <= i < es.len()
    &&& reply.len() >= 16
    &&& le32_at(reply, 0) == kind
    &&& le32_at(reply, 8) == id
    &&& le32_at(reply, 12) == 0
}

/// Whether the device was told at `i`, in request `id`, to pass on directed, multicast,
/// broadcast and all other packets.
pub open spec fn asked_for_packets(es: Seq<Event>, i: int, id: u32) -> bool {
    sent_words(es, i, seq![5u32, 32, id, 0x0001_010E, 4, 20, 0, 0x2F])
}

/// A session is what the device said of itself: its limits are those in the INITIALIZE
/// completion that was heard for our request, its MAC is the one that the device named,
/// and it was told to let packets through and agreed.
pub proof fn sessions_are_what_the_device_said(es: Seq<Event>, at: int, id: u32, link: LinkState)
    requires
        at >= 0,
        brought_up(es, at, id, link) is Some,
        brought_up(es, at, id, link)->0.result is Ok,
    ensures
        ({
            let s = brought_up(es, at, id, link)->0;
            let session = s.result->Ok_0;
            &&& sent_words(es, at, seq![2u32, 24, id, 1, 0, 16384])
            &&& exists|i: int|
                {
                    let reply = reply_at(es, i);
                    &&& at < i < s.next
                    &&& #[trigger] completed(es, i, 0x8000_0002, id)
                    &&& reply.len() >= 44
                    &&& session.device_max_transfer_size == le32_at(reply, 36)
                    &&& session.device_max_transfer_size > 0
                    &&& session.max_packets_per_transfer == (if le32_at(reply, 32) == 0 {
                        1
                    } else {
                        le32_at(reply, 32)
                    })
                    &&& session.packet_alignment == alignment_of(le32_at(reply, 40))
                }
            &&& exists|j: int, n: u32|
                {
                    let reply = reply_at(es, j);
                    let start = 8 + le32_at(reply, 20);
                    &&& at < j < s.next
                    &&& #[trigger] completed(es, j, 0x8000_0004, n)
                    &&& start + le32_at(reply, 16) <= reply.len()
                    &&& le32_at(reply, 16) >= 6
                    &&& session.host_mac == reply.subrange(start, start + 6)
                    &&& session.host_mac != seq![0u8, 0, 0, 0, 0, 0]
                }
            &&& exists|k: int, n: u32|
                {
                    &&& at < k < s.next - 1
                    &&& #[trigger] asked_for_packets(es, k, n)
                    &&& completed(es, s.next - 1, 0x8000_0005, n)
                }
        }),
{
    let ask = init_message(id, HOST_MAX_TRANSFER_SIZE);
    let init = transacted(es, at, ask, 0x8000_0002, id, link)->0;
    let mac = mac_found(es, init.next, init.next_id, init.link)->0;
    let filter = set_message(mac.next_id, 0x0001_010E, le32(0x2F));
    lemma_bring_up_stages(es, at, id, link);
    lemma_completion(es, at, ask, 0x8000_0002, id, link);
    initializing_needs_a_willing_device(init.result->Ok_0);
    assert(completed(es, init.next - 1, 0x8000_0002, id));
    assert(sent_words(es, at, seq![2u32, 24, id, 1, 0, 16384])) by {
        commands_are_laid_out(id, 0, 16384);
    }
    lemma_mac_was_heard(es, init.next, init.next_id, init.link);
    let (j, n) = choose|j: int, n: u32| names_the_mac(es, init.next, mac.next, j, n, mac.result->Ok_0);
    assert(completed(es, j, 0x8000_0004, n));
    lemma_completion(es, mac.next, filter, 0x8000_0005, mac.next_id, mac.link);
    assert(asked_for_packets(es, mac.next, mac.next_id)) by {
        set_of_a_word_is_laid_out(mac.next_id, 0x0001_010E, 0x2F);
    }
}

/// The MAC is the permanent address where the device names a usable one, and the current
/// address otherwise. The permanent one is asked for right behind the INITIALIZE.
pub proof fn the_permanent_address_is_preferred(
    es: Seq<Event>,
    at: int,
    id: u32,
    link: LinkState,
)
    requires
        at >= 0,
        mac_found(es, at, id, link) is Some,
    ensures
        queried(es, at, 0x0101_0101, id, link) is Some,
        ({
            let first = queried(es, at, 0x0101_0101, id, link)->0;
            let found = mac_found(es, at, id, link)->0.result;
            if first.result matches Ok(info) && info.len() >= 6 && info.take(6) != seq![
                0u8,
                0,
                0,
                0,
                0,
                0,
            ] {
                found == Ok::<_, Error>(first.result->Ok_0.take(6))
            } else {
                let second = queried(es, first.next, 0x0101_0102, following(id), first.link);
                &&& second is Some
                &&& if second->0.result matches Ok(info) && info.len() >= 6 && info.take(6)
                    != seq![0u8, 0, 0, 0, 0, 0] {
                    found == Ok::<_, Error>(second->0.result->Ok_0.take(6))
                } else {
                    found is Err
                }
            }
        }),
{
    assert(zeros(6) =~= seq![0u8, 0, 0, 0, 0, 0]);
    lemma_transacted_next_id(es, at, query_message(id, 0x0101_0101), 0x8000_0004, id, link);
}

/// A query that succeeds was sent and answered: its result is the information buffer of
/// the completion that was heard for it. A completion that reports a failure makes the
/// query fail with that status.
pub proof fn queries_are_answered_by_the_device(
    es: Seq<Event>,
    at: int,
    oid: u32,
    id: u32,
    link: LinkState,
)
    requires
        at >= 0,
        queried(es, at, oid, id, link) is Some,
    ensures
        ({
            let s = queried(es, at, oid, id, link)->0;
            let reply = reply_at(es, s.next - 1);
            &&& s.result matches Ok(info) ==> {
                let start = 8 + le32_at(reply, 20);
                &&& sent_words(es, at, seq![4u32, 28, id, oid, 0, 0, 0])
                &&& completed(es, s.next - 1, 0x8000_0004, id)
                &&& start + le32_at(reply, 16) <= reply.len()
                &&& info == reply.subrange(start, start + le32_at(reply, 16))
            }
            &&& transacted(es, at, query_message(id, oid), 0x8000_0004, id, link)->0.result
                matches Ok(r) ==> r.len() >= 24 && le32_at(r, 12) != 0 ==> s.result == Err::<
                Seq<u8>,
                _,
            >(Error::Status(le32_at(r, 12)))
        }),
{
    let m = query_message(id, oid);
    if transacted(es, at, m, 0x8000_0004, id, link)->0.result is Ok {
        lemma_completion(es, at, m, 0x8000_0004, id, link);
        assert(is_words(m, seq![4u32, 28, id, oid, 0, 0, 0])) by {
            commands_are_laid_out(id, oid, 0);
        }
    }
}

/// A keepalive succeeds only if it was sent and the device's completion for it reports
/// success; one that reports a failure makes it fail with that status.
pub proof fn keepalives_are_answered_by_the_device(
    es: Seq<Event>,
    at: int,
    id: u32,
    link: LinkState,
)
    requires
        at >= 0,
        kept_alive(es, at, id, link) is Some,
    ensures
        ({
            let s = kept_alive(es, at, id, link)->0;
            &&& s.result is Ok ==> sent_words(es, at, seq![8u32, 12, id]) && completed(
                es,
                s.next - 1,
                0x8000_0008,
                id,
            )
            &&& transacted(es, at, keepalive_message(id), 0x8000_0008, id, link)->0.result
                matches Ok(r) ==> s.result == (if le32_at(r, 12) == 0 {
                Ok(())
            } else {
                Err(Error::Status(le32_at(r, 12)))
            })
        }),
{
    let m = keepalive_message(id);
    if transacted(es, at, m, 0x8000_0008, id, link)->0.result is Ok {
        lemma_completion(es, at, m, 0x8000_0008, id, link);
        assert(is_words(m, seq![8u32, 12, id])) by {
            commands_are_laid_out(id, 0, 0);
        }
    }
}

/// A setting succeeds only if the device's completion for it reports success; one that
/// reports a failure makes it fail with that status.
pub proof fn settings_are_confirmed_by_the_device(
    es: Seq<Event>,
    at: int,
    oid: u32,
    data: Seq<u8>,
    id: u32,
    link: LinkState,
)
    requires
        at >= 0,
        was_set(es, at, oid, data, id, link) is Some,
    ensures
        ({
            let s = was_set(es, at, oid, data, id, link)->0;
            &&& s.result is Ok ==> {
                &&& es[at] matches Event::Sent { message, outcome: Ok(_) }
                &&& message == set_message(id, oid, data)
                &&& completed(es, s.next - 1, 0x8000_0005, id)
            }
            &&& transacted(es, at, set_message(id, oid, data), 0x8000_0005, id, link)->0.result
                matches Ok(r) ==> s.result == (if le32_at(r, 12) == 0 {
                Ok(())
            } else {
                Err(Error::Status(le32_at(r, 12)))
            })
        }),
{
    let m = set_message(id, oid, data);
    if transacted(es, at, m, 0x8000_0005, id, link)->0.result is Ok {
        lemma_completion(es, at, m, 0x8000_0005, id, link);
    }
}

/// An INITIALIZE succeeds exactly if the device's completion is whole, reports success
/// and accepts transfers of some size.
pub proof fn initializing_needs_a_willing_device(reply: Seq<u8>)
    ensures
        init_verdict(reply) is Ok <==> {
            &&& reply.len() >= 44
            &&& le32_at(reply, 0) == 0x8000_0002
            &&& le32_at(reply, 12) == 0
            &&& le32_at(reply, 36) > 0
        },
        reply.len() >= 44 && le32_at(reply, 0) == 0x8000_0002 && le32_at(reply, 12) != 0
            ==> init_verdict(reply) == Err::<InitComplete, _>(
            Error::Status(le32_at(reply, 12)),
        ),
{
}

/// The first completion of a request ends its wait, and is what comes of it. Completions
/// of other requests are passed over.
pub proof fn the_first_completion_counts(
    es: Seq<Event>,
    at: int,
    message: Seq<u8>,
    expect: u32,
    id: u32,
    link: LinkState,
    i: int,
)
    requires
        at >= 0,
        expect >= 0x8000_0000,
        transacted(es, at, message, expect, id, link) is Some,
        at <= i < transacted(es, at, message, expect, id, link)->0.next,
        reply_at(es, i).len() >= 16,
        le32_at(reply_at(es, i), 0) == expect,
        es.len() < u64::MAX,
    ensures
        ({
            let s = transacted(es, at, message, expect, id, link)->0;
            if le32_at(reply_at(es, i), 8) == id {
                i == s.next - 1 && s.result == Ok::<_, Error>(reply_at(es, i))
            } else {
                i < s.next - 1
            }
        }),
{
    if es[at]->Sent_outcome is Ok {
        let now = es[at + 1]->now;
        lemma_awaited_first(
            es,
            at + 2,
            expect,
            id,
            now.after(transaction_timeout()),
            link,
            MAX_POLLS as nat,
            i,
        );
    }
}

/// A command that was sent is waited on for five seconds, in pauses of fifty
/// milliseconds. Once the clock says that they are over it is given up, and not before.
pub proof fn commands_are_given_five_seconds(
    es: Seq<Event>,
    at: int,
    message: Seq<u8>,
    expect: u32,
    id: u32,
    link: LinkState,
    i: int,
)
    requires
        at >= 0,
        transacted(es, at, message, expect, id, link) is Some,
        at + 1 < i < transacted(es, at, message, expect, id, link)->0.next,
        es.len() < u64::MAX,
    ensures
        es[at] matches Event::Sent { outcome: Ok(_), .. },
        es[at + 1] is Clock,
        es[i] matches Event::Waited { timeout, .. } ==> timeout.nanos == 50_000_000,
        es[at + 1]->now.nanos + 5_000_000_000 <= u64::MAX ==> ({
            let s = transacted(es, at, message, expect, id, link)->0;
            let over = es[at + 1]->now.nanos + 5_000_000_000;
            es[i] matches Event::Clock { now } ==> {
                &&& now.nanos >= over ==> i == s.next - 1 && s.result == Err::<Seq<u8>, _>(
                    Error::NoResponse,
                )
                &&& now.nanos < over ==> i < s.next - 1
            }
        }),
{
    if es[at]->Sent_outcome is Ok {
        let now = es[at + 1]->now;
        let deadline = now.after(transaction_timeout());
        lemma_awaited_deadline(
            es,
            at + 2,
            expect,
            id,
            deadline,
            link,
            MAX_POLLS as nat,
            i,
        );
    }
}

/// Draining goes on until a read comes back short, so nothing the device had to say is
/// left behind, and every ping among it is answered.
pub proof fn draining_leaves_nothing_behind(
    es: Seq<Event>,
    at: int,
    link: LinkState,
    polls: nat,
    i: int,
)
    requires
        0 <= at <= es.len(),
        es.len() - at < polls,
        drained(es, at, link, polls) matches Some((Ok(_), _, _)),
    ensures
        drained(es, at, link, polls) matches Some((_, _, next)) && {
            &&& at < next <= es.len()
            &&& es[next - 1] matches Event::Heard { reply: Ok(reply) } && reply.len() < 12
            &&& at <= i < next - 1 ==> (es[i] matches Event::Heard { reply: Ok(reply) }
                ==> reply.len() >= 12)
            &&& at <= i < next && is_ping(es, i) ==> answers_ping(es, i + 1)
        },
    decreases polls,
{
    if let Event::Heard { reply: Ok(reply) } = es[at] {
        if reply.len() >= 12 {
            if let Some((Ok(_), after, next)) = serviced(es, at + 1, reply, link) {
                if next <= es.len() {
                    draining_leaves_nothing_behind(es, next, after, (polls - 1) as nat, i);
                }
            }
        }
    }
}

/// An indication that the medium is connected puts the link up, and one that it is not
/// takes it down; no other message from the device touches it.
pub proof fn indications_move_the_link(
    es: Seq<Event>,
    at: int,
    reply: Seq<u8>,
    link: LinkState,
)
    ensures
        link_after(link, 0x4001_000B) == LinkState::Up,
        link_after(link, 0x4001_000C) == LinkState::Down,
        serviced(es, at, reply, link) matches Some((_, after, next)) ==> {
            let told = le32_at(reply, 8);
            let about_media = le32_at(reply, 0) == 7;
            &&& about_media && told == 0x4001_000B ==> after == LinkState::Up
            &&& about_media && told == 0x4001_000C ==> after == LinkState::Down
            &&& !about_media || (told != 0x4001_000B && told != 0x4001_000C) ==> after == link
            &&& le32_at(reply, 0) != 8 ==> next == at
        },
        le32_at(reply, 0) == 8 && serviced(es, at, reply, link) is Some ==> ({
            &&& es[at] matches Event::Sent { message, .. }
            &&& is_words(message, seq![0x8000_0008u32, 16, le32_at(reply, 8), 0])
        }),
{
    commands_are_laid_out(le32_at(reply, 8), 0, 0);
}

proof fn lemma_alignment(exponent: u32)
    ensures
        alignment_of(exponent) >= 1,
{
    vstd::arithmetic::power2::lemma2_to64();
    if exponent < 8 {
        vstd::arithmetic::power2::lemma_pow2_pos(exponent as nat);
        vstd::arithmetic::power2::lemma_pow2_strictly_increases(exponent as nat, 8);
    }
}

/// Whether the completion heard at `j` for request `n` names `mac`.
spec fn names_the_mac(es: Seq<Event>, from: int, to: int, j: int, n: u32, mac: Seq<u8>) -> bool {
    let reply = reply_at(es, j);
    let start = 8 + le32_at(reply, 20);
    &&& from < j < to
    &&& completed(es, j, 0x8000_0004, n)
    &&& start + le32_at(reply, 16) <= reply.len()
    &&& le32_at(reply, 16) >= 6
    &&& mac == reply.subrange(start, start + 6)
    &&& mac != seq![0u8, 0, 0, 0, 0, 0]
}

/// A MAC that was found stands in a completion that was heard.
proof fn lemma_mac_was_heard(es: Seq<Event>, at: int, id: u32, link: LinkState)
    requires
        at >= 0,
        mac_found(es, at, id, link) is Some,
        mac_found(es, at, id, link)->0.result is Ok,
    ensures
        mac_found(es, at, id, link)->0.next > at,
        exists|j: int, n: u32| #[trigger]
            names_the_mac(
                es,
                at,
                mac_found(es, at, id, link)->0.next,
                j,
                n,
                mac_found(es, at, id, link)->0.result->Ok_0,
            ),
{
    assert(zeros(6) =~= seq![0u8, 0, 0, 0, 0, 0]);
    let first = queried(es, at, 0x0101_0101, id, link)->0;
    let mac = mac_found(es, at, id, link)->0;
    if mac_in(first.result) is Some {
        lemma_query_names_the_mac(es, at, 0x0101_0101, id, link);
        assert(names_the_mac(es, at, mac.next, first.next - 1, id, mac.result->Ok_0));
    } else {
        lemma_transacted_moves_on(es, at, query_message(id, 0x0101_0101), 0x8000_0004, id, link);
        lemma_query_names_the_mac(es, first.next, 0x0101_0102, first.next_id, first.link);
        assert(names_the_mac(es, at, mac.next, mac.next - 1, first.next_id, mac.result->Ok_0));
    }
}

proof fn lemma_query_names_the_mac(es: Seq<Event>, at: int, oid: u32, id: u32, link: LinkState)
    requires
        at >= 0,
        queried(es, at, oid, id, link) is Some,
        mac_in(queried(es, at, oid, id, link)->0.result) is Some,
    ensures
        ({
            let s = queried(es, at, oid, id, link)->0;
            &&& s.next > at
            &&& names_the_mac(es, at, s.next, s.next - 1, id, mac_in(s.result)->0)
        }),
{
    let s = queried(es, at, oid, id, link)->0;
    assert(zeros(6) =~= seq![0u8, 0, 0, 0, 0, 0]);
    queries_are_answered_by_the_device(es, at, oid, id, link);
    lemma_completion(es, at, query_message(id, oid), 0x8000_0004, id, link);
    let reply = reply_at(es, s.next - 1);
    let start = 8 + le32_at(reply, 20);
    assert(reply.subrange(start, start + le32_at(reply, 16)).take(6) =~= reply.subrange(
        start,
        start + 6,
    ));
}

/// What a bring-up that succeeds is made of.
proof fn lemma_bring_up_stages(es: Seq<Event>, at: int, id: u32, link: LinkState)
    requires
        at >= 0,
        brought_up(es, at, id, link) is Some,
        brought_up(es, at, id, link)->0.result is Ok,
    ensures
        ({
            let s = brought_up(es, at, id, link)->0;
            let session = s.result->Ok_0;
            let t = transacted(
                es,
                at,
                init_message(id, HOST_MAX_TRANSFER_SIZE),
                0x8000_0002,
                id,
                link,
            );
            let reply = t->0.result->Ok_0;
            let mac = mac_found(es, t->0.next, t->0.next_id, t->0.link);
            let filter = set_message(mac->0.next_id, 0x0001_010E, le32(0x2F));
            let f = transacted(
                es,
                mac->0.next,
                filter,
                0x8000_0005,
                mac->0.next_id,
                mac->0.link,
            );
            &&& t is Some && t->0.result is Ok
            &&& init_verdict(reply) is Ok
            &&& mac is Some && mac->0.result is Ok
            &&& f is Some && f->0.result is Ok
            &&& f->0.result->Ok_0.len() >= 16 && le32_at(f->0.result->Ok_0, 12) == 0
            &&& s.next == f->0.next
            &&& session.host_mac == mac->0.result->Ok_0
            &&& session.device_max_transfer_size == le32_at(reply, 36)
            &&& session.max_packets_per_transfer == (if le32_at(reply, 32) == 0 {
                1
            } else {
                le32_at(reply, 32)
            })
            &&& session.packet_alignment == alignment_of(le32_at(reply, 40))
        }),
{
    let t = transacted(es, at, init_message(id, HOST_MAX_TRANSFER_SIZE), 0x8000_0002, id, link);
    lemma_alignment(le32_at(t->0.result->Ok_0, 40));
}

/// A command that is answered was sent, and its completion was heard last.
proof fn lemma_completion(
    es: Seq<Event>,
    at: int,
    message: Seq<u8>,
    expect: u32,
    id: u32,
    link: LinkState,
)
    requires
        at >= 0,
        transacted(es, at, message, expect, id, link) is Some,
        transacted(es, at, message, expect, id, link)->0.result is Ok,
    ensures
        ({
            let s = transacted(es, at, message, expect, id, link)->0;
            let reply = s.result->Ok_0;
            &&& es[at] matches Event::Sent { message: m, outcome: Ok(_) } && m == message
            &&& at < s.next - 1 < es.len()
            &&& reply_at(es, s.next - 1) == reply
            &&& reply.len() >= 16
            &&& le32_at(reply, 0) == expect
            &&& le32_at(reply, 8) == id
        }),
{
    let now = es[at + 1]->now;
    success_was_heard(es, at, message, expect, id, link);
    lemma_awaited_in_full(
        es,
        at + 2,
        expect,
        id,
        now.after(transaction_timeout()),
        link,
        MAX_POLLS as nat,
    );
}

/// A completion that is handed back has its four words and stands in the record.
proof fn lemma_awaited_in_full(
    es: Seq<Event>,
    at: int,
    expect: u32,
    id: u32,
    deadline: Instant,
    link: LinkState,
    polls: nat,
)
    requires
        at >= 0,
        awaited(es, at, expect, id, deadline, link, polls) is Some,
        awaited(es, at, expect, id, deadline, link, polls)->0.result is Ok,
    ensures
        awaited(es, at, expect, id, deadline, link, polls)->0.result->Ok_0.len() >= 16,
        awaited(es, at, expect, id, deadline, link, polls)->0.next <= es.len(),
    decreases polls,
{
    if let Step::Again(link, next) = polled(es, at, expect, id, deadline, link) {
        lemma_awaited_in_full(es, next, expect, id, deadline, link, (polls - 1) as nat);
    }
}

proof fn lemma_awaited_first(
    es: Seq<Event>,
    at: int,
    expect: u32,
    id: u32,
    deadline: Instant,
    link: LinkState,
    polls: nat,
    i: int,
)
    requires
        at >= 0,
        expect >= 0x8000_0000,
        es.len() - at < polls,
        awaited(es, at, expect, id, deadline, link, polls) is Some,
        at <= i < awaited(es, at, expect, id, deadline, link, polls)->0.next,
        reply_at(es, i).len() >= 16,
        le32_at(reply_at(es, i), 0) == expect,
    ensures
        ({
            let s = awaited(es, at, expect, id, deadline, link, polls)->0;
            if le32_at(reply_at(es, i), 8) == id {
                i == s.next - 1 && s.result == Ok::<_, Error>(reply_at(es, i))
            } else {
                i < s.next - 1
            }
        }),
    decreases polls,
{
    match polled(es, at, expect, id, deadline, link) {
        Step::Again(after, next) => {
            if next <= es.len() {
                lemma_awaited_ends(es, next, expect, id, deadline, after, (polls - 1) as nat);
                if next <= i {
                    lemma_awaited_first(
                        es,
                        next,
                        expect,
                        id,
                        deadline,
                        after,
                        (polls - 1) as nat,
                        i,
                    );
                }
            }
        },
        _ => {},
    }
}

/// A wait that has polls to spare ends behind where it began.
proof fn lemma_awaited_ends(
    es: Seq<Event>,
    at: int,
    expect: u32,
    id: u32,
    deadline: Instant,
    link: LinkState,
    polls: nat,
)
    requires
        polls > 0,
        awaited(es, at, expect, id, deadline, link, polls) is Some,
    ensures
        awaited(es, at, expect, id, deadline, link, polls)->0.next > at,
{
    if let Step::Again(after, next) = polled(es, at, expect, id, deadline, link) {
        lemma_awaited_moves_on(es, next, expect, id, deadline, after, (polls - 1) as nat);
    }
}

proof fn lemma_awaited_deadline(
    es: Seq<Event>,
    at: int,
    expect: u32,
    id: u32,
    deadline: Instant,
    link: LinkState,
    polls: nat,
    i: int,
)
    requires
        at >= 0,
        es.len() - at < polls,
        awaited(es, at, expect, id, deadline, link, polls) is Some,
        at <= i < awaited(es, at, expect, id, deadline, link, polls)->0.next,
    ensures
        ({
            let s = awaited(es, at, expect, id, deadline, link, polls)->0;
            &&& es[i] matches Event::Waited { timeout, .. } ==> timeout.nanos == 50_000_000
            &&& es[i] matches Event::Clock { now } ==> {
                &&& now.nanos >= deadline.nanos ==> i == s.next - 1 && s.result == Err::<
                    Seq<u8>,
                    _,
                >(Error::NoResponse)
                &&& now.nanos < deadline.nanos ==> i < s.next - 1
            }
        }),
    decreases polls,
{
    match polled(es, at, expect, id, deadline, link) {
        Step::Again(after, next) => {
            if next <= es.len() {
                lemma_awaited_ends(es, next, expect, id, deadline, after, (polls - 1) as nat);
                if next <= i {
                    lemma_awaited_deadline(
                        es,
                        next,
                        expect,
                        id,
                        deadline,
                        after,
                        (polls - 1) as nat,
                        i,
                    );
                }
            }
        },
        _ => {},
    }
}

/// A command fails as what it needed failed: a message that could not be sent, a wait or
/// a read that went wrong is the end of it, and its error is what comes of it.
pub proof fn failures_end_a_command(
    es: Seq<Event>,
    at: int,
    message: Seq<u8>,
    expect: u32,
    id: u32,
    link: LinkState,
    i: int,
)
    requires
        at >= 0,
        transacted(es, at, message, expect, id, link) is Some,
        at <= i < transacted(es, at, message, expect, id, link)->0.next,
        es.len() < u64::MAX,
    ensures
        ({
            let s = transacted(es, at, message, expect, id, link)->0;
            match es[i] {
                Event::Sent { outcome: Err(e), .. } => i == s.next - 1 && s.result == Err::<
                    Seq<u8>,
                    _,
                >(e),
                Event::Waited { outcome: Err(e), .. } => i == s.next - 1 && s.result == Err::<
                    Seq<u8>,
                    _,
                >(e),
                Event::Heard { reply: Err(e) } => i == s.next - 1 && s.result == Err::<Seq<u8>, _>(
                    e,
                ),
                Event::Heard { reply: Ok(reply) } => 12 <= reply.len() < 16 && le32_at(reply, 0)
                    == expect ==> i == s.next - 1 && s.result == Err::<Seq<u8>, _>(
                    Error::Truncated,
                ),
                _ => true,
            }
        }),
{
    if es[at]->Sent_outcome is Ok && i > at + 1 {
        let now = es[at + 1]->now;
        lemma_awaited_failure(
            es,
            at + 2,
            expect,
            id,
            now.after(transaction_timeout()),
            link,
            MAX_POLLS as nat,
            i,
        );
    }
}

/// A bring-up goes no further than its first failure, and fails for it: an INITIALIZE
/// that failed, a MAC that could not be had, or a filter that was not set.
pub proof fn bring_up_stops_at_the_first_failure(
    es: Seq<Event>,
    at: int,
    id: u32,
    link: LinkState,
)
    requires
        brought_up(es, at, id, link) is Some,
    ensures
        ({
            let s = brought_up(es, at, id, link)->0;
            let init = initialized(es, at, id, link)->0;
            let mac = mac_found(es, init.next, init.next_id, init.link)->0;
            let filter = was_set(
                es,
                mac.next,
                0x0001_010E,
                le32(0x2F),
                mac.next_id,
                mac.link,
            )->0;
            &&& s.result is Err ==> {
                ||| init.result is Err && s.result->Err_0 == init.result->Err_0 && s.next
                    == init.next
                ||| init.result is Ok && mac.result is Err && s.result->Err_0 == mac.result->Err_0
                    && s.next == mac.next
                ||| init.result is Ok && mac.result is Ok && filter.result is Err
                    && s.result->Err_0 == filter.result->Err_0 && s.next == filter.next
            }
            &&& s.result is Ok ==> init.result is Ok && mac.result is Ok && filter.result is Ok
                && s.next == filter.next
        }),
{
}

/// A ping is answered as far as that goes: if the answer could not be sent, that is what
/// comes of it. Other messages of the device never fail.
pub proof fn only_unanswered_pings_fail(
    es: Seq<Event>,
    at: int,
    reply: Seq<u8>,
    link: LinkState,
)
    ensures
        serviced(es, at, reply, link) matches Some((r, _, next)) ==> {
            &&& le32_at(reply, 0) == 8 ==> next == at + 1 && (es[at] matches Event::Sent {
                outcome,
                ..
            } && r == outcome)
            &&& le32_at(reply, 0) != 8 ==> r is Ok && next == at
        },
{
}

/// A read that fails while draining is what comes of it.
pub proof fn draining_fails_as_its_reads_do(es: Seq<Event>, at: int, link: LinkState, polls: nat)
    requires
        0 <= at < es.len(),
        polls > 0,
    ensures
        es[at] matches Event::Heard { reply: Err(e) } ==> (drained(es, at, link, polls) matches Some(
            (Err(f), after, next),
        ) && f == e && after == link && next == at + 1),
{
}

proof fn lemma_awaited_failure(
    es: Seq<Event>,
    at: int,
    expect: u32,
    id: u32,
    deadline: Instant,
    link: LinkState,
    polls: nat,
    i: int,
)
    requires
        at >= 0,
        es.len() - at < polls,
        awaited(es, at, expect, id, deadline, link, polls) is Some,
        at <= i < awaited(es, at, expect, id, deadline, link, polls)->0.next,
    ensures
        ({
            let s = awaited(es, at, expect, id, deadline, link, polls)->0;
            match es[i] {
                Event::Sent { outcome: Err(e), .. } => i == s.next - 1 && s.result == Err::<
                    Seq<u8>,
                    _,
                >(e),
                Event::Waited { outcome: Err(e), .. } => i == s.next - 1 && s.result == Err::<
                    Seq<u8>,
                    _,
                >(e),
                Event::Heard { reply: Err(e) } => i == s.next - 1 && s.result == Err::<Seq<u8>, _>(
                    e,
                ),
                Event::Heard { reply: Ok(reply) } => 12 <= reply.len() < 16 && le32_at(reply, 0)
                    == expect ==> i == s.next - 1 && s.result == Err::<Seq<u8>, _>(
                    Error::Truncated,
                ),
                _ => true,
            }
        }),
    decreases polls,
{
    match polled(es, at, expect, id, deadline, link) {
        Step::Again(after, next) => {
            if next <= es.len() {
                lemma_awaited_ends(es, next, expect, id, deadline, after, (polls - 1) as nat);
                if next <= i {
                    lemma_awaited_failure(
                        es,
                        next,
                        expect,
                        id,
                        deadline,
                        after,
                        (polls - 1) as nat,
                        i,
                    );
                }
            }
        },
        _ => {},
    }
}

} // verus!
