//! DHCP messages byte by byte: what a client puts on the wire, and what it reads off it.

use vstd::prelude::*;
use vstd::utf8::{decode_utf8, valid_utf8};

use crate::addr::Ipv4Addr;
use crate::bytes::{
    be16, be32, be32_at, lemma_be32_bytes_of_read, lemma_be32_read_back,
};
use crate::netstack::dhcp::{
    client_message, client_options, domain_in, fixed_header, last_option, lease_from,
    magic_cookie, next_xid, ones, option, options_at, reply_in, trimmed, wanted, ClientState,
    EventView, Reply, State,
};
use crate::netstack::error::Error;

verus! {

/// The options of a client message: its type, the client's hardware address as its id,
/// the address and the server it speaks of where it names them, the options it asks
/// for if it is a DISCOVER or a REQUEST, and the end mark.
pub open spec fn options_on_the_wire(
    kind: u8,
    mac: Seq<u8>,
    requested: Option<Ipv4Addr>,
    server: Option<Ipv4Addr>,
) -> Seq<u8> {
    seq![53u8, 1, kind, 61, 7, 1] + mac + (match requested {
        Some(ip) => seq![50u8, 4] + ip.bytes(),
        None => seq![],
    }) + (match server {
        Some(ip) => seq![54u8, 4] + ip.bytes(),
        None => seq![],
    }) + (if kind == 1 || kind == 3 {
        seq![55u8, 7, 1, 3, 6, 15, 26, 51, 58]
    } else {
        seq![]
    }) + seq![255u8]
}

/// A client message: a BOOTP request for Ethernet with the transaction, the broadcast
/// flag for a client that has no address yet, the client's address, its hardware
/// address, the cookie and the options, in three hundred bytes.
pub open spec fn is_client_message(
    m: Seq<u8>,
    kind: u8,
    mac: Seq<u8>,
    xid: u32,
    ciaddr: Ipv4Addr,
    requested: Option<Ipv4Addr>,
    server: Option<Ipv4Addr>,
) -> bool {
    let options = options_on_the_wire(kind, mac, requested, server);
    &&& m.len() == 300
    &&& m.subrange(0, 4) == seq![1u8, 1, 6, 0]
    &&& be32_at(m, 4) == xid
    &&& m.subrange(8, 10) == seq![0u8, 0]
    &&& m.subrange(10, 12) == seq![
        if ciaddr.bits == 0 {
            128u8
        } else {
            0
        },
        0,
    ]
    &&& m.subrange(12, 16) == ciaddr.bytes()
    &&& forall|i: int| 16 <= i < 28 ==> m[i] == 0
    &&& m.subrange(28, 34) == mac
    &&& forall|i: int| 34 <= i < 236 ==> m[i] == 0
    &&& m.subrange(236, 240) == seq![99u8, 130, 83, 99]
    &&& m.subrange(240, 240 + options.len() as int) == options
    &&& forall|i: int| 240 + options.len() <= i < 300 ==> m[i] == 0
}

/// What option 53 of a readable message says, zero where it has none.
pub open spec fn type_option(msg: Seq<u8>) -> u8 {
    match last_option(reply_in(msg)->Ok_0.options, 53, 1) {
        Some(d) => d[0],
        None => 0,
    }
}

/// A DISCOVER names no address and no server; what it looks like depends on the client
/// and its transaction alone.
pub proof fn discover_is_on_the_wire(st: ClientState)
    requires
        st.mac.len() == 6,
    ensures
        is_client_message(
            st.discovering().discover_message(),
            1,
            st.mac,
            st.discovering().xid,
            Ipv4Addr { bits: 0 },
            None,
            None,
        ),
        st.discovering().pending() == Some(st.discovering().discover_message()),
        st.discovering().mac == st.mac,
{
    lemma_client_message(st.mac, st.discovering().xid, 1, Ipv4Addr { bits: 0 }, None, None);
}

/// An offer is taken up by a REQUEST for the very address in it, from the server that
/// its options name. The same REQUEST is repeated until it is answered.
pub proof fn request_is_on_the_wire(st: ClientState, offer: Seq<u8>)
    requires
        st.mac.len() == 6,
        st.state == State::Selecting,
        st.hear(offer).0 matches Ok(EventView::Send(_)),
    ensures
        reply_in(offer) is Ok,
        st.hear(offer).0 matches Ok(EventView::Send(m)) && {
            &&& is_client_message(
                m,
                3,
                st.mac,
                st.xid,
                Ipv4Addr { bits: 0 },
                Some(Ipv4Addr { bits: be32_at(offer, 16) }),
                match last_option(reply_in(offer)->Ok_0.options, 54, 4) {
                    Some(d) => Some(Ipv4Addr { bits: be32_at(d, 0) }),
                    None => None,
                },
            )
            &&& st.hear(offer).1.pending() == Some(m)
        },
{
    let reply = reply_in(offer)->Ok_0;
    lemma_client_message(
        st.mac,
        st.xid,
        3,
        Ipv4Addr { bits: 0 },
        Some(reply.yiaddr),
        reply.address(54),
    );
}

/// A renewal comes from the leased address and names nothing else; a release names the
/// server that gave the lease. Neither is sent without a lease.
pub proof fn renewal_and_release_are_on_the_wire(st: ClientState)
    requires
        st.mac.len() == 6,
    ensures
        match st.lease {
            Some(lease) => {
                &&& st.renewing().0 matches Some(m) && is_client_message(
                    m,
                    3,
                    st.mac,
                    st.xid,
                    lease.ip,
                    None,
                    None,
                ) && st.renewing().1.pending() == Some(m)
                &&& st.renewing().1.lease == Some(lease)
                &&& st.releasing().0 matches Some(m) && is_client_message(
                    m,
                    7,
                    st.mac,
                    st.xid,
                    lease.ip,
                    None,
                    Some(lease.server_id),
                )
                &&& st.releasing().1.lease is None
                &&& st.releasing().1.state == State::Init
            },
            None => {
                &&& st.renewing() == (None::<Seq<u8>>, st)
                &&& st.releasing() == (None::<Seq<u8>>, st)
            },
        },
{
    if let Some(lease) = st.lease {
        lemma_client_message(st.mac, st.xid, 3, lease.ip, None, None);
        lemma_client_message(st.mac, st.xid, 7, lease.ip, None, Some(lease.server_id));
    }
}

/// A refusal names the address that was offered and the server that offered it.
pub proof fn decline_is_on_the_wire(st: ClientState)
    requires
        st.mac.len() == 6,
    ensures
        match st.offered {
            Some(ip) => st.declining().0 matches Some(m) && is_client_message(
                m,
                4,
                st.mac,
                st.xid,
                Ipv4Addr { bits: 0 },
                Some(ip),
                st.server_id,
            ) && st.declining().1.state == State::Init,
            None => st.declining() == (None::<Seq<u8>>, st),
        },
{
    if let Some(ip) = st.offered {
        lemma_client_message(st.mac, st.xid, 4, Ipv4Addr { bits: 0 }, Some(ip), st.server_id);
    }
}

/// A server answers a client by sending back the transaction and the hardware address
/// of the message it got. An offer that does so is taken up, whatever is in it.
pub proof fn offers_that_echo_the_discover_are_taken_up(st: ClientState, offer: Seq<u8>)
    requires
        st.mac.len() == 6,
        reply_in(offer) is Ok,
        type_option(offer) == 2,
        ({
            let m = st.discovering().discover_message();
            &&& offer.subrange(4, 8) == m.subrange(4, 8)
            &&& offer.subrange(28, 34) == m.subrange(28, 34)
        }),
    ensures
        st.discovering().hear(offer).0 matches Ok(EventView::Send(_)),
        st.discovering().hear(offer).1.state == State::Requesting,
        st.discovering().hear(offer).1.offered == Some(Ipv4Addr { bits: be32_at(offer, 16) }),
{
    let m = st.discovering().discover_message();
    discover_is_on_the_wire(st);
    lemma_same_word(offer, m);
}

/// An acknowledgement that echoes the request it answers binds the client to the
/// address in it; a refusal that does so costs it the lease.
pub proof fn answers_that_echo_the_request_count(st: ClientState, answer: Seq<u8>)
    requires
        st.mac.len() == 6,
        st.valid(),
        st.state == State::Requesting || st.state == State::Renewing,
        reply_in(answer) is Ok,
        ({
            let m = st.pending()->0;
            &&& answer.subrange(4, 8) == m.subrange(4, 8)
            &&& answer.subrange(28, 34) == m.subrange(28, 34)
        }),
    ensures
        type_option(answer) == 5 && be32_at(answer, 16) != 0 ==> ({
            &&& st.hear(answer).0 matches Ok(EventView::Bound(lease))
            &&& lease.ip.bits == be32_at(answer, 16)
            &&& st.hear(answer).1.lease == Some(lease)
            &&& st.hear(answer).1.state == State::Bound
        }),
        type_option(answer) == 6 ==> ({
            &&& st.hear(answer).0 == Ok::<_, Error>(EventView::Nak)
            &&& st.hear(answer).1.lease is None
            &&& st.hear(answer).1.state == State::Init
        }),
{
    let m = st.pending()->0;
    if st.state == State::Requesting {
        lemma_client_message(st.mac, st.xid, 3, Ipv4Addr { bits: 0 }, st.offered, st.server_id);
    } else {
        lemma_client_message(st.mac, st.xid, 3, st.lease->0.ip, None, None);
    }
    lemma_same_word(answer, m);
}

/// A client acts on an offer only while it looks for one, and on an acknowledgement or
/// a refusal only while it waits for one. Anything else leaves it as it is.
pub proof fn only_the_awaited_answer_counts(st: ClientState, msg: Seq<u8>)
    requires
        reply_in(msg) is Ok,
    ensures
        ({
            let kind = type_option(msg);
            let awaited = match st.state {
                State::Selecting => kind == 2,
                State::Requesting | State::Renewing => kind == 5 || kind == 6,
                State::Init | State::Bound => false,
            };
            let ours = be32_at(msg, 4) == st.xid && msg.subrange(28, 34) == st.mac;
            !(awaited && ours) ==> st.hear(msg) == (Ok::<_, Error>(EventView::Ignored), st)
        }),
{
}

/// Options back to back, each with its code and its length in front.
pub open spec fn in_a_row(opts: Seq<(u8, Seq<u8>)>) -> Seq<u8>
    decreases opts.len(),
{
    if opts.len() == 0 {
        seq![]
    } else {
        seq![opts[0].0, opts[0].1.len() as u8] + opts[0].1 + in_a_row(opts.drop_first())
    }
}

/// Whatever options a server writes, in whatever number and order, the client reads
/// them all, and the fixed fields at their places.
pub proof fn server_messages_are_read_in_full(
    head: Seq<u8>,
    opts: Seq<(u8, Seq<u8>)>,
    rest: Seq<u8>,
)
    requires
        head.len() == 240,
        head[0] == 2,
        head.subrange(236, 240) == seq![99u8, 130, 83, 99],
        forall|i: int|
            0 <= i < opts.len() ==> (#[trigger] opts[i]).0 != 0 && opts[i].0 != 255
                && opts[i].1.len() <= 255,
        last_option(opts, 53, 1) matches Some(d) && d[0] != 0,
    ensures
        reply_in(head + in_a_row(opts) + seq![255u8] + rest) == Ok::<_, Error>(
            Reply {
                xid: be32_at(head, 4),
                yiaddr: Ipv4Addr { bits: be32_at(head, 16) },
                siaddr: Ipv4Addr { bits: be32_at(head, 20) },
                chaddr: head.subrange(28, 34),
                options: opts,
            },
        ),
{
    let buf = head + in_a_row(opts) + seq![255u8] + rest;
    assert(forall|i: int| 0 <= i < 240 ==> buf[i] == head[i]);
    assert(buf.subrange(236, 240) =~= head.subrange(236, 240));
    assert(magic_cookie() =~= seq![99u8, 130, 83, 99]);
    assert(buf.subrange(28, 34) =~= head.subrange(28, 34));
    assert(buf.subrange(240, 240 + in_a_row(opts).len() as int) =~= in_a_row(opts));
    lemma_row_is_read(buf, 240, opts, seq![]);
    assert(Seq::<(u8, Seq<u8>)>::empty() + opts =~= opts);
}

/// A message that is too short, is no reply or lacks the cookie is refused.
pub proof fn other_messages_are_refused(buf: Seq<u8>)
    requires
        buf.len() < 240 || buf[0] != 2 || buf.subrange(236, 240) != seq![99u8, 130, 83, 99],
    ensures
        reply_in(buf) is Err,
{
    assert(magic_cookie() =~= seq![99u8, 130, 83, 99]);
}

/// Where an option stands more than once, the last one that is long enough counts.
pub proof fn the_last_option_counts(opts: Seq<(u8, Seq<u8>)>, code: u8, min: int)
    ensures
        match last_option(opts, code, min) {
            Some(d) => exists|i: int|
                {
                    &&& 0 <= i < opts.len()
                    &&& #[trigger] opts[i] == (code, d)
                    &&& d.len() >= min
                    &&& forall|j: int|
                        i < j < opts.len() ==> (#[trigger] opts[j]).0 != code || opts[j].1.len()
                            < min
                },
            None => forall|j: int|
                0 <= j < opts.len() ==> (#[trigger] opts[j]).0 != code || opts[j].1.len() < min,
        },
    decreases opts.len(),
{
    if opts.len() > 0 {
        let last = opts.len() - 1;
        if opts[last].0 == code && opts[last].1.len() >= min {
            assert(opts[last] == (code, opts[last].1));
        } else {
            let front = opts.drop_last();
            the_last_option_counts(front, code, min);
            if let Some(d) = last_option(opts, code, min) {
                let i = choose|i: int|
                    {
                        &&& 0 <= i < front.len()
                        &&& #[trigger] front[i] == (code, d)
                        &&& d.len() >= min
                        &&& forall|j: int|
                            i < j < front.len() ==> (#[trigger] front[j]).0 != code
                                || front[j].1.len() < min
                    };
                assert(opts[i] == (code, d));
                assert forall|j: int| i < j < opts.len() implies (#[trigger] opts[j]).0 != code
                    || opts[j].1.len() < min by {
                    if j < last {
                        assert(front[j] == opts[j]);
                    }
                }
            } else {
                assert forall|j: int| 0 <= j < opts.len() implies (#[trigger] opts[j]).0 != code
                    || opts[j].1.len() < min by {
                    if j < last {
                        assert(front[j] == opts[j]);
                    }
                }
            }
        }
    }
}

/// A lease says what the acknowledgement said: the address in its fixed part, and the
/// mask, the routers, the name servers, the domain, the MTU, the server and the times
/// in its options, with a default where an option is missing.
pub proof fn leases_say_what_the_server_said(reply: Reply, chosen: Option<Ipv4Addr>)
    ensures
        lease_from(reply, chosen) is Ok <==> reply.yiaddr.bits != 0,
        lease_from(reply, chosen) matches Ok(lease) ==> {
            let opts = reply.options;
            &&& lease.ip == reply.yiaddr
            &&& match last_option(opts, 1, 4) {
                Some(d) => lease.netmask.bytes() == d.take(4),
                None => lease.netmask.bytes() == seq![255u8, 255, 255, 0],
            }
            &&& match (last_option(opts, 54, 4), chosen) {
                (Some(d), _) => lease.server_id.bytes() == d.take(4),
                (None, Some(ip)) => lease.server_id == ip,
                (None, None) => lease.server_id == reply.siaddr,
            }
            &&& match last_option(opts, 3, 4) {
                Some(d) => lease.router matches Some(ip) && ip.bytes() == d.take(4),
                None => if lease.server_id.bits == 0 {
                    lease.router is None
                } else {
                    lease.router == Some(lease.server_id)
                },
            }
            &&& match last_option(opts, 6, 0) {
                Some(d) => lease.dns.len() == d.len() / 4 && forall|i: int|
                    0 <= i < lease.dns.len() ==> (#[trigger] lease.dns[i]).bytes() == d.subrange(
                        4 * i,
                        4 * i + 4,
                    ),
                None => lease.dns.len() == 0,
            }
            &&& match last_option(opts, 15, 0) {
                Some(d) => lease.domain == domain_in(d),
                None => lease.domain is None,
            }
            &&& match last_option(opts, 26, 2) {
                Some(d) => lease.mtu == Some((256 * d[0] + d[1]) as u16),
                None => lease.mtu is None,
            }
            &&& match last_option(opts, 51, 4) {
                Some(d) => lease.lease_time.nanos == be32_at(d, 0) * 1_000_000_000,
                None => lease.lease_time.nanos == 3_600_000_000_000,
            }
            &&& match last_option(opts, 58, 4) {
                Some(d) => lease.renewal_time.nanos == be32_at(d, 0) * 1_000_000_000,
                None => lease.renewal_time.nanos == lease.lease_time.nanos / 2,
            }
        },
{
    let opts = reply.options;
    if lease_from(reply, chosen) is Ok {
        let lease = lease_from(reply, chosen)->Ok_0;
        lemma_address(opts, 1);
        lemma_address(opts, 3);
        lemma_address(opts, 54);
        assert(Ipv4Addr { bits: 0xFFFF_FF00 }.bytes() =~= seq![255u8, 255, 255, 0]);
        if let Some(d) = last_option(opts, 6, 0) {
            assert forall|i: int| 0 <= i < lease.dns.len() implies (#[trigger] lease.dns[i]).bytes()
                == d.subrange(4 * i, 4 * i + 4) by {
                lemma_be32_bytes_of_read(d, 4 * i);
            }
        }
    }
}

/// The domain is the text of its option less the NULs behind it, if there is any.
pub proof fn domains_lose_their_padding(data: Seq<u8>)
    ensures
        match domain_in(data) {
            Some(name) => {
                &&& valid_utf8(data)
                &&& 0 < name.len() <= decode_utf8(data).len()
                &&& name == decode_utf8(data).take(name.len() as int)
                &&& name.last() != '\0'
                &&& forall|i: int|
                    name.len() <= i < decode_utf8(data).len() ==> decode_utf8(data)[i] == '\0'
            },
            None => valid_utf8(data) ==> forall|i: int|
                0 <= i < decode_utf8(data).len() ==> decode_utf8(data)[i] == '\0',
        },
{
    lemma_trimmed(decode_utf8(data));
}

/// Transactions follow the usual linear congruential generator: the one after zero is
/// its increment, and those after two neighbours lie its multiplier apart, around at
/// the end.
pub proof fn transactions_follow_the_generator(xid: u32, later: u32)
    requires
        later == xid + 1,
    ensures
        next_xid(0) == 1_013_904_223,
        next_xid(later) == next_xid(xid) + 1_664_525 || next_xid(later) == next_xid(xid)
            + 1_664_525 - 0x1_0000_0000,
{
    let a = xid * 1_664_525 + 1_013_904_223;
    assert(later * 1_664_525 + 1_013_904_223 == a + 1_664_525);
    lemma_step_around(a, 1_664_525);
}

proof fn lemma_step_around(a: int, step: int)
    requires
        0 <= a,
        0 <= step < 0x1_0000_0000,
    ensures
        (a + step) % 0x1_0000_0000 == a % 0x1_0000_0000 + step || (a + step) % 0x1_0000_0000 == a
            % 0x1_0000_0000 + step - 0x1_0000_0000,
{
}

/// A netmask of `n` leading ones has a prefix of `n` bits.
pub proof fn netmasks_are_counted_by_their_ones(n: nat, zeros_behind: nat)
    ensures
        ones(
            ((vstd::arithmetic::power2::pow2(n) - 1) * vstd::arithmetic::power2::pow2(
                zeros_behind,
            )) as nat,
        ) == n,
    decreases n + zeros_behind,
{
    vstd::arithmetic::power2::lemma_pow2_pos(n);
    vstd::arithmetic::power2::lemma_pow2_pos(zeros_behind);
    vstd::arithmetic::power2::lemma2_to64();
    let p = vstd::arithmetic::power2::pow2(n);
    let q = vstd::arithmetic::power2::pow2(zeros_behind);
    if zeros_behind > 0 {
        let half = vstd::arithmetic::power2::pow2((zeros_behind - 1) as nat);
        vstd::arithmetic::power2::lemma_pow2_unfold(zeros_behind);
        netmasks_are_counted_by_their_ones(n, (zeros_behind - 1) as nat);
        assert((p - 1) * q == 2 * ((p - 1) * half)) by (nonlinear_arith)
            requires
                q == 2 * half,
        ;
        assert((p - 1) * half >= 0) by (nonlinear_arith)
            requires
                p >= 1,
                half >= 1,
        ;
        lemma_ones_step(((p - 1) * half) as nat, 0);
    } else if n > 0 {
        let half = vstd::arithmetic::power2::pow2((n - 1) as nat);
        vstd::arithmetic::power2::lemma_pow2_unfold(n);
        vstd::arithmetic::power2::lemma_pow2_pos((n - 1) as nat);
        netmasks_are_counted_by_their_ones((n - 1) as nat, 0);
        assert((p - 1) * 1 == 2 * (half - 1) + 1);
        lemma_ones_step((half - 1) as nat, 1);
    }
}

proof fn lemma_ones_step(m: nat, bit: nat)
    requires
        bit <= 1,
    ensures
        ones(2 * m + bit) == ones(m) + bit,
{
    let n = 2 * m + bit;
    assert(n % 2 == bit && n / 2 == m);
    if n == 0 {
        assert(m == 0);
    }
}

proof fn lemma_trimmed(s: Seq<char>)
    ensures
        trimmed(s).len() <= s.len(),
        trimmed(s) == s.take(trimmed(s).len() as int),
        trimmed(s).len() > 0 ==> trimmed(s).last() != '\0',
        forall|i: int| trimmed(s).len() <= i < s.len() ==> s[i] == '\0',
    decreases s.len(),
{
    if s.len() > 0 && s.last() == '\0' {
        let front = s.drop_last();
        lemma_trimmed(front);
        assert(front.take(trimmed(s).len() as int) =~= s.take(trimmed(s).len() as int));
        assert forall|i: int| trimmed(s).len() <= i < s.len() implies s[i] == '\0' by {
            if i < front.len() {
                assert(front[i] == s[i]);
            }
        }
    } else {
        assert(s.take(s.len() as int) =~= s);
    }
}

proof fn lemma_address(opts: Seq<(u8, Seq<u8>)>, code: u8)
    ensures
        last_option(opts, code, 4) matches Some(d) ==> d.len() >= 4 && Ipv4Addr::at(d, 0).bytes()
            == d.take(4),
{
    the_last_option_counts(opts, code, 4);
    if let Some(d) = last_option(opts, code, 4) {
        lemma_be32_bytes_of_read(d, 0);
        assert(d.subrange(0, 4) =~= d.take(4));
    }
}

proof fn lemma_row_is_read(
    buf: Seq<u8>,
    at: int,
    opts: Seq<(u8, Seq<u8>)>,
    acc: Seq<(u8, Seq<u8>)>,
)
    requires
        0 <= at,
        at + in_a_row(opts).len() < buf.len(),
        buf.subrange(at, at + in_a_row(opts).len() as int) == in_a_row(opts),
        buf[at + in_a_row(opts).len() as int] == 255,
        forall|i: int|
            0 <= i < opts.len() ==> (#[trigger] opts[i]).0 != 0 && opts[i].0 != 255
                && opts[i].1.len() <= 255,
    ensures
        options_at(buf, at, acc) == Ok::<_, Error>(acc + opts),
    decreases opts.len(),
{
    let row = in_a_row(opts);
    if opts.len() == 0 {
        assert(acc + opts =~= acc);
    } else {
        let (code, data) = opts[0];
        let tail = opts.drop_first();
        let end = at + 2 + data.len();
        assert(row == seq![code, data.len() as u8] + data + in_a_row(tail));
        assert(forall|i: int| 0 <= i < row.len() ==> buf[at + i] == #[trigger] row[i]);
        assert(buf[at] == row[0] && buf[at + 1] == row[1]);
        assert(buf.subrange(at + 2, end) =~= data) by {
            assert forall|i: int| 0 <= i < data.len() implies buf.subrange(at + 2, end)[i]
                == data[i] by {
                assert(row[2 + i] == data[i]);
            }
        }
        assert(buf.subrange(end, end + in_a_row(tail).len() as int) =~= in_a_row(tail)) by {
            assert forall|i: int| 0 <= i < in_a_row(tail).len() implies buf.subrange(
                end,
                end + in_a_row(tail).len() as int,
            )[i] == in_a_row(tail)[i] by {
                assert(row[2 + data.len() + i] == in_a_row(tail)[i]);
            }
        }
        assert forall|i: int| 0 <= i < tail.len() implies (#[trigger] tail[i]).0 != 0 && tail[i].0
            != 255 && tail[i].1.len() <= 255 by {
            assert(tail[i] == opts[i + 1]);
        }
        lemma_row_is_read(buf, end, tail, acc.push((code, data)));
        assert(acc.push((code, data)) + tail =~= acc + opts);
    }
}

proof fn lemma_same_word(a: Seq<u8>, b: Seq<u8>)
    requires
        a.len() >= 8,
        b.len() >= 8,
        a.subrange(4, 8) == b.subrange(4, 8),
    ensures
        be32_at(a, 4) == be32_at(b, 4),
{
    let x = a.subrange(4, 8);
    let y = b.subrange(4, 8);
    assert(x[0] == a[4] && x[1] == a[5] && x[2] == a[6] && x[3] == a[7]);
    assert(y[0] == b[4] && y[1] == b[5] && y[2] == b[6] && y[3] == b[7]);
}

proof fn lemma_client_message(
    mac: Seq<u8>,
    xid: u32,
    kind: u8,
    ciaddr: Ipv4Addr,
    requested: Option<Ipv4Addr>,
    server: Option<Ipv4Addr>,
)
    requires
        mac.len() == 6,
    ensures
        is_client_message(
            client_message(mac, xid, kind, ciaddr, requested, server),
            kind,
            mac,
            xid,
            ciaddr,
            requested,
            server,
        ),
{
    let m = client_message(mac, xid, kind, ciaddr, requested, server);
    let h = fixed_header(mac, xid, ciaddr);
    let options = options_on_the_wire(kind, mac, requested, server);
    assert(client_options(mac, kind, requested, server) =~= options) by {
        assert(option(53, seq![kind]) =~= seq![53u8, 1, kind]);
        assert(option(61, seq![1u8] + mac) =~= seq![61u8, 7, 1] + mac);
        if let Some(ip) = requested {
            assert(option(50, ip.bytes()) =~= seq![50u8, 4] + ip.bytes());
        }
        if let Some(ip) = server {
            assert(option(54, ip.bytes()) =~= seq![54u8, 4] + ip.bytes());
        }
        assert(option(55, wanted()) =~= seq![55u8, 7, 1, 3, 6, 15, 26, 51, 58]);
    }
    assert(h.len() == 240);
    assert(forall|i: int| 0 <= i < 240 ==> m[i] == h[i]);
    lemma_be32_read_back(xid);
    assert(h[4] == be32(xid)[0] && h[5] == be32(xid)[1] && h[6] == be32(xid)[2] && h[7] == be32(
        xid,
    )[3]);
    let flags: u16 = if ciaddr.bits == 0 {
        0x8000
    } else {
        0
    };
    assert(h[10] == be16(flags)[0] && h[11] == be16(flags)[1]);
    assert(m.subrange(0, 4) =~= seq![1u8, 1, 6, 0]);
    assert(m.subrange(8, 10) =~= seq![0u8, 0]);
    assert(m.subrange(10, 12) =~= seq![
        if ciaddr.bits == 0 {
            128u8
        } else {
            0
        },
        0,
    ]);
    assert(m.subrange(12, 16) =~= ciaddr.bytes());
    assert(m.subrange(28, 34) =~= mac);
    assert(m.subrange(236, 240) =~= seq![99u8, 130, 83, 99]);
    assert(m.subrange(240, 240 + options.len() as int) =~= options);
}

/// What a client forgets and what it keeps: a new discovery forgets the offer and its
/// server, turning an offer down and renewing forget nothing, a release forgets the
/// lease, and none of them forgets who it is.
pub proof fn clients_forget_only_what_they_must(st: ClientState)
    ensures
        ({
            let d = st.discovering();
            &&& d.mac == st.mac
            &&& d.lease == st.lease
            &&& d.offered is None
            &&& d.server_id is None
            &&& d.state == State::Selecting
        }),
        st.declining().1.lease == st.lease,
        st.declining().1.offered == st.offered,
        st.declining().1.server_id == st.server_id,
        st.declining().1.xid == st.xid,
        st.declining().1.mac == st.mac,
        ({
            let r = st.renewing().1;
            &&& r.lease == st.lease
            &&& r.offered == st.offered
            &&& r.server_id == st.server_id
            &&& r.xid == st.xid
            &&& r.mac == st.mac
            &&& st.lease is Some ==> r.state == State::Renewing
        }),
        ({
            let r = st.releasing().1;
            &&& r.offered == st.offered
            &&& r.server_id == st.server_id
            &&& r.xid == st.xid
            &&& r.mac == st.mac
        }),
{
}

/// Whatever a client hears, it stays in its transaction and keeps its hardware address;
/// an offer and an acknowledgement change no more than they must.
pub proof fn hearing_changes_no_more_than_it_must(st: ClientState, msg: Seq<u8>)
    ensures
        ({
            let (r, after) = st.hear(msg);
            &&& after.xid == st.xid
            &&& after.mac == st.mac
            &&& r is Err ==> after == st
            &&& r matches Ok(EventView::Send(_)) ==> {
                &&& after.lease == st.lease
                &&& after.state == State::Requesting
                &&& after.offered == Some(Ipv4Addr { bits: be32_at(msg, 16) })
            }
            &&& r matches Ok(EventView::Bound(lease)) ==> {
                &&& after.lease == Some(lease)
                &&& after.offered == st.offered
                &&& after.server_id == st.server_id
                &&& after.state == State::Bound
            }
            &&& r matches Ok(EventView::Nak) ==> {
                &&& after.lease is None
                &&& after.offered is None
                &&& after.server_id == st.server_id
                &&& after.state == State::Init
            }
        }),
{
}

/// Options are read one by one: the end mark and the end of the bytes end them, a pad
/// byte is passed over, and any other byte is a code with a length and so much data
/// behind it; one that reaches beyond the bytes is refused.
pub proof fn options_are_read_one_by_one(buf: Seq<u8>, at: int, acc: Seq<(u8, Seq<u8>)>)
    requires
        0 <= at <= buf.len(),
    ensures
        at == buf.len() || buf[at] == 255 ==> options_at(buf, at, acc) == Ok::<_, Error>(acc),
        at < buf.len() && buf[at] == 0 ==> options_at(buf, at, acc) == options_at(buf, at + 1, acc),
        at < buf.len() && 0 < buf[at] < 255 ==> ({
            let whole = at + 1 < buf.len() && at + 2 + buf[at + 1] <= buf.len();
            let end = at + 2 + buf[at + 1];
            &&& whole ==> options_at(buf, at, acc) == options_at(
                buf,
                end,
                acc.push((buf[at], buf.subrange(at + 2, end))),
            )
            &&& !whole ==> options_at(buf, at, acc) == Err::<Seq<(u8, Seq<u8>)>, _>(
                Error::Truncated,
            )
        }),
{
}

/// A reply whose options do not say what kind it is, or cannot be read, is refused.
pub proof fn replies_without_a_type_are_refused(buf: Seq<u8>)
    requires
        buf.len() >= 240,
        buf[0] == 2,
        buf.subrange(236, 240) == seq![99u8, 130, 83, 99],
    ensures
        match options_at(buf, 240, Seq::empty()) {
            Ok(opts) => match last_option(opts, 53, 1) {
                Some(d) => reply_in(buf) is Ok <==> d[0] != 0,
                None => reply_in(buf) is Err,
            },
            Err(e) => reply_in(buf) == Err::<Reply, _>(e),
        },
{
    assert(magic_cookie() =~= seq![99u8, 130, 83, 99]);
}

} // verus!
