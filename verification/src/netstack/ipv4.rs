//! Just enough IPv4/UDP to carry DHCP ourselves — the kernel never sees this
//! link, so nothing else can build these packets for us.

use vstd::prelude::*;
use vstd::slice::slice_subrange;

use crate::addr::Ipv4Addr;
use crate::bytes::{
    be16, be16_at, get_be16, lemma_be16_read_back, lemma_be32_bytes_of_read, lemma_be32_read_back,
    low16, put_be16, put_bytes, truncate16,
};
use crate::netstack::error::{Error, Result};

verus! {

pub const PROTO_UDP: u8 = 17;

const IPV4_HEADER_LEN: usize = 20;

const UDP_HEADER_LEN: usize = 8;

#[derive(Clone, Copy, Debug)]
pub struct UdpDatagram<'a> {
    pub src_ip: Ipv4Addr,
    pub dst_ip: Ipv4Addr,
    pub src_port: u16,
    pub dst_port: u16,
    pub payload: &'a [u8],
}

/// A datagram's fields.
#[verifier::ext_equal]
pub struct UdpView {
    pub src_ip: Ipv4Addr,
    pub dst_ip: Ipv4Addr,
    pub src_port: u16,
    pub dst_port: u16,
    pub payload: Seq<u8>,
}

impl<'a> View for UdpDatagram<'a> {
    type V = UdpView;

    open spec fn view(&self) -> UdpView {
        UdpView {
            src_ip: self.src_ip,
            dst_ip: self.dst_ip,
            src_port: self.src_port,
            dst_port: self.dst_port,
            payload: self.payload@,
        }
    }
}

/// The parts back to back.
pub open spec fn flat(parts: Seq<&[u8]>) -> Seq<u8>
    decreases parts.len(),
{
    if parts.len() == 0 {
        Seq::empty()
    } else {
        flat(parts.drop_last()) + parts.last()@
    }
}

/// What a byte at offset `i` adds to the sum of big-endian 16-bit words.
pub open spec fn share(byte: u8, i: int) -> nat {
    if i % 2 == 0 {
        256 * byte as nat
    } else {
        byte as nat
    }
}

/// The sum of the big-endian 16-bit words of `b`; a last odd byte is the high
/// half of a word.
pub open spec fn word_sum(b: Seq<u8>) -> nat
    decreases b.len(),
{
    if b.len() == 0 {
        0
    } else {
        word_sum(b.drop_last()) + share(b.last(), b.len() - 1)
    }
}

/// `sum` in 16 bits, carries added back in: zero only for zero.
pub open spec fn folded(sum: nat) -> nat {
    if sum == 0 {
        0
    } else {
        (sum - 1) as nat % 65535 + 1
    }
}

/// The one's complement of the one's-complement sum.
pub open spec fn internet_checksum(b: Seq<u8>) -> u16 {
    (65535 - folded(word_sum(b))) as u16
}

/// One's-complement sum used by both the IPv4 and UDP checksums. A part with an
/// odd length pairs its last byte with the next part's first byte, exactly as if
/// the parts were concatenated.
pub fn checksum(parts: &[&[u8]]) -> (c: u16)
    ensures
        c == internet_checksum(flat(parts@)),
{
    let mut sum: u32 = 0;
    let mut high: bool = true;
    let ghost mut done: Seq<u8> = Seq::empty();
    assert(parts@.take(0) =~= Seq::<&[u8]>::empty());
    for i in 0..parts.len()
        invariant
            done == flat(parts@.take(i as int)),
            sum == folded(word_sum(done)),
            high == (done.len() % 2 == 0),
    {
        let part: &[u8] = parts[i];
        let ghost before = done;
        assert(part@.take(0) =~= Seq::<u8>::empty());
        for j in 0..part.len()
            invariant
                done == before + part@.take(j as int),
                sum == folded(word_sum(done)),
                high == (done.len() % 2 == 0),
        {
            let word: u32 = if high {
                256 * part[j] as u32
            } else {
                part[j] as u32
            };
            proof {
                let next = done.push(part@[j as int]);
                assert(next.drop_last() =~= done);
                assert(word == share(part@[j as int], next.len() - 1));
                lemma_folded_step(word_sum(done), word as nat);
                assert(part@.take(j + 1) =~= part@.take(j as int).push(part@[j as int]));
                done = next;
                assert(done =~= before + part@.take(j + 1));
            }
            sum = sum + word;
            if sum > 0xFFFF {
                sum = sum - 0xFFFF;
            }
            high = !high;
        }
        proof {
            assert(part@.take(part@.len() as int) =~= part@);
            assert(parts@.take(i + 1).drop_last() =~= parts@.take(i as int));
        }
    }
    assert(parts@.take(parts@.len() as int) =~= parts@);
    (0xFFFF - sum) as u16
}

/// Folding as one goes is folding at the end.
proof fn lemma_folded_step(sum: nat, word: nat)
    requires
        word <= 65535,
    ensures
        folded(sum) <= 65535,
        folded(sum + word) == if folded(sum) + word > 65535 {
            (folded(sum) + word - 65535) as nat
        } else {
            folded(sum) + word
        },
{
}

/// The IPv4 header of an unfragmented UDP packet without options.
pub open spec fn ip_header(
    src: Ipv4Addr,
    dst: Ipv4Addr,
    total_len: u16,
    ip_id: u16,
    check: u16,
) -> Seq<u8> {
    seq![0x45u8, 0u8] + be16(total_len) + be16(ip_id) + be16(0) + seq![64u8, PROTO_UDP] + be16(
        check,
    ) + src.bytes() + dst.bytes()
}

/// The UDP header and payload.
pub open spec fn udp_segment(d: UdpView, check: u16) -> Seq<u8> {
    be16(d.src_port) + be16(d.dst_port) + be16(low16(8 + d.payload.len() as int)) + be16(check)
        + d.payload
}

/// What the UDP checksum covers besides the segment: the IP addresses, the
/// protocol and the length.
pub open spec fn pseudo_header(d: UdpView) -> Seq<u8> {
    d.src_ip.bytes() + d.dst_ip.bytes() + seq![0u8, PROTO_UDP] + be16(
        low16(8 + d.payload.len() as int),
    )
}

/// All-zeroes means "no checksum"; RFC 768 sends the equivalent 0xFFFF instead.
pub open spec fn never_zero(check: u16) -> u16 {
    if check == 0 {
        0xFFFF
    } else {
        check
    }
}

/// The IPv4 header of `d`, checksum and all.
#[verifier::opaque]
pub open spec fn checked_header(d: UdpView, ip_id: u16) -> Seq<u8> {
    let total = low16(28 + d.payload.len() as int);
    ip_header(
        d.src_ip,
        d.dst_ip,
        total,
        ip_id,
        internet_checksum(ip_header(d.src_ip, d.dst_ip, total, ip_id, 0)),
    )
}

/// The UDP segment of `d`, checksum and all.
#[verifier::opaque]
pub open spec fn checked_segment(d: UdpView) -> Seq<u8> {
    udp_segment(d, never_zero(internet_checksum(pseudo_header(d) + udp_segment(d, 0))))
}

/// A complete IPv4+UDP packet.
pub open spec fn udp_packet(d: UdpView, ip_id: u16) -> Seq<u8> {
    checked_header(d, ip_id) + checked_segment(d)
}

fn ip_header_bytes(src: Ipv4Addr, dst: Ipv4Addr, total_len: u16, ip_id: u16, check: u16) -> (p: Vec<
    u8,
>)
    ensures
        p@ == ip_header(src, dst, total_len, ip_id, check),
{
    let mut p: Vec<u8> = Vec::new();
    p.push(0x45);  // version 4, 5-word header
    p.push(0);  // DSCP/ECN
    put_be16(&mut p, total_len);
    put_be16(&mut p, ip_id);
    put_be16(&mut p, 0);  // flags/fragment offset
    p.push(64);  // TTL
    p.push(PROTO_UDP);
    put_be16(&mut p, check);
    put_bytes(&mut p, &src.octets());
    put_bytes(&mut p, &dst.octets());
    assert(p@ =~= ip_header(src, dst, total_len, ip_id, check));
    p
}

fn udp_segment_bytes(d: &UdpDatagram, udp_len: u16, check: u16) -> (p: Vec<u8>)
    requires
        udp_len == low16(8 + d.payload@.len() as int),
    ensures
        p@ == udp_segment(d@, check),
{
    let mut p: Vec<u8> = Vec::new();
    put_be16(&mut p, d.src_port);
    put_be16(&mut p, d.dst_port);
    put_be16(&mut p, udp_len);
    put_be16(&mut p, check);
    put_bytes(&mut p, d.payload);
    assert(p@ =~= udp_segment(d@, check));
    p
}

fn pseudo_header_bytes(d: &UdpDatagram, udp_len: u16) -> (p: Vec<u8>)
    requires
        udp_len == low16(8 + d.payload@.len() as int),
    ensures
        p@ == pseudo_header(d@),
{
    let mut p: Vec<u8> = Vec::new();
    put_bytes(&mut p, &d.src_ip.octets());
    put_bytes(&mut p, &d.dst_ip.octets());
    p.push(0);
    p.push(PROTO_UDP);
    put_be16(&mut p, udp_len);
    assert(p@ =~= pseudo_header(d@));
    p
}

/// Build a complete IPv4+UDP packet. `ip_id` should vary between packets.
pub fn build_udp(d: &UdpDatagram, ip_id: u16) -> (p: Vec<u8>)
    ensures
        p@ == udp_packet(d@, ip_id),
{
    let mut p = checked_header_bytes(d, ip_id);
    let segment = checked_segment_bytes(d);
    p.extend_from_slice(segment.as_slice());
    p
}

fn checked_header_bytes(d: &UdpDatagram, ip_id: u16) -> (p: Vec<u8>)
    ensures
        p@ == checked_header(d@, ip_id),
{
    reveal(checked_header);
    let total_len: u16 = truncate16(d.payload.len()).wrapping_add(28);
    assert(total_len == low16(28 + d@.payload.len() as int));
    let bare = ip_header_bytes(d.src_ip, d.dst_ip, total_len, ip_id, 0);
    let ip_checksum: u16 = checksum_one(bare.as_slice());
    ip_header_bytes(d.src_ip, d.dst_ip, total_len, ip_id, ip_checksum)
}

fn checked_segment_bytes(d: &UdpDatagram) -> (p: Vec<u8>)
    ensures
        p@ == checked_segment(d@),
{
    reveal(checked_segment);
    let udp_len: u16 = truncate16(d.payload.len()).wrapping_add(8);
    assert(udp_len == low16(8 + d@.payload.len() as int));
    // UDP checksum covers a pseudo-header of the IP addresses, protocol and length.
    let pseudo = pseudo_header_bytes(d, udp_len);
    let bare = udp_segment_bytes(d, udp_len, 0);
    let udp_checksum: u16 = checksum_two(pseudo.as_slice(), bare.as_slice());
    // All-zeroes means "no checksum"; RFC 768 sends the equivalent 0xFFFF instead.
    let udp_checksum: u16 = if udp_checksum == 0 {
        0xFFFF
    } else {
        udp_checksum
    };
    udp_segment_bytes(d, udp_len, udp_checksum)
}

fn checksum_one(a: &[u8]) -> (c: u16)
    ensures
        c == internet_checksum(a@),
{
    let parts: [&[u8]; 1] = [a];
    proof {
        reveal_with_fuel(flat, 2);
        assert(parts@.drop_last() =~= Seq::<&[u8]>::empty());
        assert(flat(parts@) =~= a@);
    }
    checksum(&parts)
}

fn checksum_two(a: &[u8], b: &[u8]) -> (c: u16)
    ensures
        c == internet_checksum(a@ + b@),
{
    let parts: [&[u8]; 2] = [a, b];
    proof {
        reveal_with_fuel(flat, 3);
        assert(parts@.drop_last().drop_last() =~= Seq::<&[u8]>::empty());
        assert(flat(parts@) =~= a@ + b@);
    }
    checksum(&parts)
}

/// The datagram in an IPv4 packet, or why there is none.
pub open spec fn udp_in(buf: Seq<u8>) -> Result<UdpView> {
    let header_len = 4 * (buf[0] % 16);
    let total_len = be16_at(buf, 2);
    let udp_len = be16_at(buf, header_len + 4);
    if buf.len() < 20 {
        Err(Error::Truncated)
    } else if buf[0] / 16 != 4 {
        Err(Error::Malformed("not IPv4"))
    } else if header_len < 20 || header_len > buf.len() {
        Err(Error::Malformed("bad IPv4 header length"))
    } else if buf[9] != PROTO_UDP {
        Err(Error::Malformed("not UDP"))
    } else if be16_at(buf, 6) % 0x4000 != 0 {
        // The more-fragments flag or a non-zero fragment offset.
        Err(Error::Malformed("fragmented"))
    } else if total_len < header_len || total_len > buf.len() {
        // Trailing bytes are normal (Ethernet padding); a short buffer is not.
        Err(Error::Truncated)
    } else if total_len - header_len < 8 {
        Err(Error::Truncated)
    } else if udp_len < 8 || udp_len > total_len - header_len {
        Err(Error::Truncated)
    } else {
        Ok(
            UdpView {
                src_ip: Ipv4Addr::at(buf, 12),
                dst_ip: Ipv4Addr::at(buf, 16),
                src_port: be16_at(buf, header_len),
                dst_port: be16_at(buf, header_len + 2),
                payload: buf.subrange(header_len + 8, header_len + udp_len),
            },
        )
    }
}

/// Extract a UDP datagram, tolerating IPv4 options. Fragments are rejected:
/// DHCP never uses them and reassembly is out of scope.
pub fn parse_udp(buf: &[u8]) -> (r: Result<UdpDatagram<'_>>)
    ensures
        match r {
            Ok(d) => udp_in(buf@) == Ok::<_, Error>(d@),
            Err(e) => udp_in(buf@) == Err::<UdpView, _>(e),
        },
{
    if buf.len() < IPV4_HEADER_LEN {
        return Err(Error::Truncated);
    }
    if buf[0] / 16 != 4 {
        return Err(Error::Malformed("not IPv4"));
    }
    let header_len: usize = 4 * (buf[0] % 16) as usize;
    if header_len < IPV4_HEADER_LEN || header_len > buf.len() {
        return Err(Error::Malformed("bad IPv4 header length"));
    }
    if buf[9] != PROTO_UDP {
        return Err(Error::Malformed("not UDP"));
    }
    // More-fragments flag or a non-zero fragment offset.
    if get_be16(buf, 6) % 0x4000 != 0 {
        return Err(Error::Malformed("fragmented"));
    }
    let total_len: usize = get_be16(buf, 2) as usize;
    // Trailing bytes are normal (Ethernet padding); a short buffer is not.
    if total_len < header_len || total_len > buf.len() {
        return Err(Error::Truncated);
    }
    if total_len - header_len < UDP_HEADER_LEN {
        return Err(Error::Truncated);
    }
    let udp_len: usize = get_be16(buf, header_len + 4) as usize;
    if udp_len < UDP_HEADER_LEN || udp_len > total_len - header_len {
        return Err(Error::Truncated);
    }
    Ok(
        UdpDatagram {
            src_ip: Ipv4Addr::from_slice_at(buf, 12),
            dst_ip: Ipv4Addr::from_slice_at(buf, 16),
            src_port: get_be16(buf, header_len),
            dst_port: get_be16(buf, header_len + 2),
            payload: slice_subrange(buf, header_len + UDP_HEADER_LEN, header_len + udp_len),
        },
    )
}

/// Appending bytes to an even number of bytes adds their sum.
proof fn lemma_word_sum_append(a: Seq<u8>, b: Seq<u8>)
    requires
        a.len() % 2 == 0,
    ensures
        word_sum(a + b) == word_sum(a) + word_sum(b),
    decreases b.len(),
{
    if b.len() == 0 {
        assert(a + b =~= a);
    } else {
        assert((a + b).drop_last() =~= a + b.drop_last());
        lemma_word_sum_append(a, b.drop_last());
        assert((a + b).last() == b.last());
        assert(share(b.last(), (a + b).len() - 1) == share(b.last(), b.len() - 1));
    }
}

/// A 16-bit word sums to itself.
proof fn lemma_word_sum_be16(v: u16)
    ensures
        word_sum(be16(v)) == v,
{
    let b = be16(v);
    let one = b.drop_last();
    assert(word_sum(one.drop_last()) == 0);
    assert(word_sum(one) == share(one.last(), 0));
    assert(word_sum(b) == word_sum(one) + share(b.last(), 1));
}

/// Filling in the checksum where there was zero makes the whole sum up to zero:
/// `before` and `after` are the bytes around the checksum field, and either form
/// of a zero checksum will do.
proof fn lemma_checksum_verifies(before: Seq<u8>, after: Seq<u8>, check: u16)
    requires
        before.len() % 2 == 0,
        ({
            let c = internet_checksum(before + be16(0) + after);
            check == c || check == never_zero(c)
        }),
    ensures
        internet_checksum(before + be16(check) + after) == 0,
{
    let c = internet_checksum(before + be16(0) + after);
    let s = word_sum(before) + word_sum(after);
    lemma_word_sum_field(before, 0, after);
    lemma_word_sum_field(before, check, after);
    lemma_folded_step(s, 0);
    assert(c == 65535 - folded(s));
    assert(folded(s + check as nat) == 65535);
}

/// What a 16-bit field contributes to a sum.
proof fn lemma_word_sum_field(before: Seq<u8>, v: u16, after: Seq<u8>)
    requires
        before.len() % 2 == 0,
    ensures
        word_sum(before + be16(v) + after) == word_sum(before) + v + word_sum(after),
{
    lemma_word_sum_append(before, be16(v));
    lemma_word_sum_append(before + be16(v), after);
    lemma_word_sum_be16(v);
}

/// Summing a built IPv4 header with its checksum yields zero.
pub proof fn header_checksum_verifies(d: UdpView, ip_id: u16)
    ensures
        checked_header(d, ip_id).len() == 20,
        internet_checksum(checked_header(d, ip_id)) == 0,
{
    reveal(checked_header);
    let total = low16(28 + d.payload.len() as int);
    let before = seq![0x45u8, 0u8] + be16(total) + be16(ip_id) + be16(0) + seq![64u8, PROTO_UDP];
    let after = d.src_ip.bytes() + d.dst_ip.bytes();
    let zero = ip_header(d.src_ip, d.dst_ip, total, ip_id, 0);
    let check = internet_checksum(zero);
    assert(zero =~= before + be16(0) + after);
    assert(checked_header(d, ip_id) =~= before + be16(check) + after);
    lemma_checksum_verifies(before, after, check);
}

/// Summing a built UDP segment behind its pseudo-header yields zero, and its
/// checksum field is never the zero that means there is none.
pub proof fn udp_checksum_verifies(d: UdpView)
    ensures
        internet_checksum(pseudo_header(d) + checked_segment(d)) == 0,
        be16_at(checked_segment(d), 6) != 0,
{
    reveal(checked_segment);
    let before = pseudo_header(d) + (be16(d.src_port) + be16(d.dst_port) + be16(
        low16(8 + d.payload.len() as int),
    ));
    let after = d.payload;
    let zero = pseudo_header(d) + udp_segment(d, 0);
    let check = never_zero(internet_checksum(zero));
    assert(zero =~= before + be16(0) + after);
    assert(pseudo_header(d) + checked_segment(d) =~= before + be16(check) + after);
    lemma_checksum_verifies(before, after, check);
    lemma_be16_read_back(check);
    assert(checked_segment(d)[6] == be16(check)[0] && checked_segment(d)[7] == be16(check)[1]);
}

/// Parsing a built packet gives the datagram back, with or without padding behind
/// it.
pub proof fn built_datagram_round_trips(d: UdpView, ip_id: u16, padding: Seq<u8>)
    requires
        28 + d.payload.len() <= 65535,
    ensures
        udp_in(udp_packet(d, ip_id) + padding) == Ok::<_, Error>(d),
{
    let h = checked_header(d, ip_id);
    let s = checked_segment(d);
    lemma_header_fields(d, ip_id);
    lemma_segment_fields(d);
    lemma_udp_in(h, s, padding, d);
}

/// A header and a segment with the right fields are read as the datagram they
/// stand for.
proof fn lemma_udp_in(h: Seq<u8>, s: Seq<u8>, padding: Seq<u8>, d: UdpView)
    requires
        28 + d.payload.len() <= 65535,
        h.len() == 20,
        h[0] == 0x45,
        be16_at(h, 2) == 28 + d.payload.len(),
        h[6] == 0,
        h[7] == 0,
        h[9] == PROTO_UDP,
        Ipv4Addr::at(h, 12) == d.src_ip,
        Ipv4Addr::at(h, 16) == d.dst_ip,
        s.len() == 8 + d.payload.len(),
        be16_at(s, 0) == d.src_port,
        be16_at(s, 2) == d.dst_port,
        be16_at(s, 4) == 8 + d.payload.len(),
        s.skip(8) == d.payload,
    ensures
        udp_in(h + s + padding) == Ok::<_, Error>(d),
{
    let buf = h + s + padding;
    assert(forall|i: int| 0 <= i < 20 ==> buf[i] == h[i]);
    assert(buf[20] == s[0] && buf[21] == s[1] && buf[22] == s[2] && buf[23] == s[3] && buf[24]
        == s[4] && buf[25] == s[5]);
    let payload = buf.subrange(28, 28 + d.payload.len() as int);
    assert(payload =~= s.skip(8));
}

proof fn lemma_header_fields(d: UdpView, ip_id: u16)
    ensures
        ({
            let h = checked_header(d, ip_id);
            &&& h.len() == 20
            &&& h[0] == 0x45
            &&& be16_at(h, 2) == low16(28 + d.payload.len() as int)
            &&& h[6] == 0 && h[7] == 0
            &&& h[9] == PROTO_UDP
            &&& Ipv4Addr::at(h, 12) == d.src_ip
            &&& Ipv4Addr::at(h, 16) == d.dst_ip
        }),
{
    reveal(checked_header);
    let h = checked_header(d, ip_id);
    let total = low16(28 + d.payload.len() as int);
    let s = d.src_ip.bytes();
    let t = d.dst_ip.bytes();
    lemma_be16_read_back(total);
    lemma_be32_read_back(d.src_ip.bits);
    lemma_be32_read_back(d.dst_ip.bits);
    assert(h[2] == be16(total)[0] && h[3] == be16(total)[1]);
    assert(h[12] == s[0] && h[13] == s[1] && h[14] == s[2] && h[15] == s[3]);
    assert(h[16] == t[0] && h[17] == t[1] && h[18] == t[2] && h[19] == t[3]);
    assert(h[6] == be16(0)[0] && h[7] == be16(0)[1]);
}

proof fn lemma_segment_fields(d: UdpView)
    ensures
        ({
            let s = checked_segment(d);
            &&& s.len() == 8 + d.payload.len()
            &&& be16_at(s, 0) == d.src_port
            &&& be16_at(s, 2) == d.dst_port
            &&& be16_at(s, 4) == low16(8 + d.payload.len() as int)
            &&& s.skip(8) == d.payload
        }),
{
    reveal(checked_segment);
    let s = checked_segment(d);
    let len = low16(8 + d.payload.len() as int);
    lemma_be16_read_back(d.src_port);
    lemma_be16_read_back(d.dst_port);
    lemma_be16_read_back(len);
    assert(s[0] == be16(d.src_port)[0] && s[1] == be16(d.src_port)[1]);
    assert(s[2] == be16(d.dst_port)[0] && s[3] == be16(d.dst_port)[1]);
    assert(s[4] == be16(len)[0] && s[5] == be16(len)[1]);
    assert(s.skip(8) =~= d.payload);
}

/// A built packet byte by byte: an IPv4 header of five words without options, no
/// fragment, sixty-four hops and UDP, then the ports, the length and the payload. Its
/// identification is the one given.
pub proof fn packets_are_laid_out(d: UdpView, ip_id: u16)
    requires
        28 + d.payload.len() <= 65535,
    ensures
        ({
            let p = udp_packet(d, ip_id);
            &&& p.len() == 28 + d.payload.len()
            &&& p[0] == 0x45 && p[1] == 0
            &&& be16_at(p, 2) == 28 + d.payload.len()
            &&& be16_at(p, 4) == ip_id
            &&& p[6] == 0 && p[7] == 0
            &&& p[8] == 64 && p[9] == 17
            &&& p.subrange(12, 16) == d.src_ip.bytes()
            &&& p.subrange(16, 20) == d.dst_ip.bytes()
            &&& be16_at(p, 20) == d.src_port
            &&& be16_at(p, 22) == d.dst_port
            &&& be16_at(p, 24) == 8 + d.payload.len()
            &&& p.skip(28) == d.payload
        }),
{
    reveal(checked_header);
    let h = checked_header(d, ip_id);
    let s = checked_segment(d);
    let p = udp_packet(d, ip_id);
    lemma_header_fields(d, ip_id);
    lemma_segment_fields(d);
    lemma_be16_read_back(ip_id);
    assert(h[4] == be16(ip_id)[0] && h[5] == be16(ip_id)[1]);
    assert(forall|i: int| 0 <= i < 20 ==> p[i] == h[i]);
    assert(p[20] == s[0] && p[21] == s[1] && p[22] == s[2] && p[23] == s[3] && p[24] == s[4]
        && p[25] == s[5]);
    assert(p.subrange(12, 16) =~= d.src_ip.bytes());
    assert(p.subrange(16, 20) =~= d.dst_ip.bytes());
    assert(p.skip(28) =~= s.skip(8));
}

/// Both checksums of a built packet hold: the words of the header, and those of the
/// segment with the addresses, the protocol and the length, sum to nothing but ones.
pub proof fn checksums_of_packets_hold(d: UdpView, ip_id: u16)
    requires
        28 + d.payload.len() <= 65535,
    ensures
        ({
            let p = udp_packet(d, ip_id);
            let covered = p.subrange(12, 20) + seq![0u8, 17u8] + p.subrange(24, 26) + p.skip(20);
            &&& word_sum(p.take(20)) % 65535 == 0
            &&& word_sum(p.take(20)) > 0
            &&& word_sum(covered) % 65535 == 0
            &&& word_sum(covered) > 0
            &&& be16_at(p, 26) != 0
        }),
{
    let p = udp_packet(d, ip_id);
    let h = checked_header(d, ip_id);
    let s = checked_segment(d);
    header_checksum_verifies(d, ip_id);
    udp_checksum_verifies(d);
    packets_are_laid_out(d, ip_id);
    lemma_segment_fields(d);
    assert(p.take(20) =~= h);
    assert(p.skip(20) =~= s);
    assert(p[26] == s[6] && p[27] == s[7]);
    let len = low16(8 + d.payload.len() as int);
    assert(p.subrange(24, 26) =~= be16(len)) by {
        assert(be16_at(p, 24) == len);
        assert(p[24] == be16(len)[0] && p[25] == be16(len)[1]);
    }
    assert(p.subrange(12, 20) =~= p.subrange(12, 16) + p.subrange(16, 20));
    assert(p.subrange(12, 20) + seq![0u8, 17u8] + p.subrange(24, 26) + p.skip(20)
        =~= pseudo_header(d) + s);
    sums_add_up(h);
    sums_add_up(pseudo_header(d) + s);
}

/// What a checksum is: with it added, the words sum to a multiple of the largest word.
/// Only for bytes that are all zero is it the largest word itself.
pub proof fn sums_add_up(b: Seq<u8>)
    ensures
        (word_sum(b) + internet_checksum(b)) % 65535 == 0,
        internet_checksum(b) == 0xFFFF <==> word_sum(b) == 0,
{
    let s = word_sum(b);
    if s > 0 {
        vstd::arithmetic::div_mod::lemma_fundamental_div_mod((s - 1) as int, 65535);
        let q = (s - 1) / 65535;
        let r = (s - 1) % 65535;
        assert(s + (65535 - (r + 1)) == 65535 * (q + 1));
        assert((65535 * (q + 1)) % 65535 == 0) by (nonlinear_arith);
    }
}

/// How words are summed: two bytes behind an even number of bytes add their big-endian
/// value, and a byte left over adds itself as the high half of a word.
pub proof fn words_are_big_endian(a: Seq<u8>, x: u8, y: u8)
    requires
        a.len() % 2 == 0,
    ensures
        word_sum(Seq::empty()) == 0,
        word_sum(a.push(x)) == word_sum(a) + 256 * x,
        word_sum(a.push(x).push(y)) == word_sum(a) + 256 * x + y,
{
    assert(a.push(x).drop_last() =~= a);
    let b = a.push(x).push(y);
    assert(b.drop_last() =~= a.push(x));
    assert(word_sum(b) == word_sum(a.push(x)) + share(y, b.len() - 1));
}

/// A datagram is read by position, behind however many options the header has. It is
/// there exactly if the packet is whole, unfragmented UDP over IPv4 with lengths that
/// fit into one another.
pub proof fn datagrams_are_read_by_position(buf: Seq<u8>)
    ensures
        ({
            let h = 4 * (buf[0] % 16);
            udp_in(buf) is Ok <==> {
                &&& buf.len() >= 20
                &&& 64 <= buf[0] < 80
                &&& 20 <= h <= buf.len()
                &&& buf[9] == 17
                &&& buf[6] % 64 == 0 && buf[7] == 0
                &&& h + 8 <= be16_at(buf, 2) <= buf.len()
                &&& 8 <= be16_at(buf, h + 4) <= be16_at(buf, 2) - h
            }
        }),
        udp_in(buf) matches Ok(d) ==> {
            let h = 4 * (buf[0] % 16);
            &&& d.src_ip.bytes() == buf.subrange(12, 16)
            &&& d.dst_ip.bytes() == buf.subrange(16, 20)
            &&& d.src_port == be16_at(buf, h)
            &&& d.dst_port == be16_at(buf, h + 2)
            &&& d.payload == buf.subrange(h + 8, h + be16_at(buf, h + 4))
        },
{
    if buf.len() >= 20 {
        lemma_be32_bytes_of_read(buf, 12);
        lemma_be32_bytes_of_read(buf, 16);
        let w = 256 * buf[6] + buf[7];
        assert(w % 0x4000 == 0 <==> buf[6] % 64 == 0 && buf[7] == 0);
    }
}

} // verus!
