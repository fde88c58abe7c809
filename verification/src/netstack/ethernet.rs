//! Ethernet framing and the synthesized host MAC.

use vstd::prelude::*;
use vstd::slice::slice_subrange;

use crate::bytes::{be16, be16_at, get_be16, lemma_be16_read_back, put_be16, put_bytes, put_zeros, zeros};
use crate::netstack::error::{Error, Result};
use crate::text::{hex_padded, padded_hexadecimal_reads_back, push_hex_padded, value_of};

verus! {

pub const HEADER_LEN: usize = 14;

/// Ethernet's minimum frame size excluding FCS.
pub const MIN_FRAME_LEN: usize = 60;

pub const ETHERTYPE_IPV4: u16 = 0x0800;

pub const ETHERTYPE_ARP: u16 = 0x0806;

pub const ETHERTYPE_IPV6: u16 = 0x86DD;

#[derive(Clone, Copy, Debug, Hash)]
pub struct MacAddr(pub [u8; 6]);

impl View for MacAddr {
    type V = Seq<u8>;

    open spec fn view(&self) -> Seq<u8> {
        self.0@
    }
}

impl PartialEq for MacAddr {
    fn eq(&self, other: &Self) -> (r: bool) {
        let r = self.0[0] == other.0[0] && self.0[1] == other.0[1] && self.0[2] == other.0[2]
            && self.0[3] == other.0[3] && self.0[4] == other.0[4] && self.0[5] == other.0[5];
        assert(r ==> self.0@ =~= other.0@);
        r
    }
}

impl vstd::std_specs::cmp::PartialEqSpecImpl for MacAddr {
    open spec fn obeys_eq_spec() -> bool {
        true
    }

    open spec fn eq_spec(&self, other: &Self) -> bool {
        self@ == other@
    }
}

impl Eq for MacAddr {

}

impl Default for MacAddr {
    fn default() -> (r: Self)
        ensures
            r == MacAddr::zero(),
    {
        MacAddr::zero()
    }
}

impl MacAddr {
    #[verifier::allow_in_spec]
    pub fn broadcast() -> MacAddr
        returns
            (MacAddr([0xFFu8, 0xFF, 0xFF, 0xFF, 0xFF, 0xFF])),
    {
        MacAddr([0xFF, 0xFF, 0xFF, 0xFF, 0xFF, 0xFF])
    }

    #[verifier::allow_in_spec]
    pub fn zero() -> MacAddr
        returns
            (MacAddr([0u8, 0, 0, 0, 0, 0])),
    {
        MacAddr([0, 0, 0, 0, 0, 0])
    }

    /// The address in the first six bytes.
    pub fn from_slice(b: &[u8]) -> (r: Result<Self>)
        ensures
            match r {
                Ok(mac) => b@.len() >= 6 && mac@ == b@.take(6),
                Err(e) => b@.len() < 6 && e == Error::Truncated,
            },
    {
        if b.len() < 6 {
            return Err(Error::Truncated);
        }
        let mac = MacAddr([b[0], b[1], b[2], b[3], b[4], b[5]]);
        assert(mac@ =~= b@.take(6));
        Ok(mac)
    }

    pub fn is_broadcast(&self) -> (r: bool)
        ensures
            r == (self@ == MacAddr::broadcast()@),
    {
        *self == MacAddr::broadcast()
    }

    /// Whether the 802.3 group bit is set.
    pub open spec fn is_group(self) -> bool {
        self@[0] % 2 == 1
    }

    /// True for broadcast too, per the 802.3 group bit.
    pub fn is_multicast(&self) -> (r: bool)
        ensures
            r == self.is_group(),
    {
        let first: u8 = self.0[0];
        assert((first & 0x01 != 0) == (first % 2 == 1)) by (bit_vector);
        first & 0x01 != 0
    }

    pub fn as_bytes(&self) -> (r: &[u8; 6])
        ensures
            r@ == self@,
    {
        &self.0
    }

    /// Six hexadecimal pairs between colons.
    pub open spec fn text(self) -> Seq<char> {
        hex_padded(self@[0] as nat, 2) + ":"@ + hex_padded(self@[1] as nat, 2) + ":"@ + hex_padded(
            self@[2] as nat,
            2,
        ) + ":"@ + hex_padded(self@[3] as nat, 2) + ":"@ + hex_padded(self@[4] as nat, 2) + ":"@
            + hex_padded(self@[5] as nat, 2)
    }

    /// Six hexadecimal pairs between colons.
    pub fn to_text(&self) -> (s: String)
        ensures
            s@ == self.text(),
    {
        let mut s = String::new();
        push_hex_padded(&mut s, self.0[0] as u32, 2);
        s.append(":");
        push_hex_padded(&mut s, self.0[1] as u32, 2);
        s.append(":");
        push_hex_padded(&mut s, self.0[2] as u32, 2);
        s.append(":");
        push_hex_padded(&mut s, self.0[3] as u32, 2);
        s.append(":");
        push_hex_padded(&mut s, self.0[4] as u32, 2);
        s.append(":");
        push_hex_padded(&mut s, self.0[5] as u32, 2);
        assert(s@ =~= self.text());
        s
    }
}

#[derive(Clone, Copy, Debug)]
pub struct Frame<'a> {
    pub dst: MacAddr,
    pub src: MacAddr,
    pub ethertype: u16,
    pub payload: &'a [u8],
}

/// A frame's fields.
#[verifier::ext_equal]
pub struct FrameView {
    pub dst: Seq<u8>,
    pub src: Seq<u8>,
    pub ethertype: u16,
    pub payload: Seq<u8>,
}

impl<'a> View for Frame<'a> {
    type V = FrameView;

    open spec fn view(&self) -> FrameView {
        FrameView {
            dst: self.dst@,
            src: self.src@,
            ethertype: self.ethertype,
            payload: self.payload@,
        }
    }
}

/// The fields of the frame in `buf`; everything behind the header is payload.
pub open spec fn dissect(buf: Seq<u8>) -> FrameView {
    FrameView {
        dst: buf.subrange(0, 6),
        src: buf.subrange(6, 12),
        ethertype: be16_at(buf, 12),
        payload: buf.skip(HEADER_LEN as int),
    }
}

pub fn parse(buf: &[u8]) -> (r: Result<Frame<'_>>)
    ensures
        match r {
            Ok(frame) => buf@.len() >= HEADER_LEN && frame@ == dissect(buf@),
            Err(e) => buf@.len() < HEADER_LEN && e == Error::Truncated,
        },
{
    if buf.len() < HEADER_LEN {
        return Err(Error::Truncated);
    }
    let frame = Frame {
        dst: MacAddr([buf[0], buf[1], buf[2], buf[3], buf[4], buf[5]]),
        src: MacAddr([buf[6], buf[7], buf[8], buf[9], buf[10], buf[11]]),
        ethertype: get_be16(buf, 12),
        payload: slice_subrange(buf, HEADER_LEN, buf.len()),
    };
    assert(frame@ =~= dissect(buf@));
    Ok(frame)
}

/// Header and payload.
pub open spec fn unpadded(dst: Seq<u8>, src: Seq<u8>, ethertype: u16, payload: Seq<u8>) -> Seq<u8> {
    dst + src + be16(ethertype) + payload
}

/// `frame` with zeros behind it up to the minimum frame length.
pub open spec fn padded(frame: Seq<u8>) -> Seq<u8> {
    if frame.len() < MIN_FRAME_LEN {
        frame + zeros((MIN_FRAME_LEN - frame.len()) as nat)
    } else {
        frame
    }
}

/// Build a frame, zero-padded to the 60-byte minimum.
pub fn build(dst: MacAddr, src: MacAddr, ethertype: u16, payload: &[u8]) -> (f: Vec<u8>)
    ensures
        f@ == padded(unpadded(dst@, src@, ethertype, payload@)),
{
    let mut f: Vec<u8> = Vec::new();
    put_bytes(&mut f, &dst.0);
    put_bytes(&mut f, &src.0);
    put_be16(&mut f, ethertype);
    put_bytes(&mut f, payload);
    assert(f@ =~= unpadded(dst@, src@, ethertype, payload@));
    if f.len() < MIN_FRAME_LEN {
        let missing: usize = MIN_FRAME_LEN - f.len();
        put_zeros(&mut f, missing);
    }
    f
}

/// A built frame is at least the minimum length, and parsing it gives back the
/// addresses, the type and the payload, with only zeros behind the payload.
pub proof fn built_frame_round_trips(
    dst: MacAddr,
    src: MacAddr,
    ethertype: u16,
    payload: Seq<u8>,
)
    ensures
        ({
            let f = padded(unpadded(dst@, src@, ethertype, payload));
            let d = dissect(f);
            &&& f.len() >= MIN_FRAME_LEN
            &&& d.dst == dst@
            &&& d.src == src@
            &&& d.ethertype == ethertype
            &&& d.payload.take(payload.len() as int) == payload
            &&& d.payload.skip(payload.len() as int) == zeros((f.len() - 14 - payload.len()) as nat)
        }),
{
    let f = padded(unpadded(dst@, src@, ethertype, payload));
    let d = dissect(f);
    lemma_be16_read_back(ethertype);
    assert(f[12] == be16(ethertype)[0] && f[13] == be16(ethertype)[1]);
    assert(d.dst =~= dst@);
    assert(d.src =~= src@);
    assert(d.payload.take(payload.len() as int) =~= payload);
    assert(d.payload.skip(payload.len() as int) =~= zeros((f.len() - 14 - payload.len()) as nat));
}

/// Broadcast counts as multicast.
pub proof fn broadcast_is_a_group_address(mac: MacAddr)
    requires
        mac@ == MacAddr::broadcast()@,
    ensures
        mac.is_group(),
{
}

/// A built frame byte by byte: where it goes, where it comes from, the type, the
/// payload, and zeros up to sixty bytes.
pub proof fn frames_are_laid_out(dst: MacAddr, src: MacAddr, ethertype: u16, payload: Seq<u8>)
    ensures
        ({
            let f = padded(unpadded(dst@, src@, ethertype, payload));
            &&& f.len() == (if payload.len() < 46 {
                60
            } else {
                14 + payload.len()
            })
            &&& f.subrange(0, 6) == dst@
            &&& f.subrange(6, 12) == src@
            &&& 256 * f[12] + f[13] == ethertype
            &&& f.subrange(14, 14 + payload.len() as int) == payload
            &&& forall|i: int| 14 + payload.len() <= i < f.len() ==> f[i] == 0
        }),
{
    let f = padded(unpadded(dst@, src@, ethertype, payload));
    lemma_be16_read_back(ethertype);
    assert(f[12] == be16(ethertype)[0] && f[13] == be16(ethertype)[1]);
    assert(f.subrange(0, 6) =~= dst@);
    assert(f.subrange(6, 12) =~= src@);
    assert(f.subrange(14, 14 + payload.len() as int) =~= payload);
}

/// A frame is read the way it is laid out, and everything behind the fourteenth byte is
/// its payload.
pub proof fn frames_are_read_by_position(buf: Seq<u8>)
    requires
        buf.len() >= 14,
    ensures
        dissect(buf).dst == buf.subrange(0, 6),
        dissect(buf).src == buf.subrange(6, 12),
        dissect(buf).ethertype == 256 * buf[12] + buf[13],
        dissect(buf).payload.len() == buf.len() - 14,
        forall|i: int| 14 <= i < buf.len() ==> dissect(buf).payload[i - 14] == #[trigger] buf[i],
{
}

/// A MAC in text is six pairs of hexadecimal digits between colons, each of which reads
/// back as its byte.
pub proof fn macs_read_back(mac: MacAddr)
    ensures
        mac.text().len() == 17,
        forall|i: int|
            0 <= i < 6 ==> value_of(mac.text().subrange(3 * i, 3 * i + 2), 16) == #[trigger] mac@[i],
        forall|i: int| 0 <= i < 5 ==> #[trigger] mac.text()[3 * i + 2] == ':',
{
    let t = mac.text();
    reveal_strlit(":");
    lemma_pair_reads_back(mac@[0]);
    lemma_pair_reads_back(mac@[1]);
    lemma_pair_reads_back(mac@[2]);
    lemma_pair_reads_back(mac@[3]);
    lemma_pair_reads_back(mac@[4]);
    lemma_pair_reads_back(mac@[5]);
    assert(t.subrange(0, 2) =~= hex_padded(mac@[0] as nat, 2));
    assert(t.subrange(3, 5) =~= hex_padded(mac@[1] as nat, 2));
    assert(t.subrange(6, 8) =~= hex_padded(mac@[2] as nat, 2));
    assert(t.subrange(9, 11) =~= hex_padded(mac@[3] as nat, 2));
    assert(t.subrange(12, 14) =~= hex_padded(mac@[4] as nat, 2));
    assert(t.subrange(15, 17) =~= hex_padded(mac@[5] as nat, 2));
    assert forall|i: int| 0 <= i < 6 implies value_of(t.subrange(3 * i, 3 * i + 2), 16)
        == #[trigger] mac@[i] by {
        assert(i == 0 || i == 1 || i == 2 || i == 3 || i == 4 || i == 5);
    }
    assert(t[2] == ':' && t[5] == ':' && t[8] == ':' && t[11] == ':' && t[14] == ':');
    assert forall|i: int| 0 <= i < 5 implies #[trigger] t[3 * i + 2] == ':' by {
        assert(i == 0 || i == 1 || i == 2 || i == 3 || i == 4);
    }
}

proof fn lemma_pair_reads_back(b: u8)
    ensures
        hex_padded(b as nat, 2).len() == 2,
        value_of(hex_padded(b as nat, 2), 16) == b,
{
    padded_hexadecimal_reads_back(b as nat, 2);
    assert(vstd::arithmetic::power::pow(16, 2) == 256) by {
        reveal(vstd::arithmetic::power::pow);
        reveal_with_fuel(vstd::arithmetic::power::pow, 3);
    }
}

} // verus!
