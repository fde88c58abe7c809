//! IPv4 addresses.

use vstd::prelude::*;

use crate::bytes::{be32, be32_at, get_be32, lemma_be32_bytes_of_read, lemma_be32_read_back};
use crate::text::{
    decimal, joined, lemma_decimal_digits, numbers_read_back, push_decimal, split,
    split_undoes_joining, value_of,
};

verus! {

/// An IPv4 address, most significant octet first.
#[derive(Clone, Copy, Debug, PartialEq, Eq, Hash, Structural)]
pub struct Ipv4Addr {
    pub bits: u32,
}

impl Ipv4Addr {
    /// The address whose octets stand in the four bytes of `b` from `i` on.
    pub open spec fn at(b: Seq<u8>, i: int) -> Ipv4Addr {
        Ipv4Addr { bits: be32_at(b, i) }
    }

    /// The four octets.
    pub open spec fn bytes(self) -> Seq<u8> {
        be32(self.bits)
    }

    pub fn new(a: u8, b: u8, c: u8, d: u8) -> (r: Ipv4Addr)
        ensures
            r == Self::at(seq![a, b, c, d], 0),
            r.bytes() == seq![a, b, c, d],
    {
        let bytes: [u8; 4] = [a, b, c, d];
        let r = Self::from_slice_at(&bytes, 0);
        assert(bytes@ =~= seq![a, b, c, d]);
        assert(r.bytes() =~= seq![a, b, c, d]);
        r
    }

    /// The address in the four bytes of `b` from `i` on.
    pub fn from_slice_at(b: &[u8], i: usize) -> (r: Ipv4Addr)
        requires
            i + 4 <= b@.len(),
        ensures
            r == Self::at(b@, i as int),
            r.bytes() == b@.subrange(i as int, i + 4),
    {
        let r = Ipv4Addr { bits: get_be32(b, i) };
        proof {
            lemma_be32_bytes_of_read(b@, i as int);
        }
        r
    }

    pub fn octets(&self) -> (r: [u8; 4])
        ensures
            r@ == self.bytes(),
    {
        let v: u32 = self.bits;
        let r = [
            (v / 16777216) as u8,
            (v / 65536 % 256) as u8,
            (v / 256 % 256) as u8,
            (v % 256) as u8,
        ];
        assert(r@ =~= self.bytes());
        r
    }

    /// 0.0.0.0
    #[verifier::allow_in_spec]
    pub fn unspecified() -> Ipv4Addr
        returns
            (Ipv4Addr { bits: 0 }),
    {
        Ipv4Addr { bits: 0 }
    }

    /// 255.255.255.255
    #[verifier::allow_in_spec]
    pub fn broadcast() -> Ipv4Addr
        returns
            (Ipv4Addr { bits: 0xFFFF_FFFF }),
    {
        Ipv4Addr { bits: 0xFFFF_FFFF }
    }

    #[verifier::allow_in_spec]
    pub fn is_unspecified(&self) -> bool
        returns
            self.bits == 0,
    {
        self.bits == 0
    }

    /// Dotted decimal.
    pub open spec fn text(self) -> Seq<char> {
        let b = self.bytes();
        decimal(b[0] as nat) + "."@ + decimal(b[1] as nat) + "."@ + decimal(b[2] as nat) + "."@
            + decimal(b[3] as nat)
    }

    /// Dotted decimal.
    pub fn to_text(&self) -> (s: String)
        ensures
            s@ == self.text(),
    {
        let b = self.octets();
        let mut s = String::new();
        push_decimal(&mut s, b[0] as u64);
        s.append(".");
        push_decimal(&mut s, b[1] as u64);
        s.append(".");
        push_decimal(&mut s, b[2] as u64);
        s.append(".");
        push_decimal(&mut s, b[3] as u64);
        assert(s@ =~= self.text());
        s
    }
}

/// An address is the one its octets stand for.
pub proof fn octets_determine_the_address(a: Ipv4Addr)
    ensures
        Ipv4Addr::at(a.bytes(), 0) == a,
{
    lemma_be32_read_back(a.bits);
}

/// An address in text is its four octets in decimal between dots: taken apart at the
/// dots and read, it gives the octets back.
pub proof fn addresses_read_back(a: Ipv4Addr)
    ensures
        ({
            let parts = split(a.text(), '.');
            &&& parts.len() == 4
            &&& forall|i: int|
                0 <= i < 4 ==> #[trigger] value_of(parts[i], 10) == a.bytes()[i]
        }),
{
    let b = a.bytes();
    let parts = seq![
        decimal(b[0] as nat),
        decimal(b[1] as nat),
        decimal(b[2] as nat),
        decimal(b[3] as nat),
    ];
    reveal_strlit(".");
    reveal_with_fuel(joined, 4);
    assert forall|i: int| 0 <= i < 4 implies !(#[trigger] parts[i]).contains('.') by {
        lemma_decimal_digits(b[i] as nat);
        assert(parts[i] == decimal(b[i] as nat));
    }
    assert(parts.drop_last().drop_last().drop_last() =~= seq![parts[0]]);
    assert(parts.drop_last().drop_last() =~= seq![parts[0], parts[1]]);
    assert(parts.drop_last() =~= seq![parts[0], parts[1], parts[2]]);
    assert(a.text() =~= joined(parts, '.'));
    split_undoes_joining(parts, '.');
    assert forall|i: int| 0 <= i < 4 implies #[trigger] value_of(parts[i], 10) == b[i] by {
        numbers_read_back(b[i] as nat);
        assert(parts[i] == decimal(b[i] as nat));
    }
}

} // verus!
