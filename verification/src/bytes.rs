//! Fixed-width integers as they stand on the wire.

use vstd::prelude::*;

verus! {

/// The four bytes of `v`, least significant first.
pub open spec fn le32(v: u32) -> Seq<u8> {
    seq![
        (v % 256) as u8,
        (v / 256 % 256) as u8,
        (v / 65536 % 256) as u8,
        (v / 16777216) as u8,
    ]
}

/// The little-endian integer in the four bytes of `b` from `i` on.
pub open spec fn le32_at(b: Seq<u8>, i: int) -> u32 {
    (b[i] + 256 * b[i + 1] + 65536 * b[i + 2] + 16777216 * b[i + 3]) as u32
}

/// The two bytes of `v`, most significant first.
pub open spec fn be16(v: u16) -> Seq<u8> {
    seq![(v / 256) as u8, (v % 256) as u8]
}

/// The big-endian integer in the two bytes of `b` from `i` on.
pub open spec fn be16_at(b: Seq<u8>, i: int) -> u16 {
    (256 * b[i] + b[i + 1]) as u16
}

/// The four bytes of `v`, most significant first.
pub open spec fn be32(v: u32) -> Seq<u8> {
    seq![
        (v / 16777216) as u8,
        (v / 65536 % 256) as u8,
        (v / 256 % 256) as u8,
        (v % 256) as u8,
    ]
}

/// The big-endian integer in the four bytes of `b` from `i` on.
pub open spec fn be32_at(b: Seq<u8>, i: int) -> u32 {
    (16777216 * b[i] + 65536 * b[i + 1] + 256 * b[i + 2] + b[i + 3]) as u32
}

/// The little-endian words `ws`, back to back.
pub open spec fn le_words(ws: Seq<u32>) -> Seq<u8>
    decreases ws.len(),
{
    if ws.len() == 0 {
        Seq::empty()
    } else {
        le_words(ws.drop_last()) + le32(ws.last())
    }
}

/// The low 32 bits of `n`.
pub open spec fn low32(n: int) -> u32 {
    (n % 0x1_0000_0000) as u32
}

/// The low 16 bits of `n`.
pub open spec fn low16(n: int) -> u16 {
    (n % 0x1_0000) as u16
}

/// `n` zero bytes.
pub open spec fn zeros(n: nat) -> Seq<u8> {
    Seq::new(n, |i: int| 0u8)
}

/// Reading back four little-endian bytes gives the integer they were made from.
pub proof fn lemma_le32_read_back(v: u32)
    ensures
        le32_at(le32(v), 0) == v,
{
}

/// Reading back two big-endian bytes gives the integer they were made from.
pub proof fn lemma_be16_read_back(v: u16)
    ensures
        be16_at(be16(v), 0) == v,
{
}

/// Reading back four big-endian bytes gives the integer they were made from.
pub proof fn lemma_be32_read_back(v: u32)
    ensures
        be32_at(be32(v), 0) == v,
{
}

/// The big-endian bytes of the integer in four bytes are those bytes.
pub proof fn lemma_be32_bytes_of_read(b: Seq<u8>, i: int)
    requires
        0 <= i,
        i + 4 <= b.len(),
    ensures
        be32(be32_at(b, i)) == b.subrange(i, i + 4),
{
    lemma_digits256(b[i] as int, b[i + 1] as int, b[i + 2] as int, b[i + 3] as int);
    assert(be32(be32_at(b, i)) =~= b.subrange(i, i + 4));
}

proof fn lemma_digits256(w: int, x: int, y: int, z: int)
    requires
        0 <= w < 256,
        0 <= x < 256,
        0 <= y < 256,
        0 <= z < 256,
    ensures
        ({
            let v = 16777216 * w + 65536 * x + 256 * y + z;
            &&& v / 16777216 == w
            &&& v / 65536 % 256 == x
            &&& v / 256 % 256 == y
            &&& v % 256 == z
            &&& 0 <= v <= u32::MAX
        }),
{
    let v = 16777216 * w + 65536 * x + 256 * y + z;
    assert(v / 65536 == 256 * w + x);
    assert(v / 256 == 65536 * w + 256 * x + y);
}

/// Word `i` of a run of words stands at byte `4 * i`.
pub proof fn lemma_le_words_at(ws: Seq<u32>, rest: Seq<u8>, i: int)
    requires
        0 <= i < ws.len(),
    ensures
        le_words(ws).len() == 4 * ws.len(),
        le32_at(le_words(ws) + rest, 4 * i) == ws[i],
    decreases ws.len(),
{
    lemma_le_words_len(ws);
    let last = le32(ws.last());
    let head = le_words(ws.drop_last());
    lemma_le_words_len(ws.drop_last());
    if i == ws.len() - 1 {
        lemma_le32_read_back(ws.last());
        assert(forall|k: int| 0 <= k < 4 ==> (le_words(ws) + rest)[4 * i + k] == last[k]);
        assert((le_words(ws) + rest)[4 * i + 0] == last[0]);
        assert((le_words(ws) + rest)[4 * i + 1] == last[1]);
        assert((le_words(ws) + rest)[4 * i + 2] == last[2]);
        assert((le_words(ws) + rest)[4 * i + 3] == last[3]);
    } else {
        lemma_le_words_at(ws.drop_last(), last + rest, i);
        assert(le_words(ws) + rest =~= head + (last + rest));
    }
}

/// A run of words takes four bytes for each.
pub proof fn lemma_le_words_len(ws: Seq<u32>)
    ensures
        le_words(ws).len() == 4 * ws.len(),
    decreases ws.len(),
{
    if ws.len() > 0 {
        lemma_le_words_len(ws.drop_last());
    }
}

/// The low 32 bits of `n`.
pub fn truncate32(n: usize) -> (v: u32)
    ensures
        v == low32(n as int),
{
    (n as u64 % 0x1_0000_0000) as u32
}

/// The low 16 bits of `n`.
pub fn truncate16(n: usize) -> (v: u16)
    ensures
        v == low16(n as int),
{
    (n % 0x1_0000) as u16
}

/// Append `v` in little-endian order.
pub fn put_le32(out: &mut Vec<u8>, v: u32)
    ensures
        final(out)@ == old(out)@ + le32(v),
{
    out.push((v % 256) as u8);
    out.push((v / 256 % 256) as u8);
    out.push((v / 65536 % 256) as u8);
    out.push((v / 16777216) as u8);
    assert(out@ =~= old(out)@ + le32(v));
}

/// Append each word of `ws` in little-endian order.
pub fn put_le_words(out: &mut Vec<u8>, ws: &[u32])
    ensures
        final(out)@ == old(out)@ + le_words(ws@),
{
    let ghost start = out@;
    for i in 0..ws.len()
        invariant
            out@ == start + le_words(ws@.take(i as int)),
    {
        put_le32(out, ws[i]);
        proof {
            let upto = ws@.take(i + 1);
            assert(upto.drop_last() =~= ws@.take(i as int));
            assert(out@ =~= start + le_words(upto));
        }
    }
    assert(ws@.take(ws.len() as int) =~= ws@);
    assert(ws@.take(0) =~= Seq::<u32>::empty());
}

/// Append `v` in big-endian order.
pub fn put_be16(out: &mut Vec<u8>, v: u16)
    ensures
        final(out)@ == old(out)@ + be16(v),
{
    out.push((v / 256) as u8);
    out.push((v % 256) as u8);
    assert(out@ =~= old(out)@ + be16(v));
}

/// Append `v` in big-endian order.
pub fn put_be32(out: &mut Vec<u8>, v: u32)
    ensures
        final(out)@ == old(out)@ + be32(v),
{
    out.push((v / 16777216) as u8);
    out.push((v / 65536 % 256) as u8);
    out.push((v / 256 % 256) as u8);
    out.push((v % 256) as u8);
    assert(out@ =~= old(out)@ + be32(v));
}

/// Append a run of bytes.
pub fn put_bytes(out: &mut Vec<u8>, bytes: &[u8])
    ensures
        final(out)@ == old(out)@ + bytes@,
{
    out.extend_from_slice(bytes);
    assert(out@ =~= old(out)@ + bytes@);
}

/// Append `n` zero bytes.
pub fn put_zeros(out: &mut Vec<u8>, n: usize)
    ensures
        final(out)@ == old(out)@ + zeros(n as nat),
{
    let ghost start = out@;
    for i in 0..n
        invariant
            out@ == start + zeros(i as nat),
    {
        out.push(0);
        assert(out@ =~= start + zeros((i + 1) as nat));
    }
    assert(start + zeros(0) =~= start);
}

/// The little-endian integer at `i`.
pub fn get_le32(b: &[u8], i: usize) -> (v: u32)
    requires
        i + 4 <= b@.len(),
    ensures
        v == le32_at(b@, i as int),
{
    b[i] as u32 + 256 * b[i + 1] as u32 + 65536 * b[i + 2] as u32 + 16777216 * b[i + 3] as u32
}

/// The big-endian integer at `i`.
pub fn get_be16(b: &[u8], i: usize) -> (v: u16)
    requires
        i + 2 <= b@.len(),
    ensures
        v == be16_at(b@, i as int),
{
    256 * b[i] as u16 + b[i + 1] as u16
}

/// The big-endian integer at `i`.
pub fn get_be32(b: &[u8], i: usize) -> (v: u32)
    requires
        i + 4 <= b@.len(),
    ensures
        v == be32_at(b@, i as int),
{
    16777216 * b[i] as u32 + 65536 * b[i + 1] as u32 + 256 * b[i + 2] as u32 + b[i + 3] as u32
}

/// Which byte comes first: the lowest in little-endian order, the highest in big-endian
/// order, on the way out as on the way in.
pub proof fn bytes_stand_in_order(v: u8, b: Seq<u8>, i: int)
    ensures
        le32(v as u32) =~= seq![v, 0u8, 0, 0],
        be32(v as u32) =~= seq![0u8, 0, 0, v],
        be16(v as u16) =~= seq![0u8, v],
        le32_at(b, i) == b[i] + 0x100 * b[i + 1] + 0x1_0000 * b[i + 2] + 0x100_0000 * b[i + 3],
        be32_at(b, i) == 0x100_0000 * b[i] + 0x1_0000 * b[i + 1] + 0x100 * b[i + 2] + b[i + 3],
        be16_at(b, i) == 0x100 * b[i] + b[i + 1],
{
}

/// What does not fit is cut off at the top.
pub proof fn lengths_keep_their_low_end(n: int)
    requires
        n >= 0,
    ensures
        n <= u32::MAX ==> low32(n) == n,
        n <= u16::MAX ==> low16(n) == n,
        low32(n + 0x1_0000_0000) == low32(n),
        low16(n + 0x1_0000) == low16(n),
{
}

} // verus!
