//! PACKET_MSG framing: Ethernet frames in and out of bulk transfers.
//!
//! Bounds checks mirror `rndis_rx_fixup` in Linux `drivers/net/usb/rndis_host.c`.
//! A bulk transfer may carry several packets back to back.

use vstd::prelude::*;
use vstd::slice::slice_subrange;

use crate::bytes::{
    le32_at, le_words, lemma_le_words_at, lemma_le_words_len, low32, put_bytes, put_le_words,
    put_zeros, truncate32, zeros,
};
use crate::rndis::error::{Error, Result};
use crate::rndis::wire::{u32_at, DATA_HEADER_LEN, MSG_PACKET, OFFSET_BASE};

verus! {

/// Bytes that bring a message of `len` bytes up to a multiple of `alignment`.
pub open spec fn padding(len: nat, alignment: nat) -> nat {
    if alignment == 0 || len % alignment == 0 {
        0
    } else {
        (alignment - len % alignment) as nat
    }
}

/// How long a PACKET_MSG around a frame of `frame_len` bytes is, its filling counted.
pub open spec fn message_len(frame_len: nat, alignment: nat) -> nat {
    let len = DATA_HEADER_LEN as nat + frame_len;
    len + padding(len, alignment)
}

/// The header fields of a PACKET_MSG around a frame of `frame_len` bytes with
/// `pad` bytes behind it.
pub open spec fn header(frame_len: nat, pad: nat) -> Seq<u32> {
    seq![
        MSG_PACKET,
        low32(DATA_HEADER_LEN + frame_len + pad),
        (DATA_HEADER_LEN - OFFSET_BASE) as u32,
        low32(frame_len as int),
        0u32,
        0u32,
        0u32,
        0u32,
        0u32,
        0u32,
        0u32,
    ]
}

/// A PACKET_MSG around `frame`, filled up with zeros to a multiple of
/// `alignment`. The filling counts as part of the message.
pub open spec fn packet(frame: Seq<u8>, alignment: nat) -> Seq<u8> {
    let pad = padding(DATA_HEADER_LEN as nat + frame.len(), alignment);
    le_words(header(frame.len(), pad)) + frame + zeros(pad)
}

/// Wrap an Ethernet frame in a PACKET_MSG.
pub fn encode(frame: &[u8]) -> (msg: Vec<u8>)
    ensures
        msg@ == packet(frame@, 1),
{
    let mut msg: Vec<u8> = Vec::new();
    append(&mut msg, frame, 1);
    assert(msg@ =~= packet(frame@, 1));
    msg
}

/// Wrap an Ethernet frame in a PACKET_MSG at the end of a transfer, filled up
/// so that the next message starts at a multiple of `alignment`.
pub fn append(out: &mut Vec<u8>, frame: &[u8], alignment: usize)
    ensures
        final(out)@ == old(out)@ + packet(frame@, alignment as nat),
{
    let len: u32 = truncate32(frame.len());
    let pad: usize = pad_len(frame.len(), alignment);
    // From the fifth on: out-of-band data offset, length and record count,
    // per-packet info offset and length, device VC handle, reserved.
    let fields: [u32; 11] = [
        MSG_PACKET,
        len.wrapping_add(44).wrapping_add(truncate32(pad)),
        36,
        len,
        0,
        0,
        0,
        0,
        0,
        0,
        0,
    ];
    put_le_words(out, &fields);
    put_bytes(out, frame);
    put_zeros(out, pad);
    proof {
        assert(fields@ =~= header(frame@.len(), pad as nat));
        assert(out@ =~= old(out)@ + packet(frame@, alignment as nat));
    }
}

/// The filling a message around `frame_len` bytes needs.
fn pad_len(frame_len: usize, alignment: usize) -> (pad: usize)
    ensures
        pad == padding((DATA_HEADER_LEN + frame_len) as nat, alignment as nat),
{
    if alignment == 0 {
        return 0;
    }
    let over: u64 = ((frame_len as u128 + 44) % (alignment as u128)) as u64;
    if over == 0 {
        0
    } else {
        alignment - over as usize
    }
}

/// How long the message around a frame of `frame_len` bytes will be.
pub fn encoded_len(frame_len: usize, alignment: usize) -> (n: u128)
    ensures
        n == message_len(frame_len as nat, alignment as nat),
{
    DATA_HEADER_LEN as u128 + frame_len as u128 + pad_len(frame_len, alignment) as u128
}

/// A message is as long as was foreseen.
pub proof fn lemma_packet_len(frame: Seq<u8>, alignment: nat)
    ensures
        packet(frame, alignment).len() == message_len(frame.len(), alignment),
{
    let pad = padding(DATA_HEADER_LEN as nat + frame.len(), alignment);
    lemma_le_words_len(header(frame.len(), pad));
}

/// What the first message of `buf` holds: the frame, and where the next message
/// starts.
pub open spec fn first_packet(buf: Seq<u8>) -> Result<(Seq<u8>, int)> {
    let msg_len = le32_at(buf, 4);
    let start = OFFSET_BASE + le32_at(buf, 8);
    let end = start + le32_at(buf, 12);
    if le32_at(buf, 0) != MSG_PACKET {
        Err(Error::UnexpectedMessage(le32_at(buf, 0)))
    } else if msg_len < DATA_HEADER_LEN || msg_len > buf.len() {
        Err(Error::Malformed("packet length outside transfer"))
    } else if end > usize::MAX {
        Err(Error::Malformed("packet data offset overflow"))
    } else if end > msg_len {
        Err(Error::Malformed("packet data outside message"))
    } else {
        Ok((buf.subrange(start, end), msg_len as int))
    }
}

/// Everything a transfer yields, in order. Trailing padding shorter than a
/// header is normal; a malformed header makes every following offset
/// meaningless, so the first error is the last item.
pub open spec fn frames(buf: Seq<u8>) -> Seq<Result<Seq<u8>>>
    decreases buf.len(),
{
    if buf.len() < DATA_HEADER_LEN {
        Seq::empty()
    } else {
        match first_packet(buf) {
            Err(e) => seq![Err(e)],
            Ok((frame, next)) => if DATA_HEADER_LEN <= next <= buf.len() {
                seq![Ok(frame)] + frames(buf.skip(next))
            } else {
                Seq::empty()
            },
        }
    }
}

/// The Ethernet frames in one bulk transfer.
pub struct Frames<'a> {
    buf: &'a [u8],
}

impl<'a> View for Frames<'a> {
    type V = Seq<u8>;

    /// The bytes not yet handed out.
    closed spec fn view(&self) -> Seq<u8> {
        self.buf@
    }
}

/// Split a received bulk transfer into Ethernet frames.
pub fn decode(buf: &[u8]) -> (r: Frames<'_>)
    ensures
        r@ == buf@,
{
    Frames { buf }
}

/// One item as its bytes.
pub open spec fn item(r: Result<&[u8]>) -> Result<Seq<u8>> {
    match r {
        Ok(frame) => Ok(frame@),
        Err(e) => Err(e),
    }
}

/// An item that may be absent, as its bytes.
pub open spec fn optional_item(r: Option<Result<&[u8]>>) -> Option<Result<Seq<u8>>> {
    match r {
        Some(x) => Some(item(x)),
        None => None,
    }
}

/// What is taken from `buf` next, and the bytes left behind it: those behind the first
/// message, or none once there is no message or a malformed one.
#[verifier::opaque]
pub open spec fn taken(buf: Seq<u8>) -> (Option<Result<Seq<u8>>>, Seq<u8>) {
    if buf.len() < DATA_HEADER_LEN {
        (None, Seq::empty())
    } else {
        match first_packet(buf) {
            Err(e) => (Some(Err(e)), Seq::empty()),
            Ok((frame, msg_len)) => (Some(Ok(frame)), buf.skip(msg_len)),
        }
    }
}

impl<'a> Frames<'a> {
    /// The next frame, or the error that ends the transfer.
    pub fn next(&mut self) -> (r: Option<Result<&'a [u8]>>)
        ensures
            (optional_item(r), final(self)@) == taken(old(self)@),
            match r {
                None => frames(old(self)@).len() == 0 && frames(final(self)@).len() == 0,
                Some(x) => frames(old(self)@) == seq![item(x)] + frames(final(self)@),
            },
            final(self)@.len() <= old(self)@.len(),
            r is Some ==> final(self)@.len() < old(self)@.len(),
    {
        reveal(taken);
        let nothing = slice_subrange(self.buf, 0, 0);
        assert(nothing@ =~= Seq::empty());
        // Trailing padding shorter than a header is normal; stop quietly.
        if self.buf.len() < DATA_HEADER_LEN {
            self.buf = nothing;
            return None;
        }
        let result = self.next_frame();
        if result.is_err() {
            // A malformed header makes every following offset meaningless.
            self.buf = nothing;
            assert(frames(old(self)@) =~= seq![item(result)] + frames(self@));
        }
        Some(result)
    }

    fn next_frame(&mut self) -> (r: Result<&'a [u8]>)
        requires
            old(self)@.len() >= DATA_HEADER_LEN,
        ensures
            match (r, first_packet(old(self)@)) {
                (Ok(frame), Ok((bytes, next))) => {
                    &&& frame@ == bytes
                    &&& DATA_HEADER_LEN <= next <= old(self)@.len()
                    &&& final(self)@ == old(self)@.skip(next)
                },
                (Err(e), Err(f)) => e == f && final(self)@ == old(self)@,
                _ => false,
            },
    {
        let buf = self.buf;
        let message_type: u32 = u32_at(buf, 0)?;
        if message_type != MSG_PACKET {
            return Err(Error::UnexpectedMessage(message_type));
        }
        let msg_len: usize = u32_at(buf, 4)? as usize;
        let data_offset: usize = u32_at(buf, 8)? as usize;
        let data_len: usize = u32_at(buf, 12)? as usize;

        // The lower bound is not the kernel's: it guarantees that every frame
        // advances and nothing spins on a zero-length message.
        if msg_len < DATA_HEADER_LEN || msg_len > buf.len() {
            return Err(Error::Malformed("packet length outside transfer"));
        }
        let start: usize = match OFFSET_BASE.checked_add(data_offset) {
            Some(start) => start,
            None => return Err(Error::Malformed("packet data offset overflow")),
        };
        let end: usize = match start.checked_add(data_len) {
            Some(end) => end,
            None => return Err(Error::Malformed("packet data offset overflow")),
        };
        if end > msg_len {
            return Err(Error::Malformed("packet data outside message"));
        }
        let frame = slice_subrange(buf, start, end);
        self.buf = slice_subrange(buf, msg_len, buf.len());
        assert(self@ =~= old(self)@.skip(msg_len as int));
        Ok(frame)
    }
}

/// The PACKET_MSGs around `fs`, back to back.
pub open spec fn batch(fs: Seq<Seq<u8>>, alignment: nat) -> Seq<u8>
    decreases fs.len(),
{
    if fs.len() == 0 {
        Seq::empty()
    } else {
        batch(fs.drop_last(), alignment) + packet(fs.last(), alignment)
    }
}

/// A frame whose message length fits the 32-bit field.
pub open spec fn fits_a_message(frame: Seq<u8>, alignment: nat) -> bool {
    message_len(frame.len(), alignment) <= u32::MAX
}

/// Header and filling of one message: its length, and what its fields read as.
pub proof fn lemma_packet(frame: Seq<u8>, alignment: nat, rest: Seq<u8>)
    requires
        fits_a_message(frame, alignment),
    ensures
        ({
            let pad = padding(DATA_HEADER_LEN as nat + frame.len(), alignment);
            let m = packet(frame, alignment);
            &&& m.len() == DATA_HEADER_LEN + frame.len() + pad
            &&& alignment > 0 ==> m.len() % alignment == 0 && pad < alignment
            &&& alignment == 0 ==> pad == 0
            &&& first_packet(m + rest) == Ok::<_, Error>((frame, m.len() as int))
        }),
{
    let len = DATA_HEADER_LEN as nat + frame.len();
    let pad = padding(len, alignment);
    let m = packet(frame, alignment);
    let ws = header(frame.len(), pad);
    if alignment > 0 {
        lemma_padding(len, alignment);
    }
    lemma_le_words_len(ws);
    let tail = frame + zeros(pad) + rest;
    assert(m + rest =~= le_words(ws) + tail);
    lemma_le_words_at(ws, tail, 0);
    lemma_le_words_at(ws, tail, 1);
    lemma_le_words_at(ws, tail, 2);
    lemma_le_words_at(ws, tail, 3);
    assert((m + rest).subrange(44, 44int + frame.len()) =~= frame);
}

/// Padding is less than the alignment and reaches a multiple of it.
pub proof fn lemma_padding(len: nat, alignment: nat)
    requires
        alignment > 0,
    ensures
        padding(len, alignment) < alignment,
        (len + padding(len, alignment)) % alignment == 0,
{
    let r = len % alignment;
    vstd::arithmetic::div_mod::lemma_mod_bound(len as int, alignment as int);
    if r != 0 {
        vstd::arithmetic::div_mod::lemma_fundamental_div_mod(len as int, alignment as int);
        let q = len as int / alignment as int;
        assert(len + padding(len, alignment) == (q + 1) * (alignment as int)) by (nonlinear_arith)
            requires
                len == (alignment as int) * q + r,
                padding(len, alignment) == alignment - r,
        ;
        vstd::arithmetic::div_mod::lemma_mod_multiples_basic(q + 1, alignment as int);
    }
}

/// A transfer made of frames yields those frames, in order and unchanged, and
/// nothing else: padding behind them that is shorter than a header is ignored.
pub proof fn batch_yields_its_frames(fs: Seq<Seq<u8>>, alignment: nat, tail: Seq<u8>)
    requires
        tail.len() < DATA_HEADER_LEN,
        forall|i: int| 0 <= i < fs.len() ==> fits_a_message(#[trigger] fs[i], alignment),
    ensures
        frames(batch(fs, alignment) + tail) == fs.map_values(|f: Seq<u8>| Ok::<_, Error>(f)),
    decreases fs.len(),
{
    lemma_batch_then(fs, alignment, tail);
    assert(frames(tail) =~= Seq::empty());
    assert(frames(batch(fs, alignment) + tail) =~= fs.map_values(
        |f: Seq<u8>| Ok::<_, Error>(f),
    ));
}

/// A transfer that starts with one message yields its frame first, then whatever
/// the bytes behind it yield.
pub proof fn lemma_packet_then(frame: Seq<u8>, alignment: nat, rest: Seq<u8>)
    requires
        fits_a_message(frame, alignment),
    ensures
        frames(packet(frame, alignment) + rest) == seq![Ok::<_, Error>(frame)] + frames(rest),
{
    let m = packet(frame, alignment);
    lemma_packet(frame, alignment, rest);
    assert((m + rest).skip(m.len() as int) =~= rest);
}

/// A transfer that starts with a batch yields its frames first, then whatever
/// the bytes behind the batch yield.
pub proof fn lemma_batch_then(fs: Seq<Seq<u8>>, alignment: nat, rest: Seq<u8>)
    requires
        forall|i: int| 0 <= i < fs.len() ==> fits_a_message(#[trigger] fs[i], alignment),
    ensures
        frames(batch(fs, alignment) + rest) == fs.map_values(|f: Seq<u8>| Ok::<_, Error>(f))
            + frames(rest),
    decreases fs.len(),
{
    let ok = |f: Seq<u8>| Ok::<_, Error>(f);
    if fs.len() == 0 {
        assert(batch(fs, alignment) + rest =~= rest);
        assert(fs.map_values(ok) + frames(rest) =~= frames(rest));
    } else {
        let init = fs.drop_last();
        let m = packet(fs.last(), alignment);
        assert forall|i: int| 0 <= i < init.len() implies fits_a_message(
            #[trigger] init[i],
            alignment,
        ) by {
            assert(init[i] == fs[i]);
        }
        assert(fits_a_message(fs[fs.len() - 1], alignment));
        lemma_batch_then(init, alignment, m + rest);
        lemma_packet_then(fs.last(), alignment, rest);
        lemma_concat_assoc(batch(init, alignment), m, rest);
        lemma_concat_assoc(init.map_values(ok), seq![ok(fs.last())], frames(rest));
        lemma_map_last(fs, ok);
    }
}

proof fn lemma_concat_assoc<A>(a: Seq<A>, b: Seq<A>, c: Seq<A>)
    ensures
        a + b + c == a + (b + c),
{
    assert(a + b + c =~= a + (b + c));
}

proof fn lemma_map_last<A, B>(s: Seq<A>, f: spec_fn(A) -> B)
    requires
        s.len() > 0,
    ensures
        s.map_values(f) == s.drop_last().map_values(f) + seq![f(s.last())],
{
    assert(s.map_values(f) =~= s.drop_last().map_values(f) + seq![f(s.last())]);
}

/// Encoding a frame and decoding the transfer gives the frame back.
pub proof fn encoded_frame_round_trips(frame: Seq<u8>)
    requires
        fits_a_message(frame, 1),
    ensures
        frames(packet(frame, 1)) == seq![Ok::<_, Error>(frame)],
{
    let fs = seq![frame];
    reveal_with_fuel(batch, 2);
    assert(fs.drop_last() =~= Seq::empty());
    assert(batch(fs, 1) =~= packet(frame, 1));
    assert(batch(fs, 1) + Seq::<u8>::empty() =~= packet(frame, 1));
    batch_yields_its_frames(fs, 1, Seq::empty());
    assert(fs.map_values(|f: Seq<u8>| Ok::<_, Error>(f)) =~= seq![Ok::<_, Error>(frame)]);
}

/// Every item but the last of a transfer is a frame: decoding stops at the first
/// error.
pub proof fn only_the_last_item_can_be_an_error(buf: Seq<u8>, i: int)
    requires
        0 <= i < frames(buf).len() - 1,
    ensures
        frames(buf)[i] is Ok,
    decreases buf.len(),
{
    if i > 0 {
        let (_, next) = first_packet(buf)->Ok_0;
        only_the_last_item_can_be_an_error(buf.skip(next), i - 1);
    }
}

/// No transfer yields more bytes of frames than it holds.
pub proof fn frames_stay_inside_the_transfer(buf: Seq<u8>, i: int)
    requires
        0 <= i < frames(buf).len(),
        frames(buf)[i] is Ok,
    ensures
        exists|a: int, b: int|
            0 <= a <= b <= buf.len() && frames(buf)[i]->Ok_0 == #[trigger] buf.subrange(a, b),
    decreases buf.len(),
{
    let (_, next) = first_packet(buf)->Ok_0;
    if i == 0 {
        let start = OFFSET_BASE + le32_at(buf, 8);
        let end = start + le32_at(buf, 12);
        assert(frames(buf)[0]->Ok_0 == buf.subrange(start, end));
    } else {
        let rest = buf.skip(next);
        frames_stay_inside_the_transfer(rest, i - 1);
        let (a, b) = choose|a: int, b: int|
            0 <= a <= b <= rest.len() && frames(rest)[i - 1]->Ok_0 == #[trigger] rest.subrange(
                a,
                b,
            );
        assert(rest.subrange(a, b) =~= buf.subrange(next + a, next + b));
    }
}

/// A message byte by byte: type one, its own length, where the frame starts counted from
/// the ninth byte, how long it is, seven words of nothing, the frame, and zeros that
/// reach the next multiple of the alignment and no further.
pub proof fn messages_are_laid_out(frame: Seq<u8>, alignment: nat)
    requires
        fits_a_message(frame, alignment),
    ensures
        ({
            let m = packet(frame, alignment);
            &&& le32_at(m, 0) == 1
            &&& le32_at(m, 4) == m.len()
            &&& le32_at(m, 8) == 36
            &&& le32_at(m, 12) == frame.len()
            &&& forall|i: int| 4 <= i < 11 ==> #[trigger] le32_at(m, 4 * i) == 0
            &&& m.len() >= 44 + frame.len()
            &&& m.subrange(44, 44 + frame.len() as int) == frame
            &&& forall|i: int| 44 + frame.len() <= i < m.len() ==> m[i] == 0
            &&& alignment <= 1 ==> m.len() == 44 + frame.len()
            &&& alignment > 0 ==> m.len() % alignment == 0 && m.len() < 44 + frame.len()
                + alignment
        }),
{
    let pad = padding(DATA_HEADER_LEN as nat + frame.len(), alignment);
    let m = packet(frame, alignment);
    let ws = header(frame.len(), pad);
    let tail = frame + zeros(pad);
    lemma_packet(frame, alignment, Seq::empty());
    lemma_le_words_len(ws);
    assert(m =~= le_words(ws) + tail);
    lemma_le_words_at(ws, tail, 0);
    lemma_le_words_at(ws, tail, 1);
    lemma_le_words_at(ws, tail, 2);
    lemma_le_words_at(ws, tail, 3);
    assert forall|i: int| 4 <= i < 11 implies #[trigger] le32_at(m, 4 * i) == 0 by {
        lemma_le_words_at(ws, tail, i);
    }
    assert(m.subrange(44, 44 + frame.len() as int) =~= frame);
}

/// A transfer is read message by message: each yields what its offset, from the ninth
/// byte, and its length point at, and the next starts where its own length says. Less
/// than a header is no message; one that does not keep inside its bounds is an error and
/// the end.
pub proof fn transfers_are_read_message_by_message(buf: Seq<u8>)
    ensures
        ({
            let len = le32_at(buf, 4);
            let start = 8 + le32_at(buf, 8);
            let end = start + le32_at(buf, 12);
            if buf.len() < 44 {
                frames(buf).len() == 0
            } else if le32_at(buf, 0) == 1 && 44 <= len <= buf.len() && end <= len {
                frames(buf) == seq![Ok::<_, Error>(buf.subrange(start, end))] + frames(
                    buf.skip(len as int),
                )
            } else {
                frames(buf).len() == 1 && frames(buf)[0] is Err
            }
        }),
{
}

/// However many messages stand in front, the next one starts at a multiple of the
/// alignment.
pub proof fn messages_start_aligned(fs: Seq<Seq<u8>>, alignment: nat)
    requires
        alignment > 0,
        forall|i: int| 0 <= i < fs.len() ==> fits_a_message(#[trigger] fs[i], alignment),
    ensures
        batch(fs, alignment).len() % alignment == 0,
    decreases fs.len(),
{
    if fs.len() > 0 {
        let init = fs.drop_last();
        assert forall|i: int| 0 <= i < init.len() implies fits_a_message(
            #[trigger] init[i],
            alignment,
        ) by {
            assert(init[i] == fs[i]);
        }
        messages_start_aligned(init, alignment);
        assert(fits_a_message(fs[fs.len() - 1], alignment));
        lemma_packet(fs.last(), alignment, Seq::empty());
        vstd::arithmetic::div_mod::lemma_mod_adds(
            batch(init, alignment).len() as int,
            packet(fs.last(), alignment).len() as int,
            alignment as int,
        );
        vstd::arithmetic::div_mod::lemma_mod_bound(
            batch(fs, alignment).len() as int,
            alignment as int,
        );
    } else {
        vstd::arithmetic::div_mod::lemma_small_mod(0, alignment);
    }
}

} // verus!
