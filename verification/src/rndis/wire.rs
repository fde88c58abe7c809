//! RNDIS constants and message encoding/decoding.
//!
//! Values and struct layouts follow Linux `include/linux/rndis.h` and
//! `include/linux/usb/rndis_host.h`. Every field is little-endian u32.

use vstd::arithmetic::power2::{lemma2_to64, lemma_pow2_strictly_increases, pow2};
use vstd::bits::lemma_u32_shl_is_mul;
use vstd::prelude::*;
use vstd::slice::slice_subrange;

use crate::bytes::{
    get_le32, le32, le32_at, le_words, lemma_le_words_at, lemma_le_words_len, low32, put_bytes,
    put_le_words, truncate32,
};
use crate::rndis::error::{Error, Result};

verus! {

pub const MSG_COMPLETION: u32 = 0x8000_0000;

pub const MSG_PACKET: u32 = 0x0000_0001;

pub const MSG_INIT: u32 = 0x0000_0002;

pub const MSG_INIT_C: u32 = 0x8000_0002;

pub const MSG_HALT: u32 = 0x0000_0003;

pub const MSG_QUERY: u32 = 0x0000_0004;

pub const MSG_QUERY_C: u32 = 0x8000_0004;

pub const MSG_SET: u32 = 0x0000_0005;

pub const MSG_SET_C: u32 = 0x8000_0005;

pub const MSG_RESET: u32 = 0x0000_0006;

pub const MSG_RESET_C: u32 = 0x8000_0006;

pub const MSG_INDICATE: u32 = 0x0000_0007;

pub const MSG_KEEPALIVE: u32 = 0x0000_0008;

pub const MSG_KEEPALIVE_C: u32 = 0x8000_0008;

pub const STATUS_SUCCESS: u32 = 0x0000_0000;

pub const STATUS_MEDIA_CONNECT: u32 = 0x4001_000B;

pub const STATUS_MEDIA_DISCONNECT: u32 = 0x4001_000C;

pub const OID_GEN_MAXIMUM_FRAME_SIZE: u32 = 0x0001_0106;

pub const OID_GEN_LINK_SPEED: u32 = 0x0001_0107;

pub const OID_GEN_CURRENT_PACKET_FILTER: u32 = 0x0001_010E;

pub const OID_GEN_PHYSICAL_MEDIUM: u32 = 0x0001_0202;

pub const OID_802_3_PERMANENT_ADDRESS: u32 = 0x0101_0101;

pub const OID_802_3_CURRENT_ADDRESS: u32 = 0x0101_0102;

pub const PACKET_TYPE_DIRECTED: u32 = 0x0000_0001;

pub const PACKET_TYPE_MULTICAST: u32 = 0x0000_0002;

pub const PACKET_TYPE_ALL_MULTICAST: u32 = 0x0000_0004;

pub const PACKET_TYPE_BROADCAST: u32 = 0x0000_0008;

pub const PACKET_TYPE_PROMISCUOUS: u32 = 0x0000_0020;

/// Filter that brings the link up: every packet type above. Matches HoRNDIS;
/// broader than Linux's default, which some Android builds need to forward our
/// synthesized MAC.
pub const DEFAULT_PACKET_FILTER: u32 = 0x0000_002F;

/// `struct rndis_data_hdr` — the PACKET_MSG header.
pub const DATA_HEADER_LEN: usize = 44;

/// Offsets inside control messages are relative to the end of `msg_len`.
pub const OFFSET_BASE: usize = 8;

/// Largest control message we will send or accept, as Linux's
/// `CONTROL_BUFFER_SIZE`.
pub const MAX_CONTROL_MSG: usize = 1024;

/// First word of the interrupt-endpoint notification meaning a control
/// response can be fetched with GET_ENCAPSULATED_RESPONSE.
pub const RESPONSE_AVAILABLE: u32 = 0x0000_0001;

/// `USB_CDC_SEND_ENCAPSULATED_COMMAND`
pub const REQ_SEND_ENCAPSULATED: u8 = 0x00;

/// `USB_CDC_GET_ENCAPSULATED_RESPONSE`
pub const REQ_GET_ENCAPSULATED: u8 = 0x01;

/// Every completion is its request with the completion bit set, and the default
/// filter is the union of the packet types.
pub proof fn completions_set_the_completion_bit()
    ensures
        MSG_INIT_C == MSG_INIT | MSG_COMPLETION,
        MSG_QUERY_C == MSG_QUERY | MSG_COMPLETION,
        MSG_SET_C == MSG_SET | MSG_COMPLETION,
        MSG_RESET_C == MSG_RESET | MSG_COMPLETION,
        MSG_KEEPALIVE_C == MSG_KEEPALIVE | MSG_COMPLETION,
        DEFAULT_PACKET_FILTER == PACKET_TYPE_DIRECTED | PACKET_TYPE_MULTICAST
            | PACKET_TYPE_ALL_MULTICAST | PACKET_TYPE_BROADCAST | PACKET_TYPE_PROMISCUOUS,
{
    assert(MSG_INIT_C == MSG_INIT | MSG_COMPLETION && MSG_QUERY_C == MSG_QUERY | MSG_COMPLETION
        && MSG_SET_C == MSG_SET | MSG_COMPLETION && MSG_RESET_C == MSG_RESET | MSG_COMPLETION
        && MSG_KEEPALIVE_C == MSG_KEEPALIVE | MSG_COMPLETION && DEFAULT_PACKET_FILTER
        == PACKET_TYPE_DIRECTED | PACKET_TYPE_MULTICAST | PACKET_TYPE_ALL_MULTICAST
        | PACKET_TYPE_BROADCAST | PACKET_TYPE_PROMISCUOUS) by (bit_vector);
}

/// The little-endian word at `offset`, where the buffer reaches that far.
pub open spec fn word(buf: Seq<u8>, offset: int) -> Result<u32> {
    if offset + 4 <= buf.len() {
        Ok(le32_at(buf, offset))
    } else {
        Err(Error::Truncated)
    }
}

pub fn u32_at(buf: &[u8], offset: usize) -> (r: Result<u32>)
    ensures
        r == word(buf@, offset as int),
{
    if buf.len() >= 4 && offset <= buf.len() - 4 {
        Ok(get_le32(buf, offset))
    } else {
        Err(Error::Truncated)
    }
}

pub open spec fn init_message(request_id: u32, max_transfer_size: u32) -> Seq<u8> {
    le_words(seq![MSG_INIT, 24u32, request_id, 1u32, 0u32, max_transfer_size])
}

/// `REMOTE_NDIS_INITIALIZE_MSG`
pub fn encode_init(request_id: u32, max_transfer_size: u32) -> (m: Vec<u8>)
    ensures
        m@ == init_message(request_id, max_transfer_size),
{
    // The two words after the request id are the major and minor version.
    let fields: [u32; 6] = [MSG_INIT, 24, request_id, 1, 0, max_transfer_size];
    let mut m: Vec<u8> = Vec::new();
    put_le_words(&mut m, &fields);
    assert(fields@ =~= seq![MSG_INIT, 24u32, request_id, 1u32, 0u32, max_transfer_size]);
    m
}

pub open spec fn query_message(request_id: u32, oid: u32) -> Seq<u8> {
    le_words(seq![MSG_QUERY, 28u32, request_id, oid, 0u32, 0u32, 0u32])
}

/// `REMOTE_NDIS_QUERY_MSG` with an empty information buffer.
pub fn encode_query(request_id: u32, oid: u32) -> (m: Vec<u8>)
    ensures
        m@ == query_message(request_id, oid),
{
    // Last: information buffer length, information buffer offset, VC handle.
    let fields: [u32; 7] = [MSG_QUERY, 28, request_id, oid, 0, 0, 0];
    let mut m: Vec<u8> = Vec::new();
    put_le_words(&mut m, &fields);
    assert(fields@ =~= seq![MSG_QUERY, 28u32, request_id, oid, 0u32, 0u32, 0u32]);
    m
}

pub open spec fn set_message(request_id: u32, oid: u32, data: Seq<u8>) -> Seq<u8> {
    le_words(
        seq![
            MSG_SET,
            low32(28int + data.len()),
            request_id,
            oid,
            low32(data.len() as int),
            (28 - OFFSET_BASE) as u32,
            0u32,
        ],
    ) + data
}

/// `REMOTE_NDIS_SET_MSG`
pub fn encode_set(request_id: u32, oid: u32, data: &[u8]) -> (m: Vec<u8>)
    ensures
        m@ == set_message(request_id, oid, data@),
{
    let len: u32 = truncate32(data.len());
    // Last: device VC handle.
    let fields: [u32; 7] = [MSG_SET, len.wrapping_add(28), request_id, oid, len, 20, 0];
    let mut m: Vec<u8> = Vec::new();
    put_le_words(&mut m, &fields);
    put_bytes(&mut m, data);
    proof {
        assert(fields@ =~= seq![
            MSG_SET,
            low32(28int + data@.len()),
            request_id,
            oid,
            low32(data@.len() as int),
            (28 - OFFSET_BASE) as u32,
            0u32,
        ]);
        assert(m@ =~= set_message(request_id, oid, data@));
    }
    m
}

pub open spec fn keepalive_message(request_id: u32) -> Seq<u8> {
    le_words(seq![MSG_KEEPALIVE, 12u32, request_id])
}

/// `REMOTE_NDIS_KEEPALIVE_MSG`
pub fn encode_keepalive(request_id: u32) -> (m: Vec<u8>)
    ensures
        m@ == keepalive_message(request_id),
{
    let fields: [u32; 3] = [MSG_KEEPALIVE, 12, request_id];
    let mut m: Vec<u8> = Vec::new();
    put_le_words(&mut m, &fields);
    assert(fields@ =~= seq![MSG_KEEPALIVE, 12u32, request_id]);
    m
}

pub open spec fn halt_message(request_id: u32) -> Seq<u8> {
    le_words(seq![MSG_HALT, 12u32, request_id])
}

/// `REMOTE_NDIS_HALT_MSG`
pub fn encode_halt(request_id: u32) -> (m: Vec<u8>)
    ensures
        m@ == halt_message(request_id),
{
    let fields: [u32; 3] = [MSG_HALT, 12, request_id];
    let mut m: Vec<u8> = Vec::new();
    put_le_words(&mut m, &fields);
    assert(fields@ =~= seq![MSG_HALT, 12u32, request_id]);
    m
}

pub open spec fn keepalive_complete_message(request_id: u32) -> Seq<u8> {
    le_words(seq![MSG_KEEPALIVE_C, 16u32, request_id, STATUS_SUCCESS])
}

/// `REMOTE_NDIS_KEEPALIVE_CMPLT`, sent when the *device* pings us.
pub fn encode_keepalive_complete(request_id: u32) -> (m: Vec<u8>)
    ensures
        m@ == keepalive_complete_message(request_id),
{
    let fields: [u32; 4] = [MSG_KEEPALIVE_C, 16, request_id, STATUS_SUCCESS];
    let mut m: Vec<u8> = Vec::new();
    put_le_words(&mut m, &fields);
    assert(fields@ =~= seq![MSG_KEEPALIVE_C, 16u32, request_id, STATUS_SUCCESS]);
    m
}

/// What the device told us in `REMOTE_NDIS_INITIALIZE_CMPLT`.
#[derive(Clone, Copy, Debug, PartialEq, Eq, Structural)]
pub struct InitComplete {
    pub request_id: u32,
    pub status: u32,
    pub major_version: u32,
    pub minor_version: u32,
    pub medium: u32,
    pub max_packets_per_transfer: u32,
    pub max_transfer_size: u32,
    /// Already expanded from the exponent the device sends.
    pub packet_alignment: u32,
}

/// The alignment an exponent stands for; one that is absurd stands for none.
pub open spec fn alignment_of(exponent: u32) -> u32 {
    if exponent < 8 {
        pow2(exponent as nat) as u32
    } else {
        1
    }
}

pub open spec fn init_complete(buf: Seq<u8>) -> Result<InitComplete> {
    if buf.len() < 4 {
        Err(Error::Truncated)
    } else if le32_at(buf, 0) != MSG_INIT_C {
        Err(Error::UnexpectedMessage(le32_at(buf, 0)))
    } else if buf.len() < 44 {
        Err(Error::Truncated)
    } else {
        Ok(
            InitComplete {
                request_id: le32_at(buf, 8),
                status: le32_at(buf, 12),
                major_version: le32_at(buf, 16),
                minor_version: le32_at(buf, 20),
                medium: le32_at(buf, 28),
                max_packets_per_transfer: le32_at(buf, 32),
                max_transfer_size: le32_at(buf, 36),
                packet_alignment: alignment_of(le32_at(buf, 40)),
            },
        )
    }
}

/// The message has 13 fields; some devices send a shorter one, so only the
/// fields that are read are required.
pub fn decode_init_complete(buf: &[u8]) -> (r: Result<InitComplete>)
    ensures
        r == init_complete(buf@),
{
    let message_type: u32 = u32_at(buf, 0)?;
    if message_type != MSG_INIT_C {
        return Err(Error::UnexpectedMessage(message_type));
    }
    let exponent: u32 = u32_at(buf, 40)?;
    // Guard the shift: a hostile or broken exponent must not panic.
    let packet_alignment: u32 = if exponent < 8 {
        proof {
            lemma2_to64();
            lemma_pow2_strictly_increases(exponent as nat, 8);
            lemma_u32_shl_is_mul(1, exponent);
        }
        1 << exponent
    } else {
        1
    };
    Ok(
        InitComplete {
            request_id: u32_at(buf, 8)?,
            status: u32_at(buf, 12)?,
            major_version: u32_at(buf, 16)?,
            minor_version: u32_at(buf, 20)?,
            medium: u32_at(buf, 28)?,
            max_packets_per_transfer: u32_at(buf, 32)?,
            max_transfer_size: u32_at(buf, 36)?,
            packet_alignment,
        },
    )
}

/// Request id, status and information buffer of a query completion.
pub open spec fn query_complete(buf: Seq<u8>) -> Result<(u32, u32, Seq<u8>)> {
    if buf.len() < 4 {
        Err(Error::Truncated)
    } else if le32_at(buf, 0) != MSG_QUERY_C {
        Err(Error::UnexpectedMessage(le32_at(buf, 0)))
    } else if buf.len() < 24 {
        Err(Error::Truncated)
    } else {
        let id = le32_at(buf, 8);
        let status = le32_at(buf, 12);
        let start = OFFSET_BASE + le32_at(buf, 20);
        let end = start + le32_at(buf, 16);
        if status != STATUS_SUCCESS {
            Ok((id, status, Seq::empty()))
        } else if end > buf.len() {
            Err(Error::Truncated)
        } else {
            Ok((id, status, buf.subrange(start, end)))
        }
    }
}

/// Information buffer of a `REMOTE_NDIS_QUERY_CMPLT`, bounds-checked against
/// the received message.
pub fn decode_query_complete(buf: &[u8]) -> (r: Result<(u32, u32, &[u8])>)
    ensures
        match r {
            Ok((id, status, info)) => query_complete(buf@) == Ok::<_, Error>((id, status, info@)),
            Err(e) => query_complete(buf@) == Err::<(u32, u32, Seq<u8>), _>(e),
        },
{
    let message_type: u32 = u32_at(buf, 0)?;
    if message_type != MSG_QUERY_C {
        return Err(Error::UnexpectedMessage(message_type));
    }
    let total: usize = buf.len();
    let request_id: u32 = u32_at(buf, 8)?;
    let status: u32 = u32_at(buf, 12)?;
    let len: usize = u32_at(buf, 16)? as usize;
    let offset: usize = u32_at(buf, 20)? as usize;

    if status != STATUS_SUCCESS {
        let none = slice_subrange(buf, 0, 0);
        assert(none@ =~= Seq::<u8>::empty());
        return Ok((request_id, status, none));
    }
    let start: usize = match OFFSET_BASE.checked_add(offset) {
        Some(start) => start,
        None => return Err(Error::Truncated),
    };
    let end: usize = match start.checked_add(len) {
        Some(end) => end,
        None => return Err(Error::Truncated),
    };
    if end > total {
        return Err(Error::Truncated);
    }
    Ok((request_id, status, slice_subrange(buf, start, end)))
}

/// Request id and status of a completion.
pub open spec fn completion(buf: Seq<u8>) -> Result<(u32, u32)> {
    if buf.len() < 16 {
        Err(Error::Truncated)
    } else {
        Ok((le32_at(buf, 8), le32_at(buf, 12)))
    }
}

/// Request id and status of any `*_CMPLT` message.
pub fn decode_completion(buf: &[u8]) -> (r: Result<(u32, u32)>)
    ensures
        r == completion(buf@),
{
    Ok((u32_at(buf, 8)?, u32_at(buf, 12)?))
}

/// Status code of a `REMOTE_NDIS_INDICATE_STATUS_MSG`.
pub fn decode_indicate_status(buf: &[u8]) -> (r: Result<u32>)
    ensures
        r == word(buf@, 8),
{
    u32_at(buf, 8)
}

/// A set message announces its own length, and its offset and length fields
/// point at exactly the data it was made from.
pub proof fn set_message_points_at_its_payload(request_id: u32, oid: u32, data: Seq<u8>)
    requires
        data.len() <= u32::MAX - 28,
    ensures
        ({
            let m = set_message(request_id, oid, data);
            let start = OFFSET_BASE + le32_at(m, 20);
            &&& le32_at(m, 4) == m.len()
            &&& le32_at(m, 16) == data.len()
            &&& m.subrange(start, start + le32_at(m, 16)) == data
        }),
{
    let ws = seq![
        MSG_SET,
        low32(28int + data.len()),
        request_id,
        oid,
        low32(data.len() as int),
        (28 - OFFSET_BASE) as u32,
        0u32,
    ];
    let m = set_message(request_id, oid, data);
    lemma_le_words_len(ws);
    lemma_le_words_at(ws, data, 1);
    lemma_le_words_at(ws, data, 4);
    lemma_le_words_at(ws, data, 5);
    assert(m.subrange(28, 28int + data.len()) =~= data);
}

/// Whether `m` is these little-endian words and nothing else.
#[verifier::opaque]
pub open spec fn is_words(m: Seq<u8>, ws: Seq<u32>) -> bool {
    &&& m.len() == 4 * ws.len()
    &&& forall|i: int| 0 <= i < ws.len() ==> le32_at(m, 4 * i) == #[trigger] ws[i]
}

/// Every command word by word. Each announces its own length behind its type, and
/// carries its request id in the third word.
pub proof fn commands_are_laid_out(request_id: u32, oid: u32, max_transfer_size: u32)
    ensures
        is_words(
            init_message(request_id, max_transfer_size),
            seq![2u32, 24, request_id, 1, 0, max_transfer_size],
        ),
        is_words(query_message(request_id, oid), seq![4u32, 28, request_id, oid, 0, 0, 0]),
        is_words(keepalive_message(request_id), seq![8u32, 12, request_id]),
        is_words(halt_message(request_id), seq![3u32, 12, request_id]),
        is_words(keepalive_complete_message(request_id), seq![0x8000_0008u32, 16, request_id, 0]),
{
    lemma_is_words(seq![2u32, 24, request_id, 1, 0, max_transfer_size]);
    lemma_is_words(seq![4u32, 28, request_id, oid, 0, 0, 0]);
    lemma_is_words(seq![8u32, 12, request_id]);
    lemma_is_words(seq![3u32, 12, request_id]);
    lemma_is_words(seq![0x8000_0008u32, 16, request_id, 0]);
}

/// A SET that carries one word is eight words: the last is the value.
pub proof fn set_of_a_word_is_laid_out(request_id: u32, oid: u32, value: u32)
    ensures
        is_words(
            set_message(request_id, oid, le32(value)),
            seq![5u32, 32, request_id, oid, 4, 20, 0, value],
        ),
{
    let ws = seq![5u32, 32, request_id, oid, 4, 20, 0];
    let all = ws.push(value);
    assert(all.drop_last() =~= ws);
    lemma_is_words(all);
    assert(all =~= seq![5u32, 32, request_id, oid, 4, 20, 0, value]);
    assert(set_message(request_id, oid, le32(value)) =~= le_words(all));
}

/// A SET points at its data, whatever that is: type, length, request, object, the data's
/// length and its offset from the ninth byte, then the data itself.
pub proof fn set_is_laid_out(request_id: u32, oid: u32, data: Seq<u8>)
    requires
        data.len() <= u32::MAX - 28,
    ensures
        ({
            let m = set_message(request_id, oid, data);
            &&& m.len() == 28 + data.len()
            &&& le32_at(m, 0) == 5
            &&& le32_at(m, 4) == 28 + data.len()
            &&& le32_at(m, 8) == request_id
            &&& le32_at(m, 12) == oid
            &&& le32_at(m, 16) == data.len()
            &&& le32_at(m, 20) == 20
            &&& le32_at(m, 24) == 0
            &&& m.skip(28) == data
        }),
{
    let ws = seq![
        MSG_SET,
        low32(28int + data.len()),
        request_id,
        oid,
        low32(data.len() as int),
        (28 - OFFSET_BASE) as u32,
        0u32,
    ];
    let m = set_message(request_id, oid, data);
    lemma_le_words_len(ws);
    lemma_le_words_at(ws, data, 0);
    lemma_le_words_at(ws, data, 1);
    lemma_le_words_at(ws, data, 2);
    lemma_le_words_at(ws, data, 3);
    lemma_le_words_at(ws, data, 4);
    lemma_le_words_at(ws, data, 5);
    lemma_le_words_at(ws, data, 6);
    assert(m.skip(28) =~= data);
}

/// An INITIALIZE completion is read by position: it is there if its type says so and it
/// reaches as far as the alignment.
pub proof fn init_completions_are_read_by_position(buf: Seq<u8>)
    ensures
        init_complete(buf) is Ok <==> buf.len() >= 44 && le32_at(buf, 0) == 0x8000_0002,
        init_complete(buf) matches Ok(c) ==> {
            &&& c.request_id == le32_at(buf, 8)
            &&& c.status == le32_at(buf, 12)
            &&& c.major_version == le32_at(buf, 16)
            &&& c.minor_version == le32_at(buf, 20)
            &&& c.medium == le32_at(buf, 28)
            &&& c.max_packets_per_transfer == le32_at(buf, 32)
            &&& c.max_transfer_size == le32_at(buf, 36)
            &&& c.packet_alignment == alignment_of(le32_at(buf, 40))
        },
{
}

/// Alignments double with the exponent, from one, and an exponent of eight or more
/// stands for no alignment at all.
pub proof fn alignments_double(exponent: u32)
    ensures
        alignment_of(0) == 1,
        exponent < 7 ==> alignment_of((exponent + 1) as u32) == 2 * alignment_of(exponent),
        exponent >= 8 ==> alignment_of(exponent) == 1,
{
    lemma2_to64();
    if exponent < 7 {
        vstd::arithmetic::power2::lemma_pow2_unfold((exponent + 1) as nat);
        lemma_pow2_strictly_increases(exponent as nat, 7);
    }
}

/// A query completion is read by position. One that failed carries only its status; one
/// that succeeded carries what its offset, from the ninth byte, and its length point at.
pub proof fn query_completions_are_read_by_position(buf: Seq<u8>)
    ensures
        ({
            let start = 8 + le32_at(buf, 20);
            let end = start + le32_at(buf, 16);
            let whole = buf.len() >= 24 && le32_at(buf, 0) == 0x8000_0004;
            &&& query_complete(buf) is Ok <==> whole && (le32_at(buf, 12) != 0 || end <= buf.len())
            &&& query_complete(buf) matches Ok((id, status, info)) ==> {
                &&& id == le32_at(buf, 8)
                &&& status == le32_at(buf, 12)
                &&& status == 0 ==> info == buf.subrange(start, end)
                &&& status != 0 ==> info.len() == 0
            }
        }),
{
}

proof fn lemma_is_words(ws: Seq<u32>)
    ensures
        is_words(le_words(ws), ws),
{
    reveal(is_words);
    let m = le_words(ws);
    lemma_le_words_len(ws);
    assert forall|i: int| 0 <= i < ws.len() implies le32_at(m, 4 * i) == #[trigger] ws[i] by {
        lemma_le_words_at(ws, Seq::empty(), i);
        assert(m + Seq::<u8>::empty() =~= m);
    }
}

/// The numbers of the protocol.
pub proof fn numbers_are_those_of_the_protocol()
    ensures
        MSG_PACKET == 1 && MSG_INIT == 2 && MSG_HALT == 3 && MSG_QUERY == 4 && MSG_SET == 5
            && MSG_RESET == 6 && MSG_INDICATE == 7 && MSG_KEEPALIVE == 8,
        MSG_COMPLETION == 0x8000_0000,
        STATUS_SUCCESS == 0,
        STATUS_MEDIA_CONNECT == 0x4001_000B,
        STATUS_MEDIA_DISCONNECT == 0x4001_000C,
        OID_GEN_MAXIMUM_FRAME_SIZE == 0x0001_0106,
        OID_GEN_LINK_SPEED == 0x0001_0107,
        OID_GEN_CURRENT_PACKET_FILTER == 0x0001_010E,
        OID_GEN_PHYSICAL_MEDIUM == 0x0001_0202,
        OID_802_3_PERMANENT_ADDRESS == 0x0101_0101,
        OID_802_3_CURRENT_ADDRESS == 0x0101_0102,
        PACKET_TYPE_DIRECTED == 1 && PACKET_TYPE_MULTICAST == 2 && PACKET_TYPE_ALL_MULTICAST == 4
            && PACKET_TYPE_BROADCAST == 8 && PACKET_TYPE_PROMISCUOUS == 32,
        DATA_HEADER_LEN == 44,
        OFFSET_BASE == 8,
        MAX_CONTROL_MSG == 1024,
        RESPONSE_AVAILABLE == 1,
        REQ_SEND_ENCAPSULATED == 0,
        REQ_GET_ENCAPSULATED == 1,
{
}

} // verus!
