//! The transport decisions of the protocol: single and split responses, the
//! reassembly (and decompression) of split responses, and the challenge
//! handshake. The socket work belongs to the caller, which hands each
//! received datagram to these functions and does what they answer.
use crate::errors::{Error, ErrorView, IoError, IoErrorKind};
use crate::keyed::{
    distinct_keys, join_in_key_order, join_in_key_order_exec, keyed_view,
    lemma_join_order_independent,
};
use crate::wire::{
    copy_range, i32_bits, i32_from_bits, le_bytes, lemma_assoc, lemma_le_bytes_len,
    lemma_pow256_values, lemma_u8_pop, lemma_uint_pop, pow256, push_bytes, spec_uint, push_i32, read_i32, read_u16, read_u32, read_u8, spec_i32,
    spec_u16, spec_u32, spec_u8,
};
use crate::{HEADER_CHALLENGE, MULTI_PACKET, SINGLE_PACKET};
use vstd::prelude::*;

verus! {

/// Offset of the response header.
pub const OFS_HEADER: usize = 0;

/// Offset of the payload of a single-packet response.
pub const OFS_SP_PAYLOAD: usize = 4;

/// Offset of the id of a split response.
pub const OFS_MP_ID: usize = 4;

/// Offset of the total number of fragments.
pub const OFS_MP_SS_TOTAL: usize = 8;

/// Offset of the number of this fragment.
pub const OFS_MP_SS_NUMBER: usize = 9;

/// Offset of the largest fragment size.
pub const OFS_MP_SS_SIZE: usize = 10;

/// Offset of the decompressed size (compressed responses).
pub const OFS_MP_SS_BZ2_SIZE: usize = 12;

/// Offset of the checksum of the decompressed data (compressed responses).
pub const OFS_MP_SS_BZ2_CRC: usize = 16;

/// Offset of the payload of a fragment of an uncompressed response.
pub const OFS_MP_SS_PAYLOAD: usize = 12;

/// Offset of the payload of a later fragment of a compressed response.
pub const OFS_MP_SS_PAYLOAD_BZ2: usize = 20;

/// Offset of the payload of the first fragment; its first 4 bytes are the
/// single-packet header of the reassembled message, which is dropped.
pub const OFS_MP_FIRST_PAYLOAD: usize = 16;

/// The most fragments a split response may announce.
pub const MAX_FRAGMENTS: usize = 32;

/// The largest decompressed size a compressed response may announce.
pub const MAX_BZ2_SIZE: u32 = 0x10_0000;

// ---------------------------------------------------------------------------
// Outside computations
// ---------------------------------------------------------------------------

/// Eight rounds of the reflected CRC-32 division step with the IEEE
/// polynomial `0xEDB88320`: the table entry for one byte.
pub open spec fn crc32_rounds(v: u32, n: nat) -> u32
    decreases n,
{
    if n == 0 {
        v
    } else {
        crc32_rounds(
            if v & 1 == 1 {
                (v >> 1u32) ^ 0xEDB8_8320u32
            } else {
                v >> 1u32
            },
            (n - 1) as nat,
        )
    }
}

/// The CRC-32 register after feeding `bytes`, one byte at a time, into the
/// register `value` (table-driven, least significant bit first).
pub open spec fn crc32_register(value: u32, bytes: Seq<u8>) -> u32
    decreases bytes.len(),
{
    if bytes.len() == 0 {
        value
    } else {
        let entry = crc32_rounds(((value % 256) as u8 ^ bytes[0]) as u32, 8);
        crc32_register(entry ^ (value >> 8u32), bytes.skip(1))
    }
}

/// The CRC-32 (IEEE) checksum: the register starts with all bits set and
/// its bits are inverted at the end.
pub open spec fn crc32_ieee(data: Seq<u8>) -> u32 {
    crc32_register(0xFFFF_FFFFu32, data) ^ 0xFFFF_FFFFu32
}

/// Calls `crc::crc32::checksum_ieee`. The claim: it computes the CRC-32
/// (IEEE) checksum of the bytes as `crc32_ieee` states it (the crate's
/// `update` from 0 with its table for the polynomial `0xEDB88320`).
#[verifier::external_body]
fn checksum_ieee(bytes: &[u8]) -> (r: u32)
    ensures
        r == crc32_ieee(bytes@),
{
    crc::crc32::checksum_ieee(bytes)
}

/// What reading `size` bytes from a bzip2 decoder over `data` gives: the
/// bytes, when reading that many succeeds, or else the kind of the error.
pub uninterp spec fn bz2_decompressed(data: Seq<u8>, size: nat) -> Result<Seq<u8>, IoErrorKind>;

/// Calls `read_exact` on a `bzip2::read::BzDecoder` over `data` with a buffer
/// of `size` bytes. The claims: what it gives (the bytes, or the kind of its
/// error: `UnexpectedEof` when the stream ends too early, another kind for
/// invalid input) is a function of `data` and `size` alone, named
/// `bz2_decompressed`; on success the buffer is full, as `read_exact`
/// documents.
#[verifier::external_body]
fn bz2_read_exact(data: &[u8], size: usize) -> (r: Result<Vec<u8>, IoError>)
    ensures
        match r {
            Ok(v) => bz2_decompressed(data@, size as nat) == Ok::<Seq<u8>, IoErrorKind>(v@)
                && v@.len() == size,
            Err(e) => bz2_decompressed(data@, size as nat) == Err::<Seq<u8>, IoErrorKind>(e.kind),
        },
{
    let mut out = vec![0u8; size];
    match std::io::Read::read_exact(&mut bzip2::read::BzDecoder::new(data), &mut out) {
        Ok(()) => Ok(out),
        Err(error) => {
            let kind = match error.kind() {
                std::io::ErrorKind::UnexpectedEof => IoErrorKind::UnexpectedEof,
                _ => IoErrorKind::Other,
            };
            Err(IoError { kind, error })
        },
    }
}

// ---------------------------------------------------------------------------
// Split responses
// ---------------------------------------------------------------------------

/// A split response being reassembled: its id, the number of fragments it
/// announced, the largest fragment size, its first datagram, and the
/// fragments received so far as (number, payload).
pub struct MultiPacket {
    pub id: i32,
    pub total: usize,
    pub switching_size: usize,
    pub first: Vec<u8>,
    pub fragments: Vec<(u8, Vec<u8>)>,
}

pub struct MultiPacketView {
    pub id: i32,
    pub total: usize,
    pub switching_size: usize,
    pub first: Seq<u8>,
    pub fragments: Seq<(u8, Seq<u8>)>,
}

impl View for MultiPacket {
    type V = MultiPacketView;

    open spec fn view(&self) -> MultiPacketView {
        MultiPacketView {
            id: self.id,
            total: self.total,
            switching_size: self.switching_size,
            first: self.first@,
            fragments: keyed_view(self.fragments@),
        }
    }
}

/// What the first datagram of a response says.
pub enum ResponseStart {
    /// The whole response, without its header.
    Single(Vec<u8>),
    /// The start of a split response; more fragments follow.
    Multi(MultiPacket),
}

pub enum ResponseStartView {
    Single(Seq<u8>),
    Multi(MultiPacketView),
}

impl View for ResponseStart {
    type V = ResponseStartView;

    open spec fn view(&self) -> ResponseStartView {
        match self {
            ResponseStart::Single(p) => ResponseStartView::Single(p@),
            ResponseStart::Multi(m) => ResponseStartView::Multi(m@),
        }
    }
}

/// Whether a split response with this id is bzip2-compressed (its top bit).
pub open spec fn is_compressed(id: i32) -> bool {
    id < 0
}

/// The field at `ofs`, read as a little-endian `i32`.
pub open spec fn i32_at(s: Seq<u8>, ofs: int) -> i32 {
    match spec_i32(s.skip(ofs)) {
        Ok((v, _)) => v,
        Err(_) => 0,
    }
}

/// The field at `ofs`, read as a little-endian `u16`.
pub open spec fn u16_at(s: Seq<u8>, ofs: int) -> u16 {
    match spec_u16(s.skip(ofs)) {
        Ok((v, _)) => v,
        Err(_) => 0,
    }
}

/// The field at `ofs`, read as a little-endian `u32`.
pub open spec fn u32_at(s: Seq<u8>, ofs: int) -> u32 {
    match spec_u32(s.skip(ofs)) {
        Ok((v, _)) => v,
        Err(_) => 0,
    }
}

/// The decision on the first datagram of a response, given the largest
/// datagram the caller receives:
/// - shorter than 4 bytes: too short;
/// - header -1: the bytes after the header are the response;
/// - header -2: a split response; its id, fragment count, fragment number
///   and largest fragment size are read (12 bytes needed); more than 32
///   fragments, or fragments larger than the caller receives, are refused;
///   the first fragment's payload starts at byte 16;
/// - any other header: an invalid response.
pub open spec fn spec_begin_response(data: Seq<u8>, max_size: usize) -> Result<ResponseStartView, ErrorView> {
    if data.len() < 4 {
        Err(ErrorView::PacketTooShort { expected: 4, actual: data.len() as usize })
    } else {
        let header = i32_at(data, OFS_HEADER as int);
        if header == SINGLE_PACKET {
            Ok(ResponseStartView::Single(data.skip(OFS_SP_PAYLOAD as int)))
        } else if header == MULTI_PACKET {
            if data.len() < 12 {
                Err(ErrorView::PacketTooShort { expected: 12, actual: data.len() as usize })
            } else {
                let total = data[OFS_MP_SS_TOTAL as int] as usize;
                let switching_size = u16_at(data, OFS_MP_SS_SIZE as int) as usize;
                if switching_size > max_size || total > MAX_FRAGMENTS {
                    Err(ErrorView::MultiPacketTooLarge)
                } else if data.len() < OFS_MP_FIRST_PAYLOAD {
                    Err(
                        ErrorView::PacketTooShort {
                            expected: OFS_MP_FIRST_PAYLOAD,
                            actual: data.len() as usize,
                        },
                    )
                } else {
                    Ok(
                        ResponseStartView::Multi(
                            MultiPacketView {
                                id: i32_at(data, OFS_MP_ID as int),
                                total,
                                switching_size,
                                first: data,
                                fragments: seq![
                                    (
                                        data[OFS_MP_SS_NUMBER as int],
                                        data.skip(OFS_MP_FIRST_PAYLOAD as int),
                                    ),
                                ],
                            },
                        ),
                    )
                }
            }
        } else {
            Err(ErrorView::InvalidResponse)
        }
    }
}

/// Where the payload of a later fragment starts.
pub open spec fn fragment_offset(id: i32) -> usize {
    if is_compressed(id) {
        OFS_MP_SS_PAYLOAD_BZ2
    } else {
        OFS_MP_SS_PAYLOAD
    }
}

/// The decision on a later fragment of the split response with id `id`:
/// at most 9 bytes is too short; another id is refused; otherwise its number
/// and payload.
pub open spec fn spec_fragment(data: Seq<u8>, id: i32) -> Result<(u8, Seq<u8>), ErrorView> {
    if data.len() <= 9 {
        Err(ErrorView::PacketTooShort { expected: 10, actual: data.len() as usize })
    } else if i32_at(data, OFS_MP_ID as int) != id {
        Err(ErrorView::MismatchPacketId)
    } else if data.len() < fragment_offset(id) {
        Err(ErrorView::PacketTooShort { expected: fragment_offset(id), actual: data.len() as usize })
    } else {
        Ok((data[OFS_MP_SS_NUMBER as int], data.skip(fragment_offset(id) as int)))
    }
}

/// The reassembled response: the payloads in fragment-number order (equal
/// numbers in arrival order). A compressed response carries, in its first
/// datagram, the decompressed size (at most 1 MiB) and the CRC-32 of the
/// decompressed bytes, both checked.
pub open spec fn spec_finish(m: MultiPacketView) -> Result<Seq<u8>, ErrorView> {
    let joined = join_in_key_order(m.fragments);
    if is_compressed(m.id) {
        if m.first.len() < OFS_MP_SS_PAYLOAD_BZ2 {
            Err(
                ErrorView::PacketTooShort {
                    expected: OFS_MP_SS_PAYLOAD_BZ2,
                    actual: m.first.len() as usize,
                },
            )
        } else {
            let size = u32_at(m.first, OFS_MP_SS_BZ2_SIZE as int);
            let checksum = u32_at(m.first, OFS_MP_SS_BZ2_CRC as int);
            if size > MAX_BZ2_SIZE {
                Err(ErrorView::InvalidBz2Size)
            } else {
                match bz2_decompressed(joined, size as nat) {
                    Err(kind) => Err(ErrorView::Io(kind)),
                    Ok(d) => spec_check_decompressed(d, crc32_ieee(d), checksum),
                }
            }
        }
    } else {
        Ok(joined)
    }
}

/// The decompressed bytes are the response when their checksum is the one
/// the first datagram announced.
pub open spec fn spec_check_decompressed(d: Seq<u8>, crc: u32, expected: u32) -> Result<Seq<u8>, ErrorView> {
    if crc != expected {
        Err(ErrorView::ChecksumMismatch)
    } else {
        Ok(d)
    }
}

/// Accepts the decompressed bytes when `crc`, their computed checksum, is
/// the `expected` one.
pub fn check_decompressed(decompressed: Vec<u8>, crc: u32, expected: u32) -> (r: Result<Vec<u8>, Error>)
    ensures
        match r {
            Ok(v) => spec_check_decompressed(decompressed@, crc, expected) == Ok::<Seq<u8>, ErrorView>(v@),
            Err(e) => spec_check_decompressed(decompressed@, crc, expected) == Err::<Seq<u8>, ErrorView>(e@),
        },
{
    if crc != expected {
        Err(Error::ChecksumMismatch)
    } else {
        Ok(decompressed)
    }
}

fn i32_field(data: &[u8], ofs: usize) -> (r: i32)
    requires
        ofs + 4 <= data.len(),
    ensures
        r == i32_at(data@, ofs as int),
{
    match read_i32(data, ofs) {
        Ok((v, _)) => v,
        Err(_) => 0,
    }
}

fn u16_field(data: &[u8], ofs: usize) -> (r: u16)
    requires
        ofs + 2 <= data.len(),
    ensures
        r == u16_at(data@, ofs as int),
{
    match read_u16(data, ofs) {
        Ok((v, _)) => v,
        Err(_) => 0,
    }
}

fn u32_field(data: &[u8], ofs: usize) -> (r: u32)
    requires
        ofs + 4 <= data.len(),
    ensures
        r == u32_at(data@, ofs as int),
{
    match read_u32(data, ofs) {
        Ok((v, _)) => v,
        Err(_) => 0,
    }
}

/// Decides what the first datagram of a response is; `max_size` is the size
/// of the caller's receive buffer.
pub fn begin_response(data: &[u8], max_size: usize) -> (r: Result<ResponseStart, Error>)
    ensures
        match r {
            Ok(v) => spec_begin_response(data@, max_size) == Ok::<ResponseStartView, ErrorView>(v@),
            Err(e) => spec_begin_response(data@, max_size) == Err::<ResponseStartView, ErrorView>(e@),
        },
{
    if data.len() < 4 {
        return Err(Error::PacketTooShort { expected: 4, actual: data.len() });
    }
    let header = i32_field(data, OFS_HEADER);
    if header == SINGLE_PACKET {
        let payload = copy_range(data, OFS_SP_PAYLOAD, data.len());
        proof {
            assert(payload@ =~= data@.skip(OFS_SP_PAYLOAD as int));
        }
        Ok(ResponseStart::Single(payload))
    } else if header == MULTI_PACKET {
        if data.len() < 12 {
            return Err(Error::PacketTooShort { expected: 12, actual: data.len() });
        }
        let id = i32_field(data, OFS_MP_ID);
        let total = data[OFS_MP_SS_TOTAL] as usize;
        let switching_size = u16_field(data, OFS_MP_SS_SIZE) as usize;
        if switching_size > max_size || total > MAX_FRAGMENTS {
            return Err(Error::MultiPacketTooLarge);
        }
        if data.len() < OFS_MP_FIRST_PAYLOAD {
            return Err(Error::PacketTooShort { expected: OFS_MP_FIRST_PAYLOAD, actual: data.len() });
        }
        let first_payload = copy_range(data, OFS_MP_FIRST_PAYLOAD, data.len());
        let first = copy_range(data, 0, data.len());
        let mut fragments: Vec<(u8, Vec<u8>)> = Vec::new();
        fragments.push((data[OFS_MP_SS_NUMBER], first_payload));
        proof {
            assert(first_payload@ =~= data@.skip(OFS_MP_FIRST_PAYLOAD as int));
            assert(first@ =~= data@);
            assert(keyed_view(fragments@) =~= seq![
                (data@[OFS_MP_SS_NUMBER as int], data@.skip(OFS_MP_FIRST_PAYLOAD as int)),
            ]);
        }
        Ok(ResponseStart::Multi(MultiPacket { id, total, switching_size, first, fragments }))
    } else {
        Err(Error::InvalidResponse)
    }
}

impl MultiPacket {
    /// The size of the buffer in which to receive the next fragment.
    pub fn switching_size(&self) -> (r: usize)
        ensures
            r == self@.switching_size,
    {
        self.switching_size
    }

    /// Takes a later fragment; says whether the announced number of fragments
    /// has now been received. On error nothing changes.
    pub fn add_fragment(&mut self, data: &[u8]) -> (r: Result<bool, Error>)
        ensures
            match spec_fragment(data@, old(self)@.id) {
                Ok((n, p)) => r == Ok::<bool, Error>(
                    final(self)@.fragments.len() == final(self)@.total,
                ) && final(self)@ == (MultiPacketView {
                    fragments: old(self)@.fragments.push((n, p)),
                    ..old(self)@
                }),
                Err(e) => (r matches Err(err) && err@ == e) && final(self)@ == old(self)@,
            },
    {
        if data.len() <= 9 {
            return Err(Error::PacketTooShort { expected: 10, actual: data.len() });
        }
        let packet_id = i32_field(data, OFS_MP_ID);
        if packet_id != self.id {
            return Err(Error::MismatchPacketId);
        }
        let offset = if self.id < 0 {
            OFS_MP_SS_PAYLOAD_BZ2
        } else {
            OFS_MP_SS_PAYLOAD
        };
        if data.len() < offset {
            return Err(Error::PacketTooShort { expected: offset, actual: data.len() });
        }
        let payload = copy_range(data, offset, data.len());
        let ghost before = keyed_view(self.fragments@);
        self.fragments.push((data[OFS_MP_SS_NUMBER], payload));
        proof {
            assert(payload@ =~= data@.skip(offset as int));
            assert(keyed_view(self.fragments@) =~= before.push(
                (data@[OFS_MP_SS_NUMBER as int], data@.skip(offset as int)),
            ));
        }
        Ok(self.fragments.len() == self.total)
    }

    /// Puts the fragments in order, joins them and, for a compressed
    /// response, decompresses and checks the result, which then has exactly
    /// the size that the first datagram announced.
    pub fn finish(self) -> (r: Result<Vec<u8>, Error>)
        ensures
            match r {
                Ok(v) => spec_finish(self@) == Ok::<Seq<u8>, ErrorView>(v@),
                Err(e) => spec_finish(self@) == Err::<Seq<u8>, ErrorView>(e@),
            },
            is_compressed(self@.id) ==> (r matches Ok(v) ==> v@.len() == u32_at(
                self@.first,
                OFS_MP_SS_BZ2_SIZE as int,
            )),
    {
        let aggregation = join_in_key_order_exec(&self.fragments);
        if self.id < 0 {
            if self.first.len() < OFS_MP_SS_PAYLOAD_BZ2 {
                return Err(
                    Error::PacketTooShort {
                        expected: OFS_MP_SS_PAYLOAD_BZ2,
                        actual: self.first.len(),
                    },
                );
            }
            let decompressed_size = u32_field(self.first.as_slice(), OFS_MP_SS_BZ2_SIZE);
            let checksum = u32_field(self.first.as_slice(), OFS_MP_SS_BZ2_CRC);
            if decompressed_size > MAX_BZ2_SIZE {
                return Err(Error::InvalidBz2Size);
            }
            let decompressed = match bz2_read_exact(aggregation.as_slice(), decompressed_size as usize) {
                Ok(d) => d,
                Err(e) => return Err(Error::Io(e)),
            };
            let crc = checksum_ieee(decompressed.as_slice());
            check_decompressed(decompressed, crc, checksum)
        } else {
            Ok(aggregation)
        }
    }
}

/// What a single-packet response carries: a datagram made of the header -1
/// and any payload is answered with exactly that payload.
pub proof fn lemma_single_packet_payload(payload: Seq<u8>, max_size: usize)
    ensures
        spec_begin_response(le_bytes(i32_bits(SINGLE_PACKET as int), 4) + payload, max_size)
            == Ok::<ResponseStartView, ErrorView>(ResponseStartView::Single(payload)),
{
    lemma_pow256_values();
    let bits = i32_bits(SINGLE_PACKET as int);
    let data = le_bytes(bits, 4) + payload;
    lemma_uint_pop(bits, 4, payload);
    assert(data.skip(0) =~= data);
    assert(i32_from_bits(bits) == SINGLE_PACKET);
    assert(data.skip(OFS_SP_PAYLOAD as int) =~= payload);
}

/// The order in which fragments arrive does not matter: two reassemblies of
/// the same split response that received the same fragments, in which no two
/// fragments share a number, finish alike.
pub proof fn lemma_finish_order_independent(a: MultiPacketView, b: MultiPacketView)
    requires
        a.id == b.id,
        a.first == b.first,
        a.fragments.to_multiset() == b.fragments.to_multiset(),
        distinct_keys(a.fragments),
        distinct_keys(b.fragments),
    ensures
        spec_finish(a) == spec_finish(b),
{
    lemma_join_order_independent(a.fragments, b.fragments);
}

/// Reading a little-endian field that sits after `pre`.
proof fn lemma_field_at(pre: Seq<u8>, x: nat, n: nat, post: Seq<u8>)
    requires
        x < pow256(n),
    ensures
        (pre + le_bytes(x, n) + post).skip(pre.len() as int) == le_bytes(x, n) + post,
        spec_uint((pre + le_bytes(x, n) + post).skip(pre.len() as int), n) == Ok::<
            (nat, Seq<u8>),
            ErrorView,
        >((x, post)),
{
    assert((pre + le_bytes(x, n) + post).skip(pre.len() as int) =~= le_bytes(x, n) + post);
    lemma_uint_pop(x, n, post);
}

/// The header of a datagram of a split response: the split-response header
/// -1 ... -2 as 4 little-endian bytes, the response id (4 bytes), the number
/// of fragments and this fragment's number (a byte each) and the largest
/// fragment size (2 bytes).
pub open spec fn split_header(id: i32, total: u8, number: u8, size: u16) -> Seq<u8> {
    le_bytes(i32_bits(-2), 4) + le_bytes(i32_bits(id as int), 4) + seq![total, number] + le_bytes(
        size as nat,
        2,
    )
}

proof fn lemma_split_header_fields(id: i32, total: u8, number: u8, size: u16, rest: Seq<u8>)
    ensures
        (split_header(id, total, number, size) + rest).len() == 12 + rest.len(),
        i32_at(split_header(id, total, number, size) + rest, 0) == MULTI_PACKET,
        i32_at(split_header(id, total, number, size) + rest, 4) == id,
        (split_header(id, total, number, size) + rest)[8] == total,
        (split_header(id, total, number, size) + rest)[9] == number,
        u16_at(split_header(id, total, number, size) + rest, 10) == size,
        (split_header(id, total, number, size) + rest).skip(12) == rest,
{
    lemma_pow256_values();
    let a = le_bytes(i32_bits(-2), 4);
    let b = le_bytes(i32_bits(id as int), 4);
    let c = seq![total, number];
    let d = le_bytes(size as nat, 2);
    lemma_le_bytes_len(i32_bits(-2), 4);
    lemma_le_bytes_len(i32_bits(id as int), 4);
    lemma_le_bytes_len(size as nat, 2);
    let data = split_header(id, total, number, size) + rest;
    assert(data =~= Seq::<u8>::empty() + a + (b + c + d + rest));
    lemma_field_at(Seq::<u8>::empty(), i32_bits(-2), 4, b + c + d + rest);
    assert(i32_from_bits(i32_bits(-2)) == -2);
    assert(data =~= a + b + (c + d + rest));
    lemma_field_at(a, i32_bits(id as int), 4, c + d + rest);
    assert(i32_from_bits(i32_bits(id as int)) == id);
    assert(data =~= (a + b + c) + d + rest);
    lemma_field_at(a + b + c, size as nat, 2, rest);
    assert(data.skip(12) =~= rest);
}

/// The first datagram of a split response, as its bytes lay it out: the
/// split header, 4 more bytes (for a compressed response the decompressed
/// size) and the payload. Announcing more than 32 fragments, or fragments
/// larger than the caller receives, is refused; otherwise the reassembly
/// starts with that id, count and size, and the payload after byte 16 as the
/// fragment with this datagram's number.
pub proof fn lemma_split_start_wire(
    id: i32,
    total: u8,
    number: u8,
    size: u16,
    extra: Seq<u8>,
    payload: Seq<u8>,
    max_size: usize,
    data: Seq<u8>,
)
    requires
        extra.len() == 4,
        data == split_header(id, total, number, size) + extra + payload,
    ensures
        spec_begin_response(data, max_size) == (if size > max_size || total > 32 {
            Err::<ResponseStartView, ErrorView>(ErrorView::MultiPacketTooLarge)
        } else {
            Ok(
                ResponseStartView::Multi(
                    MultiPacketView {
                        id,
                        total: total as usize,
                        switching_size: size as usize,
                        first: data,
                        fragments: seq![(number, payload)],
                    },
                ),
            )
        }),
{
    lemma_split_header_fields(id, total, number, size, extra + payload);
    assert(data =~= split_header(id, total, number, size) + (extra + payload));
    assert((extra + payload).skip(4) =~= payload);
    assert(data.skip(16) =~= payload);
}

/// A later fragment of a split response, as its bytes lay it out: the split
/// header, for a compressed response (negative id) 8 more bytes, and the
/// payload. A fragment of another response is refused; otherwise it gives its
/// number and its payload.
pub proof fn lemma_split_fragment_wire(
    response_id: i32,
    id: i32,
    total: u8,
    number: u8,
    size: u16,
    extra: Seq<u8>,
    payload: Seq<u8>,
)
    requires
        extra.len() == (if response_id < 0 {
            8int
        } else {
            0int
        }),
    ensures
        spec_fragment(split_header(id, total, number, size) + extra + payload, response_id) == (if id
            != response_id {
            Err::<(u8, Seq<u8>), ErrorView>(ErrorView::MismatchPacketId)
        } else {
            Ok((number, payload))
        }),
{
    lemma_split_header_fields(id, total, number, size, extra + payload);
    let data = split_header(id, total, number, size) + extra + payload;
    assert(data =~= split_header(id, total, number, size) + (extra + payload));
    assert(data.skip(12 + extra.len() as int) =~= payload);
}

/// How a split response finishes, as the first datagram lays it out: an
/// uncompressed response (non-negative id) is its fragments' payloads joined
/// in fragment-number order; for a compressed one the first datagram carries,
/// after the split header, the decompressed size and the CRC-32 of the
/// decompressed bytes (4 bytes each, little-endian). A size above 1 MiB is
/// refused; otherwise the joined payloads are decompressed to that size, and
/// the result is accepted only when its CRC-32 is the announced one.
pub proof fn lemma_finish_wire(
    m: MultiPacketView,
    total: u8,
    number: u8,
    size: u16,
    dsize: u32,
    crc: u32,
    rest: Seq<u8>,
)
    requires
        m.first == split_header(m.id, total, number, size) + le_bytes(dsize as nat, 4) + le_bytes(
            crc as nat,
            4,
        ) + rest,
    ensures
        m.id >= 0 ==> spec_finish(m) == Ok::<Seq<u8>, ErrorView>(join_in_key_order(m.fragments)),
        m.id < 0 ==> spec_finish(m) == (if dsize > 0x10_0000 {
            Err::<Seq<u8>, ErrorView>(ErrorView::InvalidBz2Size)
        } else {
            match bz2_decompressed(join_in_key_order(m.fragments), dsize as nat) {
                Err(kind) => Err(ErrorView::Io(kind)),
                Ok(d) => if crc32_ieee(d) == crc {
                    Ok(d)
                } else {
                    Err(ErrorView::ChecksumMismatch)
                },
            }
        }),
{
    lemma_pow256_values();
    let h = split_header(m.id, total, number, size);
    let a = le_bytes(dsize as nat, 4);
    let b = le_bytes(crc as nat, 4);
    lemma_split_header_fields(m.id, total, number, size, a + b + rest);
    lemma_le_bytes_len(dsize as nat, 4);
    lemma_le_bytes_len(crc as nat, 4);
    assert(m.first =~= h + a + (b + rest));
    lemma_field_at(h, dsize as nat, 4, b + rest);
    assert(m.first =~= (h + a) + b + rest);
    lemma_field_at(h + a, crc as nat, 4, rest);
}

// ---------------------------------------------------------------------------
// Challenges
// ---------------------------------------------------------------------------

/// What a response to a challenged request asks for.
#[derive(Debug, Clone, Copy, PartialEq, Eq)]
pub enum ChallengeStep {
    /// The server answered with a challenge: send the request again with it.
    Retry(i32),
    /// The server answered with data: this response is the result.
    Done,
}

/// The decision on a response to a challenged request. A response that
/// starts with `A` carries a challenge number (4 more bytes). The first
/// response must be a challenge; a later one is either another challenge or
/// the result.
pub open spec fn spec_challenge_step(response: Seq<u8>, first: bool) -> Result<ChallengeStep, ErrorView> {
    match spec_u8(response) {
        Err(e) => Err(e),
        Ok((h, r)) => if h == HEADER_CHALLENGE {
            match spec_i32(r) {
                Err(e) => Err(e),
                Ok((c, _)) => Ok(ChallengeStep::Retry(c)),
            }
        } else if first {
            Err(ErrorView::UnexpectedHeader { expected: HEADER_CHALLENGE, actual: h })
        } else {
            Ok(ChallengeStep::Done)
        },
    }
}

/// Decides what a response to a challenged request asks for; `first` says
/// whether it answers the first request.
pub fn challenge_step(response: &[u8], first: bool) -> (r: Result<ChallengeStep, Error>)
    ensures
        match r {
            Ok(v) => spec_challenge_step(response@, first) == Ok::<ChallengeStep, ErrorView>(v),
            Err(e) => spec_challenge_step(response@, first) == Err::<ChallengeStep, ErrorView>(e@),
        },
{
    proof {
        assert(response@.skip(0) =~= response@);
    }
    let (h, p) = read_u8(response, 0)?;
    if h == HEADER_CHALLENGE {
        let (c, _) = read_i32(response, p)?;
        Ok(ChallengeStep::Retry(c))
    } else if first {
        Err(Error::UnexpectedHeader { expected: HEADER_CHALLENGE, actual: h })
    } else {
        Ok(ChallengeStep::Done)
    }
}

/// The challenge an `A2S_INFO` response asks for, if any: a response that
/// starts with `A` carries one (4 more bytes); any other response is the
/// info itself.
pub open spec fn spec_info_challenge(response: Seq<u8>) -> Result<Option<i32>, ErrorView> {
    match spec_u8(response) {
        Err(e) => Err(e),
        Ok((h, r)) => if h == HEADER_CHALLENGE {
            match spec_i32(r) {
                Err(e) => Err(e),
                Ok((c, _)) => Ok(Some(c)),
            }
        } else {
            Ok(None)
        },
    }
}

/// Decides whether an `A2S_INFO` response is a challenge.
pub fn info_challenge(response: &[u8]) -> (r: Result<Option<i32>, Error>)
    ensures
        match r {
            Ok(v) => spec_info_challenge(response@) == Ok::<Option<i32>, ErrorView>(v),
            Err(e) => spec_info_challenge(response@) == Err::<Option<i32>, ErrorView>(e@),
        },
{
    proof {
        assert(response@.skip(0) =~= response@);
    }
    let (h, p) = read_u8(response, 0)?;
    if h == HEADER_CHALLENGE {
        let (c, _) = read_i32(response, p)?;
        Ok(Some(c))
    } else {
        Ok(None)
    }
}

/// A response that does not start with `A` is no challenge: to the first
/// request it is refused as an unexpected header (`A` expected, the byte
/// given), to a later one it is the result; an empty response is an
/// end-of-input error.
pub proof fn lemma_challenge_step_other(h: u8, rest: Seq<u8>, first: bool)
    requires
        h != 0x41,
    ensures
        spec_challenge_step(seq![h] + rest, first) == (if first {
            Err::<ChallengeStep, ErrorView>(
                ErrorView::UnexpectedHeader { expected: 0x41, actual: h },
            )
        } else {
            Ok(ChallengeStep::Done)
        }),
        spec_challenge_step(Seq::empty(), first) == Err::<ChallengeStep, ErrorView>(
            ErrorView::Io(IoErrorKind::UnexpectedEof),
        ),
{
    lemma_u8_pop(h, rest);
}

/// The challenge of an `A2S_INFO` response is the one the server sent: for
/// every 32-bit challenge number `c` (any sign) and any bytes after it, the
/// response `A` followed by the four little-endian bytes of `c` asks for
/// exactly `c`; a response that starts with any other byte asks for none.
pub proof fn lemma_info_challenge_echo(c: i32, h: u8, rest: Seq<u8>)
    ensures
        spec_info_challenge(seq![0x41u8] + le_bytes(i32_bits(c as int), 4) + rest) == Ok::<
            Option<i32>,
            ErrorView,
        >(Some(c)),
        h != 0x41 ==> spec_info_challenge(seq![h] + rest) == Ok::<Option<i32>, ErrorView>(None),
{
    lemma_pow256_values();
    let bits = i32_bits(c as int);
    assert(i32_from_bits(bits) == c);
    let le = le_bytes(bits, 4);
    lemma_assoc(seq![HEADER_CHALLENGE], le, rest);
    lemma_u8_pop(HEADER_CHALLENGE, le + rest);
    lemma_uint_pop(bits, 4, rest);
    lemma_u8_pop(h, rest);
}

/// A request: its header followed by the challenge number (-1 when there is
/// none yet), little-endian.
pub open spec fn challenge_request_bytes(header: Seq<u8>, challenge: i32) -> Seq<u8> {
    header + le_bytes(i32_bits(challenge as int), 4)
}

/// Builds a request from its header and a challenge number.
pub fn challenge_request(header: &[u8], challenge: i32) -> (r: Vec<u8>)
    ensures
        r@ == challenge_request_bytes(header@, challenge),
{
    let mut packet: Vec<u8> = Vec::with_capacity(9);
    push_bytes(&mut packet, header);
    push_i32(&mut packet, challenge);
    proof {
        assert(packet@ =~= challenge_request_bytes(header@, challenge));
    }
    packet
}

/// The echo of a challenge: when the server answers `A` followed by a
/// challenge number (and anything after it), the step says to retry with
/// that number, and the request built with it carries exactly that number
/// right after its header.
pub proof fn lemma_challenge_echo(header: Seq<u8>, c: i32, rest: Seq<u8>, first: bool)
    ensures
        spec_challenge_step(
            seq![HEADER_CHALLENGE] + le_bytes(i32_bits(c as int), 4) + rest,
            first,
        ) == Ok::<ChallengeStep, ErrorView>(ChallengeStep::Retry(c)),
        spec_i32(challenge_request_bytes(header, c).skip(header.len() as int)) == Ok::<
            (i32, Seq<u8>),
            ErrorView,
        >((c, Seq::empty())),
{
    lemma_pow256_values();
    let bits = i32_bits(c as int);
    assert(i32_from_bits(bits) == c);
    let le = le_bytes(bits, 4);
    lemma_assoc(seq![HEADER_CHALLENGE], le, rest);
    lemma_u8_pop(HEADER_CHALLENGE, le + rest);
    lemma_uint_pop(bits, 4, rest);
    assert(challenge_request_bytes(header, c).skip(header.len() as int) =~= le + Seq::<u8>::empty());
    lemma_uint_pop(bits, 4, Seq::empty());
}

} // verus!
