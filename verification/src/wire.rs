use vstd::prelude::*;
use vstd::slice::{slice_subrange, slice_to_vec};

use crate::checksum::crc32_iso_hdlc;
use crate::chunk_type::ChunkType;
use crate::error::Error;

verus! {

/// Bytes in front of the payload: the length and the type code.
pub const HEADER_LEN: usize = 8;

/// Bytes around the payload: the header and the trailing checksum.
pub const FRAME_LEN: usize = 12;

/// The number that four bytes spell, most significant byte first.
pub open spec fn be_u32(b: Seq<u8>) -> u32
    recommends
        b.len() == 4,
{
    (b[0] as int * 0x100_0000 + b[1] as int * 0x1_0000 + b[2] as int * 0x100 + b[3] as int) as u32
}

/// The four bytes that spell `x`, most significant byte first.
pub open spec fn be_bytes(x: u32) -> Seq<u8> {
    seq![
        (x / 0x100_0000) as u8,
        (x / 0x1_0000 % 0x100) as u8,
        (x / 0x100 % 0x100) as u8,
        (x % 0x100) as u8,
    ]
}

/// Reading back what was written gives the number that was written.
pub proof fn lemma_be_bytes_then_u32(x: u32)
    ensures
        be_bytes(x).len() == 4,
        be_u32(be_bytes(x)) == x,
{
    let b = be_bytes(x);
    assert(b[0] == x / 0x100_0000);
    assert(b[1] == x / 0x1_0000 % 0x100);
    assert(b[2] == x / 0x100 % 0x100);
    assert(b[3] == x % 0x100);
}

/// Writing out what was read gives the bytes that were read.
pub proof fn lemma_be_u32_then_bytes(b: Seq<u8>)
    requires
        b.len() == 4,
    ensures
        be_bytes(be_u32(b)) == b,
{
    let b0 = b[0] as int;
    let b1 = b[1] as int;
    let b2 = b[2] as int;
    let b3 = b[3] as int;
    let x = b0 * 0x100_0000 + b1 * 0x1_0000 + b2 * 0x100 + b3;
    assert(0 <= x <= u32::MAX);
    assert(be_u32(b) == x);
    assert(x / 0x100_0000 == b0);
    assert(x / 0x1_0000 == b0 * 0x100 + b1);
    assert(x / 0x100 == b0 * 0x1_0000 + b1 * 0x100 + b2);
    assert(x % 0x100 == b3);
    assert(be_bytes(be_u32(b)) =~= b);
}

/// Four bytes are determined by the number they spell.
pub proof fn lemma_be_u32_injective(a: Seq<u8>, b: Seq<u8>)
    requires
        a.len() == 4,
        b.len() == 4,
        be_u32(a) == be_u32(b),
    ensures
        a == b,
{
    lemma_be_u32_then_bytes(a);
    lemma_be_u32_then_bytes(b);
}

/// What a chunk is, apart from how it is stored: its type code and payload.
pub struct ChunkView {
    pub chunk_type: Seq<u8>,
    pub data: Seq<u8>,
}

impl ChunkView {
    /// The type code has four bytes and the payload's length fits the
    /// 32-bit length field.
    pub open spec fn well_formed(self) -> bool {
        &&& self.chunk_type.len() == 4
        &&& self.data.len() <= u32::MAX
    }

    /// The bytes that the checksum covers: the type code, then the payload.
    pub open spec fn message(self) -> Seq<u8> {
        self.chunk_type + self.data
    }

    /// The checksum of the chunk.
    pub open spec fn crc(self) -> u32 {
        crc32_iso_hdlc(self.message())
    }
}

/// The record of a payload under a type code, closed by the checksum `crc`:
/// length, type code, payload, checksum.
pub open spec fn record(chunk_type: Seq<u8>, data: Seq<u8>, crc: u32) -> Seq<u8> {
    be_bytes(data.len() as u32) + chunk_type + data + be_bytes(crc)
}

/// The record of a chunk, closed by its own checksum.
pub open spec fn encode(v: ChunkView) -> Seq<u8> {
    record(v.chunk_type, v.data, v.crc())
}

/// The payload length that a buffer declares in its first four bytes.
pub open spec fn declared_len(bytes: Seq<u8>) -> int
    recommends
        bytes.len() >= 4,
{
    be_u32(bytes.subrange(0, 4)) as int
}

/// The buffer holds the header, the payload it declares and the checksum.
pub open spec fn is_complete(bytes: Seq<u8>) -> bool {
    bytes.len() >= 12 && bytes.len() >= 12 + declared_len(bytes)
}

/// The type code of a complete record.
pub open spec fn type_field(bytes: Seq<u8>) -> Seq<u8>
    recommends
        is_complete(bytes),
{
    bytes.subrange(4, 8)
}

/// The payload of a complete record.
pub open spec fn data_field(bytes: Seq<u8>) -> Seq<u8>
    recommends
        is_complete(bytes),
{
    bytes.subrange(8, 8 + declared_len(bytes))
}

/// The checksum that a complete record carries behind its payload.
pub open spec fn crc_field(bytes: Seq<u8>) -> u32
    recommends
        is_complete(bytes),
{
    be_u32(bytes.subrange(8 + declared_len(bytes), 12 + declared_len(bytes)))
}

/// The chunk that a complete record frames, whatever its checksum says.
pub open spec fn framed(bytes: Seq<u8>) -> ChunkView
    recommends
        is_complete(bytes),
{
    ChunkView { chunk_type: type_field(bytes), data: data_field(bytes) }
}

/// What decoding a buffer gives: a buffer too short for what it declares is
/// truncated; a complete one whose checksum differs from the one computed
/// over its type code and payload is corrupt; any other holds a chunk. Bytes
/// behind the record are not looked at.
pub open spec fn decode(bytes: Seq<u8>) -> Result<ChunkView, Error> {
    if !is_complete(bytes) {
        Err(Error::TruncatedInput)
    } else if framed(bytes).crc() != crc_field(bytes) {
        Err(Error::IntegrityError)
    } else {
        Ok(framed(bytes))
    }
}

/// The fields of a record are the parts it was written from.
pub proof fn lemma_record_fields(chunk_type: Seq<u8>, data: Seq<u8>, crc: u32)
    requires
        chunk_type.len() == 4,
        data.len() <= u32::MAX,
    ensures
        record(chunk_type, data, crc).len() == 12 + data.len(),
        is_complete(record(chunk_type, data, crc)),
        declared_len(record(chunk_type, data, crc)) == data.len(),
        type_field(record(chunk_type, data, crc)) == chunk_type,
        data_field(record(chunk_type, data, crc)) == data,
        crc_field(record(chunk_type, data, crc)) == crc,
{
    let r = record(chunk_type, data, crc);
    let n = data.len() as u32;
    lemma_be_bytes_then_u32(n);
    lemma_be_bytes_then_u32(crc);
    assert(r.subrange(0, 4) =~= be_bytes(n));
    assert(r.subrange(4, 8) =~= chunk_type);
    assert(r.subrange(8, 8 + n) =~= data);
    assert(r.subrange(8 + n, 12 + n) =~= be_bytes(crc));
}

/// Decoding the record of a chunk gives the chunk back.
pub proof fn lemma_decode_encode(v: ChunkView)
    requires
        v.well_formed(),
    ensures
        decode(encode(v)) == Ok::<ChunkView, Error>(v),
{
    lemma_record_fields(v.chunk_type, v.data, v.crc());
}

/// Whatever decodes to a chunk starts with that chunk's record, and the
/// chunk is well formed.
pub proof fn lemma_encode_decode(bytes: Seq<u8>, v: ChunkView)
    requires
        decode(bytes) == Ok::<ChunkView, Error>(v),
    ensures
        v.well_formed(),
        12 + v.data.len() <= bytes.len(),
        encode(v) == bytes.take(12 + v.data.len() as int),
{
    let n = declared_len(bytes);
    lemma_be_u32_then_bytes(bytes.subrange(0, 4));
    lemma_be_u32_then_bytes(bytes.subrange(8 + n, 12 + n));
    assert(encode(v) =~= bytes.take(12 + n));
}

/// `bytes` with bit `bit` of the byte at `at` inverted.
pub open spec fn flip_bit(bytes: Seq<u8>, at: int, bit: u8) -> Seq<u8>
    recommends
        0 <= at < bytes.len(),
        bit < 8,
{
    bytes.update(at, bytes[at] ^ (1u8 << bit))
}

/// Inverting a bit changes the byte.
pub proof fn lemma_flip_changes_byte(b: u8, bit: u8)
    requires
        bit < 8,
    ensures
        b ^ (1u8 << bit) != b,
{
    assert(bit < 8 ==> b ^ (1u8 << bit) != b) by (bit_vector);
}

/// A bit inverted in the type code or the payload of a record leaves the
/// record complete, with the stored checksum untouched and a different
/// message under it. Decoding then fails as corrupt, unless the damaged
/// message happens to have the checksum of the sound one; in that one case
/// the damaged chunk is accepted.
pub proof fn lemma_flip_in_message(v: ChunkView, at: int, bit: u8)
    requires
        v.well_formed(),
        4 <= at < 8 + v.data.len(),
        bit < 8,
    ensures
        is_complete(flip_bit(encode(v), at, bit)),
        crc_field(flip_bit(encode(v), at, bit)) == v.crc(),
        framed(flip_bit(encode(v), at, bit)).message() == flip_bit(v.message(), at - 4, bit),
        framed(flip_bit(encode(v), at, bit)).message() != v.message(),
        framed(flip_bit(encode(v), at, bit)).crc() != v.crc() ==> decode(
            flip_bit(encode(v), at, bit),
        ) == Err::<ChunkView, Error>(Error::IntegrityError),
        framed(flip_bit(encode(v), at, bit)).crc() == v.crc() ==> decode(
            flip_bit(encode(v), at, bit),
        ) == Ok::<ChunkView, Error>(framed(flip_bit(encode(v), at, bit))),
{
    let r = encode(v);
    let d = flip_bit(r, at, bit);
    let n = v.data.len() as int;
    lemma_record_fields(v.chunk_type, v.data, v.crc());
    lemma_flip_changes_byte(r[at], bit);
    assert(d.subrange(0, 4) =~= r.subrange(0, 4));
    assert(d.subrange(8 + n, 12 + n) =~= r.subrange(8 + n, 12 + n));
    let m = framed(d).message();
    assert(m =~= d.subrange(4, 8 + n));
    assert(v.message() =~= r.subrange(4, 8 + n));
    assert(m =~= flip_bit(v.message(), at - 4, bit));
    assert(m[at - 4] != v.message()[at - 4]);
}

/// A bit inverted in the stored checksum of a record always makes decoding
/// fail as corrupt.
pub proof fn lemma_flip_in_crc(v: ChunkView, at: int, bit: u8)
    requires
        v.well_formed(),
        8 + v.data.len() <= at < 12 + v.data.len(),
        bit < 8,
    ensures
        decode(flip_bit(encode(v), at, bit)) == Err::<ChunkView, Error>(Error::IntegrityError),
{
    let r = encode(v);
    let d = flip_bit(r, at, bit);
    let n = v.data.len() as int;
    lemma_record_fields(v.chunk_type, v.data, v.crc());
    lemma_flip_changes_byte(r[at], bit);
    assert(d.subrange(0, 4) =~= r.subrange(0, 4));
    assert(d.subrange(4, 8) =~= r.subrange(4, 8));
    assert(d.subrange(8, 8 + n) =~= r.subrange(8, 8 + n));
    let stored = d.subrange(8 + n, 12 + n);
    let sound = r.subrange(8 + n, 12 + n);
    assert(stored[at - 8 - n] != sound[at - 8 - n]);
    if be_u32(stored) == be_u32(sound) {
        lemma_be_u32_injective(stored, sound);
    }
}

/// A bit inverted in the length field of a record makes it declare another
/// length. A longer one makes the record truncated. A shorter one frames
/// a proper prefix of the payload and reads the checksum out of the old
/// payload: decoding then fails as corrupt unless those four bytes happen to
/// spell the prefix's checksum. The chunk that was written never comes back.
pub proof fn lemma_flip_in_length(v: ChunkView, at: int, bit: u8)
    requires
        v.well_formed(),
        0 <= at < 4,
        bit < 8,
    ensures
        declared_len(flip_bit(encode(v), at, bit)) != v.data.len(),
        declared_len(flip_bit(encode(v), at, bit)) > v.data.len() ==> decode(
            flip_bit(encode(v), at, bit),
        ) == Err::<ChunkView, Error>(Error::TruncatedInput),
        declared_len(flip_bit(encode(v), at, bit)) < v.data.len() ==> {
            &&& is_complete(flip_bit(encode(v), at, bit))
            &&& framed(flip_bit(encode(v), at, bit)).chunk_type == v.chunk_type
            &&& framed(flip_bit(encode(v), at, bit)).data == v.data.take(
                declared_len(flip_bit(encode(v), at, bit)),
            )
        },
        decode(flip_bit(encode(v), at, bit)) != Ok::<ChunkView, Error>(v),
{
    let r = encode(v);
    let d = flip_bit(r, at, bit);
    let n = v.data.len() as int;
    lemma_record_fields(v.chunk_type, v.data, v.crc());
    lemma_flip_changes_byte(r[at], bit);
    let declared = d.subrange(0, 4);
    let sound = r.subrange(0, 4);
    assert(declared[at] != sound[at]);
    if be_u32(declared) == be_u32(sound) {
        lemma_be_u32_injective(declared, sound);
    }
    let k = declared_len(d);
    if k < n {
        assert(d.subrange(4, 8) =~= r.subrange(4, 8));
        assert(d.subrange(8, 8 + k) =~= v.data.take(k));
    }
}

/// Reads the big-endian number at offset `at`.
pub fn read_be_u32(bytes: &[u8], at: usize) -> (x: u32)
    requires
        at + 4 <= bytes@.len(),
    ensures
        x == be_u32(bytes@.subrange(at as int, at + 4)),
{
    let b0: u32 = bytes[at] as u32;
    let b1: u32 = bytes[at + 1] as u32;
    let b2: u32 = bytes[at + 2] as u32;
    let b3: u32 = bytes[at + 3] as u32;
    b0 * 0x100_0000 + b1 * 0x1_0000 + b2 * 0x100 + b3
}

/// Appends `x` as four bytes, most significant first.
pub fn push_be_u32(out: &mut Vec<u8>, x: u32)
    ensures
        final(out)@ == old(out)@ + be_bytes(x),
{
    out.push((x / 0x100_0000) as u8);
    out.push((x / 0x1_0000 % 0x100) as u8);
    out.push((x / 0x100 % 0x100) as u8);
    out.push((x % 0x100) as u8);
    assert(out@ =~= old(out)@ + be_bytes(x));
}

/// Takes a buffer apart into type code, payload and stored checksum, without
/// judging the checksum. Fails exactly when the buffer is shorter than the
/// header, the payload it declares and the checksum together.
pub fn split_record(bytes: &[u8]) -> (r: Result<(ChunkType, Vec<u8>, u32), Error>)
    ensures
        match r {
            Ok((chunk_type, data, crc)) => {
                &&& is_complete(bytes@)
                &&& chunk_type@ == type_field(bytes@)
                &&& data@ == data_field(bytes@)
                &&& crc == crc_field(bytes@)
            },
            Err(e) => !is_complete(bytes@) && e == Error::TruncatedInput,
        },
{
    if bytes.len() < FRAME_LEN {
        return Err(Error::TruncatedInput);
    }
    let length: usize = read_be_u32(bytes, 0) as usize;
    if bytes.len() - FRAME_LEN < length {
        return Err(Error::TruncatedInput);
    }
    let code: [u8; 4] = [bytes[4], bytes[5], bytes[6], bytes[7]];
    let chunk_type = match ChunkType::try_from(code) {
        Ok(t) => t,
        Err(e) => {
            return Err(e);
        },
    };
    let data = slice_to_vec(slice_subrange(bytes, HEADER_LEN, HEADER_LEN + length));
    let crc = read_be_u32(bytes, HEADER_LEN + length);
    assert(chunk_type@ =~= type_field(bytes@));
    Ok((chunk_type, data, crc))
}

/// Writes the record of a payload under a type code, closed by `crc`.
pub fn write_record(chunk_type: ChunkType, data: &[u8], crc: u32) -> (out: Vec<u8>)
    requires
        data@.len() <= u32::MAX,
    ensures
        out@ == record(chunk_type@, data@, crc),
{
    let code = chunk_type.bytes();
    let mut out: Vec<u8> = Vec::new();
    push_be_u32(&mut out, data.len() as u32);
    out.extend_from_slice(code.as_slice());
    assert(out@ =~= be_bytes(data@.len() as u32) + chunk_type@);
    out.extend_from_slice(data);
    assert(out@ =~= be_bytes(data@.len() as u32) + chunk_type@ + data@);
    push_be_u32(&mut out, crc);
    out
}

} // verus!
