//! A chunk: a type tag and a payload, with its wire form
//! `length (4 bytes, big-endian) ++ tag ++ payload ++ CRC-32 (4 bytes, big-endian)`.

use crate::chunk_type::{tag_valid, ChunkType};
use crate::text::{decimal, decimal_text, utf8_to_string};
use vstd::prelude::*;
use vstd::string::StringExecFns;
use vstd::utf8::{decode_utf8, valid_utf8};

verus! {

/// The IEEE CRC-32 (the one of PNG and zlib) of a byte sequence.
pub uninterp spec fn crc32_ieee(b: Seq<u8>) -> u32;

/// Relies on `crc::crc32::checksum_ieee`: the IEEE CRC-32 of the bytes, which
/// depends on the bytes alone.
#[verifier::external_body]
fn checksum_ieee(b: &[u8]) -> (r: u32)
    ensures
        r == crc32_ieee(b@),
{
    crc::crc32::checksum_ieee(b)
}

/// The four bytes of `x`, most significant first.
pub open spec fn be32(x: u32) -> Seq<u8> {
    seq![(x >> 24u32) as u8, (x >> 16u32) as u8, (x >> 8u32) as u8, x as u8]
}

/// The number whose big-endian bytes are the first four of `b`.
pub open spec fn be32_value(b: Seq<u8>) -> u32 {
    ((b[0] as u32) << 24u32) | ((b[1] as u32) << 16u32) | ((b[2] as u32) << 8u32) | (b[3] as u32)
}

/// The bytes before and after the payload: length, tag and CRC, four bytes each.
pub const METADATA_BYTES: usize = 12;

/// The wire form of a chunk with tag `t` and payload `d`.
pub open spec fn wire(t: Seq<u8>, d: Seq<u8>) -> Seq<u8> {
    be32(d.len() as u32) + t + d + be32(crc32_ieee(t + d))
}

/// Why bytes could not become a chunk.
#[derive(Debug, Clone, Copy, PartialEq, Eq, Structural)]
pub enum ChunkError {
    /// Fewer bytes than the 12 of length, tag and CRC, or than those and the
    /// payload length that the input declares.
    InputTooSmall,
    /// The stored CRC (first) differs from the one computed over tag and payload (second).
    InvalidCrc(u32, u32),
    /// The tag bytes are not a valid tag.
    InvalidChunkType,
}

/// The payload is not UTF-8.
#[derive(Debug, Clone, Copy, PartialEq, Eq, Structural)]
pub struct EncodingError;

impl ChunkError {
    /// A message that describes the error.
    pub fn to_string(&self) -> (r: String)
        ensures
            r@ == match self {
                ChunkError::InputTooSmall =>
                    "At least 12 bytes must be supplied to construct a chunk"@,
                ChunkError::InvalidCrc(expected, actual) =>
                    "Invalid CRC when constructing chunk. Expected "@ + decimal(*expected as nat)
                        + " but found "@ + decimal(*actual as nat),
                ChunkError::InvalidChunkType => "Invalid chunk type"@,
            },
    {
        match self {
            ChunkError::InputTooSmall => String::from_str(
                "At least 12 bytes must be supplied to construct a chunk",
            ),
            ChunkError::InvalidCrc(expected, actual) => {
                let mut s = String::from_str("Invalid CRC when constructing chunk. Expected ");
                s.append(decimal_text(*expected as u64).as_str());
                s.append(" but found ");
                s.append(decimal_text(*actual as u64).as_str());
                s
            },
            ChunkError::InvalidChunkType => String::from_str("Invalid chunk type"),
        }
    }
}

/// What parsing `b` gives: the tag and the payload, or the error.
///
/// The payload is as long as the length field says; bytes after the CRC are ignored.
pub open spec fn parse_spec(b: Seq<u8>) -> Result<(Seq<u8>, Seq<u8>), ChunkError> {
    if b.len() < 12 {
        Err(ChunkError::InputTooSmall)
    } else if !tag_valid(b.subrange(4, 8)) {
        Err(ChunkError::InvalidChunkType)
    } else {
        let n = be32_value(b) as int;
        if b.len() < 12 + n {
            Err(ChunkError::InputTooSmall)
        } else {
            let stored = be32_value(b.subrange(8 + n, 12 + n));
            let computed = crc32_ieee(b.subrange(4, 8 + n));
            if stored != computed {
                Err(ChunkError::InvalidCrc(stored, computed))
            } else {
                Ok((b.subrange(4, 8), b.subrange(8, 8 + n)))
            }
        }
    }
}

/// A typed record: a tag and a payload.
#[derive(Debug)]
pub struct Chunk {
    chunk_type: ChunkType,
    data: Vec<u8>,
}

impl View for Chunk {
    /// The tag bytes and the payload.
    type V = (Seq<u8>, Seq<u8>);

    closed spec fn view(&self) -> (Seq<u8>, Seq<u8>) {
        (self.chunk_type@, self.data@)
    }
}

/// A parse result as tag and payload, or the error.
pub open spec fn outcome(r: Result<Chunk, ChunkError>) -> Result<(Seq<u8>, Seq<u8>), ChunkError> {
    match r {
        Ok(c) => Ok(c@),
        Err(e) => Err(e),
    }
}

fn read_be32(b: &[u8], at: usize) -> (r: u32)
    requires
        at + 4 <= b@.len(),
    ensures
        r == be32_value(b@.subrange(at as int, at + 4)),
{
    ((b[at] as u32) << 24u32) | ((b[at + 1] as u32) << 16u32) | ((b[at + 2] as u32) << 8u32) | (
    b[at + 3] as u32)
}

fn push_be32(v: &mut Vec<u8>, x: u32)
    ensures
        final(v)@ == old(v)@ + be32(x),
{
    v.push((x >> 24u32) as u8);
    v.push((x >> 16u32) as u8);
    v.push((x >> 8u32) as u8);
    v.push(x as u8);
    assert(final(v)@ =~= old(v)@ + be32(x));
}

fn push_all(v: &mut Vec<u8>, b: &[u8])
    ensures
        final(v)@ == old(v)@ + b@,
{
    let mut i: usize = 0;
    while i < b.len()
        invariant
            i <= b@.len(),
            v@ == old(v)@ + b@.subrange(0, i as int),
        decreases b@.len() - i,
    {
        v.push(b[i]);
        i = i + 1;
        assert(v@ =~= old(v)@ + b@.subrange(0, i as int));
    }
    assert(b@.subrange(0, b@.len() as int) =~= b@);
}

impl Chunk {
    /// A chunk of the given tag and payload; the tag is not checked.
    pub fn new(chunk_type: ChunkType, data: Vec<u8>) -> (r: Chunk)
        ensures
            r@ == (chunk_type@, data@),
    {
        Chunk { chunk_type, data }
    }

    /// The number of payload bytes.
    pub fn length(&self) -> (r: usize)
        ensures
            r == self@.1.len(),
    {
        self.data.len()
    }

    /// The tag.
    pub fn chunk_type(&self) -> (r: &ChunkType)
        ensures
            r@ == self@.0,
    {
        &self.chunk_type
    }

    /// The payload.
    pub fn data(&self) -> (r: &[u8])
        ensures
            r@ == self@.1,
    {
        self.data.as_slice()
    }

    /// The payload as text, when it is UTF-8.
    pub fn data_as_string(&self) -> (r: Result<String, EncodingError>)
        ensures
            r is Ok <==> valid_utf8(self@.1),
            r matches Ok(s) ==> s@ == decode_utf8(self@.1),
    {
        match utf8_to_string(self.data.as_slice()) {
            Some(s) => Ok(s),
            None => Err(EncodingError),
        }
    }

    /// The CRC-32 of the tag bytes followed by the payload, computed afresh.
    pub fn crc(&self) -> (r: u32)
        ensures
            r == crc32_ieee(self@.0 + self@.1),
    {
        let mut bytes: Vec<u8> = Vec::new();
        push_all(&mut bytes, self.chunk_type.bytes().as_slice());
        push_all(&mut bytes, self.data.as_slice());
        assert(bytes@ =~= self@.0 + self@.1);
        checksum_ieee(bytes.as_slice())
    }

    /// The wire form: length, tag, payload and CRC.
    pub fn as_bytes(&self) -> (r: Vec<u8>)
        requires
            self@.1.len() <= u32::MAX,
        ensures
            r@ == wire(self@.0, self@.1),
            r@.len() == 12 + self@.1.len(),
    {
        let mut out: Vec<u8> = Vec::new();
        push_be32(&mut out, self.data.len() as u32);
        push_all(&mut out, self.chunk_type.bytes().as_slice());
        push_all(&mut out, self.data.as_slice());
        let crc = self.crc();
        push_be32(&mut out, crc);
        proof {
            self.chunk_type.lemma_len();
            assert(out@ =~= wire(self@.0, self@.1));
        }
        out
    }

    /// The chunk at the start of `value`, checked: tag valid, CRC matching.
    pub fn try_from(value: &[u8]) -> (r: Result<Chunk, ChunkError>)
        ensures
            outcome(r) == parse_spec(value@),
    {
        if value.len() < METADATA_BYTES {
            return Err(ChunkError::InputTooSmall);
        }
        let n = read_be32(value, 0);
        assert(value@.subrange(0, 4)[0] == value@[0]);
        assert(be32_value(value@.subrange(0, 4)) == be32_value(value@));
        let chunk_type = match ChunkType::try_from([value[4], value[5], value[6], value[7]]) {
            Ok(t) => t,
            Err(_) => return Err(ChunkError::InvalidChunkType),
        };
        assert(chunk_type@ =~= value@.subrange(4, 8));
        if !chunk_type.is_valid() {
            return Err(ChunkError::InvalidChunkType);
        }
        let n = n as usize;
        if value.len() - METADATA_BYTES < n {
            return Err(ChunkError::InputTooSmall);
        }
        let mut data: Vec<u8> = Vec::new();
        let mut i: usize = 0;
        while i < n
            invariant
                i <= n,
                8 + n + 4 <= value@.len(),
                value@.len() == value.len(),
                data@ == value@.subrange(8, 8 + i),
            decreases n - i,
        {
            data.push(value[8 + i]);
            i = i + 1;
            assert(data@ =~= value@.subrange(8, 8 + i));
        }
        let chunk = Chunk { chunk_type, data };
        let actual = chunk.crc();
        let expected = read_be32(value, 8 + n);
        assert(chunk@.0 + chunk@.1 =~= value@.subrange(4, 8 + n as int));
        if expected != actual {
            return Err(ChunkError::InvalidCrc(expected, actual));
        }
        Ok(chunk)
    }
}

impl Chunk {
    /// A summary of the chunk: length, tag, payload size and CRC, one per line;
    /// for a chunk whose tag bytes are UTF-8.
    pub fn to_string(&self) -> (r: String)
        requires
            valid_utf8(self@.0),
        ensures
            r@ == "Chunk {\n  Length: "@ + decimal(self@.1.len()) + "\n  Type: "@ + decode_utf8(
                self@.0,
            ) + "\n  Data: "@ + decimal(self@.1.len()) + " bytes\n  Crc: "@ + decimal(
                crc32_ieee(self@.0 + self@.1) as nat,
            ) + "\n}\n"@,
    {
        let mut s = String::from_str("Chunk {\n  Length: ");
        s.append(decimal_text(self.length() as u64).as_str());
        s.append("\n  Type: ");
        s.append(self.chunk_type.to_string().as_str());
        s.append("\n  Data: ");
        s.append(decimal_text(self.data.len() as u64).as_str());
        s.append(" bytes\n  Crc: ");
        s.append(decimal_text(self.crc() as u64).as_str());
        s.append("\n}\n");
        s
    }
}

impl PartialEq for Chunk {
    fn eq(&self, o: &Chunk) -> (r: bool) {
        if self.chunk_type != o.chunk_type || self.data.len() != o.data.len() {
            return false;
        }
        let mut i: usize = 0;
        while i < self.data.len()
            invariant
                self.data@.len() == o.data@.len(),
                i <= self.data@.len(),
                self.data@.subrange(0, i as int) == o.data@.subrange(0, i as int),
            decreases self.data@.len() - i,
        {
            if self.data[i] != o.data[i] {
                assert(self.data@.subrange(0, i + 1)[i as int] != o.data@.subrange(0, i + 1)[i as int]);
                return false;
            }
            assert(self.data@.subrange(0, i + 1) =~= self.data@.subrange(0, i as int).push(self.data@[i as int]));
            assert(o.data@.subrange(0, i + 1) =~= o.data@.subrange(0, i as int).push(o.data@[i as int]));
            i = i + 1;
        }
        assert(self.data@ =~= self.data@.subrange(0, i as int));
        assert(o.data@ =~= o.data@.subrange(0, i as int));
        true
    }
}

impl vstd::std_specs::cmp::PartialEqSpecImpl for Chunk {
    open spec fn obeys_eq_spec() -> bool {
        true
    }

    open spec fn eq_spec(&self, o: &Chunk) -> bool {
        self@ == o@
    }
}

proof fn lemma_be32_value_of_be32(x: u32)
    ensures
        be32_value(be32(x)) == x,
{
    assert((((((x >> 24u32) as u8) as u32) << 24u32) | ((((x >> 16u32) as u8) as u32) << 16u32)
        | ((((x >> 8u32) as u8) as u32) << 8u32) | ((x as u8) as u32)) == x) by (bit_vector);
}

proof fn lemma_be32_of_be32_value(b: Seq<u8>)
    requires
        b.len() == 4,
    ensures
        be32(be32_value(b)) == b,
{
    let (b0, b1, b2, b3) = (b[0], b[1], b[2], b[3]);
    let x = be32_value(b);
    assert(x == ((b0 as u32) << 24u32) | ((b1 as u32) << 16u32) | ((b2 as u32) << 8u32) | (
    b3 as u32));
    assert((x >> 24u32) as u8 == b0 && (x >> 16u32) as u8 == b1 && (x >> 8u32) as u8 == b2 && x as u8
        == b3) by (bit_vector)
        requires
            x == ((b0 as u32) << 24u32) | ((b1 as u32) << 16u32) | ((b2 as u32) << 8u32) | (
            b3 as u32),
    ;
    assert(be32(x) =~= b);
}

/// How the wire form of a chunk splits into its fields.
proof fn lemma_wire_fields(t: Seq<u8>, d: Seq<u8>)
    requires
        t.len() == 4,
        d.len() <= u32::MAX,
    ensures
        ({
            let w = wire(t, d);
            let n = d.len() as int;
            &&& w.len() == 12 + n
            &&& be32_value(w) == n
            &&& w.subrange(4, 8) == t
            &&& w.subrange(8, 8 + n) == d
            &&& w.subrange(4, 8 + n) == t + d
            &&& w.subrange(8 + n, 12 + n) == be32(crc32_ieee(t + d))
        }),
{
    let w = wire(t, d);
    let n = d.len() as int;
    lemma_be32_value_of_be32(n as u32);
    assert(w.subrange(0, 4) =~= be32(n as u32));
    assert(be32_value(w) == be32_value(w.subrange(0, 4)));
    assert(w.subrange(4, 8) =~= t);
    assert(w.subrange(8, 8 + n) =~= d);
    assert(w.subrange(4, 8 + n) =~= t + d);
    assert(w.subrange(8 + n, 12 + n) =~= be32(crc32_ieee(t + d)));
}

/// The wire form of a chunk is 12 bytes longer than its payload.
pub proof fn lemma_wire_length(t: Seq<u8>, d: Seq<u8>)
    requires
        t.len() == 4,
    ensures
        wire(t, d).len() == 12 + d.len(),
{
}

/// Parsing the wire form of a chunk with a valid tag gives back that tag and payload.
pub proof fn lemma_round_trip(t: Seq<u8>, d: Seq<u8>)
    requires
        tag_valid(t),
        d.len() <= u32::MAX,
    ensures
        parse_spec(wire(t, d)) == Ok::<(Seq<u8>, Seq<u8>), ChunkError>((t, d)),
{
    lemma_wire_fields(t, d);
    lemma_be32_value_of_be32(crc32_ieee(t + d));
}

/// Input shorter than 12 bytes is rejected as too small.
pub proof fn lemma_short_input(b: Seq<u8>)
    requires
        b.len() < 12,
    ensures
        parse_spec(b) == Err::<(Seq<u8>, Seq<u8>), ChunkError>(ChunkError::InputTooSmall),
{
}

/// Changing one byte of the CRC field in the wire form of a chunk with a valid
/// tag makes parsing fail with a CRC mismatch; the computed CRC is the one of
/// the unchanged tag and payload, and the stored one differs from it.
pub proof fn lemma_corrupted_trailer(t: Seq<u8>, d: Seq<u8>, i: int, v: u8)
    requires
        tag_valid(t),
        d.len() <= u32::MAX,
        0 <= i < 4,
        v != wire(t, d)[8 + d.len() + i],
    ensures
        parse_spec(wire(t, d).update(8 + d.len() + i, v)) matches Err(
            ChunkError::InvalidCrc(stored, computed),
        ) && stored != computed && computed == crc32_ieee(t + d),
{
    let w = wire(t, d);
    let n = d.len() as int;
    let b = w.update(8 + n + i, v);
    let c = crc32_ieee(t + d);
    lemma_wire_fields(t, d);
    assert(b.subrange(4, 8) =~= w.subrange(4, 8));
    assert(b.subrange(4, 8 + n) =~= w.subrange(4, 8 + n));
    assert(be32_value(b) == be32_value(w));
    let trailer = b.subrange(8 + n, 12 + n);
    assert(trailer =~= be32(c).update(i, v));
    if be32_value(trailer) == c {
        lemma_be32_of_be32_value(trailer);
        assert(trailer[i] != be32(c)[i]);
    }
}

/// Changing one byte of the tag or payload in the wire form of a chunk with a
/// valid tag, so that the tag stays valid, makes parsing fail with a CRC
/// mismatch whenever the CRC of the changed tag and payload differs from the
/// original one; the mismatch carries the stored (original) CRC and the new one.
pub proof fn lemma_changed_content(t: Seq<u8>, d: Seq<u8>, p: int, v: u8)
    requires
        tag_valid(t),
        d.len() <= u32::MAX,
        4 <= p < 8 + d.len(),
        tag_valid(wire(t, d).update(p, v).subrange(4, 8)),
    ensures
        ({
            let b = wire(t, d).update(p, v);
            let changed = crc32_ieee(b.subrange(4, 8 + d.len() as int));
            changed != crc32_ieee(t + d) ==> parse_spec(b) == Err::<
                (Seq<u8>, Seq<u8>),
                ChunkError,
            >(ChunkError::InvalidCrc(crc32_ieee(t + d), changed))
        }),
{
    let w = wire(t, d);
    let n = d.len() as int;
    let b = w.update(p, v);
    lemma_wire_fields(t, d);
    lemma_be32_value_of_be32(crc32_ieee(t + d));
    assert(be32_value(b) == be32_value(w));
    assert(b.subrange(8 + n, 12 + n) =~= w.subrange(8 + n, 12 + n));
}

} // verus!
