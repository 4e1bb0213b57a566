use crate::checksum::{crc32, crc32_iso_hdlc};
use crate::chunk_type::{
    lemma_type_of_bytes_ok, type_of_bytes, valid_type_bytes, ChunkType,
};
use crate::error::{ChunkError, Field};
use crate::text::{
    decimal_string, decimal_text, hex_string, hex_text, latin_text, string_from_utf8,
};
use vstd::prelude::*;
use vstd::string::StringExecFns;
use vstd::utf8::{decode_utf8, valid_utf8};

verus! {

/// A declared data length must stay below this bound, 2^31.
pub const LENGTH_LIMIT: u32 = 0x8000_0000;

/// The bytes a chunk spends besides its data: length, type and checksum.
pub const FRAME_OVERHEAD: usize = 12;

/// The four bytes of `x`, most significant first.
pub open spec fn be_bytes(x: u32) -> Seq<u8> {
    seq![
        ((x >> 24) & 0xff) as u8,
        ((x >> 16) & 0xff) as u8,
        ((x >> 8) & 0xff) as u8,
        (x & 0xff) as u8,
    ]
}

/// The number that four bytes spell, most significant first.
pub open spec fn be_value(b0: u8, b1: u8, b2: u8, b3: u8) -> u32 {
    ((b0 as u32) << 24) | ((b1 as u32) << 16) | ((b2 as u32) << 8) | (b3 as u32)
}

/// The big-endian number in the four bytes of `s` from position `at` on.
pub open spec fn be_u32_at(s: Seq<u8>, at: int) -> u32 {
    be_value(s[at], s[at + 1], s[at + 2], s[at + 3])
}

/// Reading back the big-endian bytes of a number gives the number.
pub proof fn lemma_be_bytes_value(x: u32)
    ensures
        be_bytes(x).len() == 4,
        be_u32_at(be_bytes(x), 0) == x,
{
    assert(be_value(
        ((x >> 24) & 0xff) as u8,
        ((x >> 16) & 0xff) as u8,
        ((x >> 8) & 0xff) as u8,
        (x & 0xff) as u8,
    ) == x) by (bit_vector);
}

/// Two groups of four bytes that spell the same number are the same bytes.
pub proof fn lemma_be_value_injective(a0: u8, a1: u8, a2: u8, a3: u8, b0: u8, b1: u8, b2: u8, b3: u8)
    requires
        be_value(a0, a1, a2, a3) == be_value(b0, b1, b2, b3),
    ensures
        a0 == b0 && a1 == b1 && a2 == b2 && a3 == b3,
{
    assert(be_value(a0, a1, a2, a3) == be_value(b0, b1, b2, b3) ==> a0 == b0 && a1 == b1 && a2
        == b2 && a3 == b3) by (bit_vector);
}

/// What a chunk is: its type code and its data. Length and checksum follow from these.
pub struct ChunkModel {
    pub chunk_type: Seq<u8>,
    pub data: Seq<u8>,
}

impl ChunkModel {
    /// Four letters of type, and data shorter than 2^31 bytes.
    pub open spec fn well_formed(self) -> bool {
        valid_type_bytes(self.chunk_type) && self.data.len() < LENGTH_LIMIT
    }

    /// The checksum over the type code followed by the data.
    pub open spec fn crc(self) -> u32 {
        crc32_iso_hdlc(self.chunk_type + self.data)
    }

    /// The wire form: length, type, data, checksum.
    pub open spec fn encode(self) -> Seq<u8> {
        frame(self.chunk_type, self.data, self.crc())
    }
}

/// The wire form of a chunk with the given checksum field.
pub open spec fn frame(chunk_type: Seq<u8>, data: Seq<u8>, crc: u32) -> Seq<u8> {
    be_bytes(data.len() as u32) + chunk_type + data + be_bytes(crc)
}

/// How the text of a payload reads: as UTF-8 where it is well formed, else in hex.
pub open spec fn data_text(data: Seq<u8>) -> Seq<char> {
    if valid_utf8(data) {
        decode_utf8(data)
    } else {
        hex_text(data)
    }
}

/// The line that describes a chunk for a reader: length, type, data as text, checksum.
pub open spec fn display_text(m: ChunkModel) -> Seq<char> {
    "Length: "@ + decimal_text(m.data.len() as u32) + ", Chunk type: "@ + latin_text(m.chunk_type)
        + ", Data: "@ + data_text(m.data) + ", Crc: "@ + decimal_text(m.crc())
}

/// The outcome of comparing the checksum on the wire with the computed one.
pub open spec fn crc_verdict(stored: u32, calculated: u32) -> Result<u32, ChunkError> {
    if stored == calculated {
        Ok(calculated)
    } else {
        Err(ChunkError::CrcMismatch { stored, calculated })
    }
}

/// What parsing one chunk from the front of `bytes` gives. The checks come in
/// wire order and the first that fails decides; bytes after the chunk are ignored.
pub open spec fn parse_chunk(bytes: Seq<u8>) -> Result<ChunkModel, ChunkError> {
    if bytes.len() < 4 {
        Err(ChunkError::Truncated(Field::Length))
    } else {
        let n = be_u32_at(bytes, 0);
        if n >= LENGTH_LIMIT {
            Err(ChunkError::LengthOverflow)
        } else if bytes.len() < 8 {
            Err(ChunkError::Truncated(Field::Type))
        } else {
            match type_of_bytes(bytes.subrange(4, 8)) {
                Err(e) => Err(e),
                Ok(t) => if bytes.len() < 8 + n {
                    Err(ChunkError::Truncated(Field::Data))
                } else if bytes.len() < 12 + n {
                    Err(ChunkError::Truncated(Field::Crc))
                } else {
                    let m = ChunkModel { chunk_type: t, data: bytes.subrange(8, 8 + n) };
                    match crc_verdict(be_u32_at(bytes, 8 + n), m.crc()) {
                        Err(e) => Err(e),
                        Ok(_) => Ok(m),
                    }
                },
            }
        }
    }
}

/// A length-prefixed, typed and checksummed record.
#[derive(Debug)]
pub struct Chunk {
    data_length: u32,
    chunk_type: ChunkType,
    data: Vec<u8>,
    crc: u32,
}

impl View for Chunk {
    type V = ChunkModel;

    closed spec fn view(&self) -> ChunkModel {
        ChunkModel { chunk_type: self.chunk_type@, data: self.data@ }
    }
}

/// The big-endian bytes of a number.
pub fn u32_to_be(x: u32) -> (r: [u8; 4])
    ensures
        r@ == be_bytes(x),
{
    proof {
        assert(((x >> 24) & 0xff) <= 0xff) by (bit_vector);
        assert(((x >> 16) & 0xff) <= 0xff) by (bit_vector);
        assert(((x >> 8) & 0xff) <= 0xff) by (bit_vector);
        assert((x & 0xff) <= 0xff) by (bit_vector);
    }
    let r: [u8; 4] = [
        ((x >> 24) & 0xff) as u8,
        ((x >> 16) & 0xff) as u8,
        ((x >> 8) & 0xff) as u8,
        (x & 0xff) as u8,
    ];
    assert(r@ =~= be_bytes(x));
    r
}

/// The big-endian number at a position of a buffer.
pub fn u32_from_be(bytes: &[u8], at: usize) -> (r: u32)
    requires
        at + 4 <= bytes@.len(),
    ensures
        r == be_u32_at(bytes@, at as int),
{
    let b0: u8 = bytes[at];
    let b1: u8 = bytes[at + 1];
    let b2: u8 = bytes[at + 2];
    let b3: u8 = bytes[at + 3];
    ((b0 as u32) << 24) | ((b1 as u32) << 16) | ((b2 as u32) << 8) | (b3 as u32)
}

/// Appends a slice to a vector.
pub(crate) fn append_bytes(out: &mut Vec<u8>, src: &[u8])
    ensures
        final(out)@ == old(out)@ + src@,
{
    let mut i: usize = 0;
    while i < src.len()
        invariant
            i <= src@.len(),
            out@ == old(out)@ + src@.subrange(0, i as int),
        decreases src@.len() - i,
    {
        out.push(src[i]);
        i += 1;
        assert(out@ =~= old(out)@ + src@.subrange(0, i as int));
    }
    assert(src@.subrange(0, i as int) =~= src@);
}

/// Copies a part of a buffer into a vector of its own.
pub(crate) fn copy_range(bytes: &[u8], from: usize, to: usize) -> (r: Vec<u8>)
    requires
        from <= to <= bytes@.len(),
    ensures
        r@ == bytes@.subrange(from as int, to as int),
{
    let mut out: Vec<u8> = Vec::new();
    let mut i: usize = from;
    while i < to
        invariant
            from <= i <= to <= bytes@.len(),
            out@ == bytes@.subrange(from as int, i as int),
        decreases to - i,
    {
        out.push(bytes[i]);
        i += 1;
        assert(out@ =~= bytes@.subrange(from as int, i as int));
    }
    out
}

/// Lays out the wire form of a chunk from its parts.
pub fn encode_frame(chunk_type: &ChunkType, data: &[u8], crc: u32) -> (r: Vec<u8>)
    requires
        data@.len() < LENGTH_LIMIT,
    ensures
        r@ == frame(chunk_type@, data@, crc),
{
    let mut out: Vec<u8> = Vec::new();
    let length: u32 = data.len() as u32;
    append_bytes(&mut out, u32_to_be(length).as_slice());
    append_bytes(&mut out, chunk_type.bytes().as_slice());
    append_bytes(&mut out, data);
    append_bytes(&mut out, u32_to_be(crc).as_slice());
    assert(out@ =~= frame(chunk_type@, data@, crc));
    out
}

impl Chunk {
    #[verifier::type_invariant]
    spec fn consistent(&self) -> bool {
        &&& valid_type_bytes(self.chunk_type@)
        &&& self.data@.len() < LENGTH_LIMIT
        &&& self.data_length == self.data@.len()
        &&& self.crc == crc32_iso_hdlc(self.chunk_type@ + self.data@)
    }

    /// A chunk of the given type and data, with its checksum computed.
    pub fn new(chunk_type: ChunkType, data: Vec<u8>) -> (r: Self)
        requires
            data@.len() < LENGTH_LIMIT,
        ensures
            r@ == (ChunkModel { chunk_type: chunk_type@, data: data@ }),
            r@.well_formed(),
    {
        let data_length: u32 = data.len() as u32;
        let crc = Chunk::calculate_crc(&chunk_type, data.as_slice());
        let _ = chunk_type.bytes();
        Self { data_length, chunk_type, data, crc }
    }

    /// The number of data bytes.
    pub fn length(&self) -> (r: u32)
        ensures
            r == self@.data.len(),
            self@.well_formed(),
    {
        proof {
            use_type_invariant(self);
        }
        self.data_length
    }

    /// The checksum over type and data.
    pub fn crc(&self) -> (r: u32)
        ensures
            r == self@.crc(),
    {
        proof {
            use_type_invariant(self);
        }
        self.crc
    }

    /// The type code.
    pub fn chunk_type(&self) -> (r: &ChunkType)
        ensures
            r@ == self@.chunk_type,
    {
        &self.chunk_type
    }

    /// The data bytes.
    pub fn data(&self) -> (r: &[u8])
        ensures
            r@ == self@.data,
    {
        self.data.as_slice()
    }

    /// The data as text: decoded as UTF-8 where it is well formed, else as
    /// lower-case hex, two digits per byte. Never fails.
    pub fn data_as_string(&self) -> (r: Result<String, ChunkError>)
        ensures
            r matches Ok(s) && s@ == data_text(self@.data),
    {
        let copy = copy_range(self.data.as_slice(), 0, self.data.len());
        assert(copy@ =~= self.data@);
        match string_from_utf8(copy) {
            Some(s) => Ok(s),
            None => Ok(hex_string(self.data.as_slice())),
        }
    }

    /// A line for a reader: length, type, data as text and checksum.
    pub fn to_string(&self) -> (r: String)
        ensures
            r@ == display_text(self@),
    {
        proof {
            use_type_invariant(self);
        }
        let mut out = String::from_str("Length: ");
        out.append(decimal_string(self.data_length).as_str());
        out.append(", Chunk type: ");
        out.append(self.chunk_type.to_string().as_str());
        out.append(", Data: ");
        match self.data_as_string() {
            Ok(text) => { out.append(text.as_str()); },
            Err(_) => {},
        }
        out.append(", Crc: ");
        out.append(decimal_string(self.crc).as_str());
        out
    }

    /// The wire form: length, type, data and checksum, numbers big-endian.
    pub fn as_bytes(&self) -> (r: Vec<u8>)
        ensures
            r@ == self@.encode(),
            self@.well_formed(),
    {
        proof {
            use_type_invariant(self);
        }
        encode_frame(&self.chunk_type, self.data.as_slice(), self.crc)
    }

    /// The CRC-32/ISO-HDLC checksum over the type code followed by the data.
    pub fn calculate_crc(chunk_type: &ChunkType, data: &[u8]) -> (r: u32)
        ensures
            r == crc32_iso_hdlc(chunk_type@ + data@),
    {
        let mut input: Vec<u8> = Vec::new();
        append_bytes(&mut input, chunk_type.bytes().as_slice());
        append_bytes(&mut input, data);
        assert(input@ =~= chunk_type@ + data@);
        crc32(input.as_slice())
    }

    /// Compares the checksum read from the wire with the one computed, and
    /// gives the computed one where they agree.
    pub fn check_crc(stored: u32, calculated: u32) -> (r: Result<u32, ChunkError>)
        ensures
            r == crc_verdict(stored, calculated),
    {
        if stored == calculated {
            Ok(calculated)
        } else {
            Err(ChunkError::CrcMismatch { stored, calculated })
        }
    }
}

/// The conversion from bytes has no spec function of its own: what it gives
/// is stated by the contract of `try_from`, over `parse_chunk`.
impl<'a> vstd::std_specs::convert::TryFromSpecImpl<&'a [u8]> for Chunk {
    open spec fn obeys_try_from_spec() -> bool {
        false
    }

    open spec fn try_from_spec(v: &'a [u8]) -> Result<Self, ChunkError> {
        arbitrary()
    }
}

impl<'a> TryFrom<&'a [u8]> for Chunk {
    type Error = ChunkError;

    /// Parses one chunk from the front of a buffer.
    fn try_from(value: &'a [u8]) -> (r: Result<Self, ChunkError>)
        ensures
            match r {
                Ok(c) => parse_chunk(value@) == Ok::<ChunkModel, ChunkError>(c@) && c@.well_formed(),
                Err(e) => parse_chunk(value@) == Err::<ChunkModel, ChunkError>(e),
            },
    {
        let len = value.len();
        if len < 4 {
            return Err(ChunkError::Truncated(Field::Length));
        }
        let data_length = u32_from_be(value, 0);
        if data_length >= LENGTH_LIMIT {
            return Err(ChunkError::LengthOverflow);
        }
        if len < 8 {
            return Err(ChunkError::Truncated(Field::Type));
        }
        let type_bytes: [u8; 4] = [value[4], value[5], value[6], value[7]];
        assert(type_bytes@ =~= value@.subrange(4, 8));
        let chunk_type = match ChunkType::try_from(type_bytes) {
            Ok(t) => t,
            Err(e) => { return Err(e); },
        };
        let n = data_length as usize;
        if len - 8 < n {
            return Err(ChunkError::Truncated(Field::Data));
        }
        if len - 8 - n < 4 {
            return Err(ChunkError::Truncated(Field::Crc));
        }
        let data = copy_range(value, 8, 8 + n);
        let stored = u32_from_be(value, 8 + n);
        let calculated = Chunk::calculate_crc(&chunk_type, data.as_slice());
        match Chunk::check_crc(stored, calculated) {
            Err(e) => Err(e),
            Ok(crc) => {
                proof {
                    lemma_type_of_bytes_ok(type_bytes@);
                }
                Ok(Self { data_length, chunk_type, data, crc })
            },
        }
    }
}

/// The wire form of a well-formed chunk is twelve bytes longer than its data.
pub proof fn lemma_encode_len(m: ChunkModel)
    requires
        m.well_formed(),
    ensures
        m.encode().len() == FRAME_OVERHEAD + m.data.len(),
{
}

/// A chunk that parses holds what the buffer declares: the buffer is long
/// enough for it, and type and data are those on the wire.
pub proof fn lemma_parse_chunk_ok(bytes: Seq<u8>)
    requires
        parse_chunk(bytes) is Ok,
    ensures
        parse_chunk(bytes).unwrap().well_formed(),
        bytes.len() >= FRAME_OVERHEAD + parse_chunk(bytes).unwrap().data.len(),
        parse_chunk(bytes).unwrap().data.len() == be_u32_at(bytes, 0),
{
    lemma_type_of_bytes_ok(bytes.subrange(4, 8));
}

/// Parsing a frame laid out from a valid type, data below the length limit and
/// any checksum field, whatever follows it, is decided by the checksum alone.
pub proof fn lemma_parse_frame(chunk_type: Seq<u8>, data: Seq<u8>, stored: u32, rest: Seq<u8>)
    requires
        valid_type_bytes(chunk_type),
        data.len() < LENGTH_LIMIT,
    ensures
        parse_chunk(frame(chunk_type, data, stored) + rest) == match crc_verdict(
            stored,
            crc32_iso_hdlc(chunk_type + data),
        ) {
            Ok(_) => Ok::<ChunkModel, ChunkError>(ChunkModel { chunk_type, data }),
            Err(e) => Err::<ChunkModel, ChunkError>(e),
        },
{
    let n = data.len() as u32;
    let bytes = frame(chunk_type, data, stored) + rest;
    lemma_be_bytes_value(n);
    lemma_be_bytes_value(stored);
    assert(bytes.len() >= 12 + n);
    assert(be_u32_at(bytes, 0) == be_u32_at(be_bytes(n), 0));
    assert(bytes.subrange(4, 8) =~= chunk_type);
    lemma_type_of_bytes_ok(chunk_type);
    assert(bytes.subrange(8, 8 + n) =~= data);
    assert(be_u32_at(bytes, 8 + n) == be_u32_at(be_bytes(stored), 0));
}

/// Round trip: the wire form of a well-formed chunk parses back to the same
/// type and data, and so to the same length and checksum, whatever follows it.
pub proof fn lemma_parse_encode(m: ChunkModel, rest: Seq<u8>)
    requires
        m.well_formed(),
    ensures
        parse_chunk(m.encode() + rest) == Ok::<ChunkModel, ChunkError>(m),
        parse_chunk(m.encode()) == Ok::<ChunkModel, ChunkError>(m),
{
    lemma_parse_frame(m.chunk_type, m.data, m.crc(), rest);
    lemma_parse_frame(m.chunk_type, m.data, m.crc(), Seq::empty());
    assert(m.encode() + Seq::<u8>::empty() =~= m.encode());
}

/// A declared length of 2^31 or more is refused as such, whatever else the buffer holds.
pub proof fn lemma_length_overflow(bytes: Seq<u8>)
    requires
        bytes.len() >= 4,
        be_u32_at(bytes, 0) >= LENGTH_LIMIT,
    ensures
        parse_chunk(bytes) == Err::<ChunkModel, ChunkError>(ChunkError::LengthOverflow),
{
}

/// A buffer that ends before the chunk it declares is refused as truncated,
/// provided that the length it declares is below 2^31 and that the type code,
/// where the buffer reaches that far, is four letters.
pub proof fn lemma_truncated(bytes: Seq<u8>)
    requires
        bytes.len() >= 4 ==> be_u32_at(bytes, 0) < LENGTH_LIMIT && bytes.len() < FRAME_OVERHEAD
            + be_u32_at(bytes, 0),
        bytes.len() >= 8 ==> valid_type_bytes(bytes.subrange(4, 8)),
    ensures
        parse_chunk(bytes) matches Err(ChunkError::Truncated(_)),
{
    if bytes.len() >= 8 {
        lemma_type_of_bytes_ok(bytes.subrange(4, 8));
    }
}

/// Tampering with the checksum field: a buffer that agrees with the wire form
/// of a well-formed chunk up to the checksum and differs from it in a checksum
/// byte is refused for its checksum.
pub proof fn lemma_tampered_crc(m: ChunkModel, tampered: Seq<u8>)
    requires
        m.well_formed(),
        tampered.len() == m.encode().len(),
        forall|i: int| 0 <= i < 8 + m.data.len() ==> tampered[i] == m.encode()[i],
        exists|i: int| 8 + m.data.len() <= i < 12 + m.data.len() && tampered[i] != m.encode()[i],
    ensures
        parse_chunk(tampered) == Err::<ChunkModel, ChunkError>(
            ChunkError::CrcMismatch {
                stored: be_u32_at(tampered, 8 + m.data.len() as int),
                calculated: m.crc(),
            },
        ),
{
    let n = m.data.len() as u32;
    let e = m.encode();
    lemma_be_bytes_value(n);
    lemma_be_bytes_value(m.crc());
    assert(e.len() == 12 + n);
    assert(be_u32_at(tampered, 0) == be_u32_at(be_bytes(n), 0));
    assert(tampered.subrange(4, 8) =~= m.chunk_type);
    lemma_type_of_bytes_ok(m.chunk_type);
    assert(tampered.subrange(8, 8 + n) =~= m.data);
    assert(be_u32_at(e, 8 + n) == be_u32_at(be_bytes(m.crc()), 0));
    let at = 8 + n;
    if be_u32_at(tampered, at) == m.crc() {
        lemma_be_value_injective(
            tampered[at],
            tampered[at + 1],
            tampered[at + 2],
            tampered[at + 3],
            e[at],
            e[at + 1],
            e[at + 2],
            e[at + 3],
        );
        assert(false);
    }
}

/// Tampering with the data: replacing the data of a well-formed chunk's wire
/// form by other data of the same length is refused for its checksum unless
/// the other data has the same checksum, in which case it parses as that data.
pub proof fn lemma_tampered_data(m: ChunkModel, data: Seq<u8>)
    requires
        m.well_formed(),
        data.len() == m.data.len(),
    ensures
        parse_chunk(frame(m.chunk_type, data, m.crc())) == if crc32_iso_hdlc(m.chunk_type + data)
            == m.crc() {
            Ok::<ChunkModel, ChunkError>(ChunkModel { chunk_type: m.chunk_type, data })
        } else {
            Err::<ChunkModel, ChunkError>(
                ChunkError::CrcMismatch {
                    stored: m.crc(),
                    calculated: crc32_iso_hdlc(m.chunk_type + data),
                },
            )
        },
{
    lemma_parse_frame(m.chunk_type, data, m.crc(), Seq::empty());
    assert(frame(m.chunk_type, data, m.crc()) + Seq::<u8>::empty() =~= frame(
        m.chunk_type,
        data,
        m.crc(),
    ));
}

} // verus!
