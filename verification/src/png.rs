use crate::chunk::{
    append_bytes, lemma_encode_len, lemma_parse_chunk_ok, lemma_parse_encode, parse_chunk, Chunk, ChunkModel,
    FRAME_OVERHEAD,
};
use crate::error::PngError;
use crate::text::latin_text;
use vstd::prelude::*;

verus! {

/// The eight bytes that every stream starts with.
pub open spec fn signature() -> Seq<u8> {
    seq![137u8, 80u8, 78u8, 71u8, 13u8, 10u8, 26u8, 10u8]
}

/// The wire forms of the chunks, one after the other.
pub open spec fn concat_chunks(chunks: Seq<ChunkModel>) -> Seq<u8>
    decreases chunks.len(),
{
    if chunks.len() == 0 {
        Seq::empty()
    } else {
        chunks[0].encode() + concat_chunks(chunks.drop_first())
    }
}

/// The whole stream on the wire: the signature, then the chunks in order.
pub open spec fn serialize(chunks: Seq<ChunkModel>) -> Seq<u8> {
    signature() + concat_chunks(chunks)
}

/// Puts the chunks already read in front of what the rest of the buffer gives.
pub open spec fn prepend(
    done: Seq<ChunkModel>,
    rest: Result<Seq<ChunkModel>, PngError>,
) -> Result<Seq<ChunkModel>, PngError> {
    match rest {
        Ok(more) => Ok(done + more),
        Err(e) => Err(e),
    }
}

/// What parsing chunks until the buffer is used up gives; `index` counts the
/// chunks already read. The first chunk that fails decides, and is named by its position.
#[verifier::opaque]
pub open spec fn parse_chunks(bytes: Seq<u8>, index: nat) -> Result<Seq<ChunkModel>, PngError>
    decreases bytes.len(),
{
    if bytes.len() == 0 {
        Ok(Seq::empty())
    } else {
        match parse_chunk(bytes) {
            Err(e) => Err(PngError::Chunk { index: index as usize, error: e }),
            Ok(c) => prepend(
                seq![c],
                parse_chunks(bytes.skip(FRAME_OVERHEAD + c.data.len()), index + 1),
            ),
        }
    }
}

/// What parsing a whole buffer gives: the signature is checked first, then the chunks.
pub open spec fn parse_png(bytes: Seq<u8>) -> Result<Seq<ChunkModel>, PngError> {
    if bytes.len() < 8 || bytes.subrange(0, 8) != signature() {
        Err(PngError::InvalidSignature)
    } else {
        parse_chunks(bytes.skip(8), 0)
    }
}

/// Every chunk has a four-letter type and data below the length limit.
pub open spec fn all_well_formed(chunks: Seq<ChunkModel>) -> bool {
    forall|i: int| 0 <= i < chunks.len() ==> (#[trigger] chunks[i]).well_formed()
}

/// The position of the first chunk whose type reads as `name`, or the number
/// of chunks if there is none.
pub open spec fn first_of_type(chunks: Seq<ChunkModel>, name: Seq<char>) -> int
    decreases chunks.len(),
{
    if chunks.len() == 0 || latin_text(chunks[0].chunk_type) == name {
        0
    } else {
        1 + first_of_type(chunks.drop_first(), name)
    }
}

/// What the chunks of a vector are, in order.
pub open spec fn models(chunks: Seq<Chunk>) -> Seq<ChunkModel> {
    Seq::new(chunks.len(), |i: int| chunks[i]@)
}

/// `first_of_type` is the position before which no chunk has the type and at
/// which the stream ends or holds one that has it.
pub proof fn lemma_first_of_type(chunks: Seq<ChunkModel>, name: Seq<char>, i: int)
    requires
        0 <= i <= chunks.len(),
        forall|j: int| 0 <= j < i ==> latin_text(#[trigger] chunks[j].chunk_type) != name,
        i < chunks.len() ==> latin_text(chunks[i].chunk_type) == name,
    ensures
        first_of_type(chunks, name) == i,
    decreases i,
{
    if i > 0 {
        let t = chunks.drop_first();
        assert(latin_text(chunks[0].chunk_type) != name);
        assert forall|j: int| 0 <= j < i - 1 implies latin_text(#[trigger] t[j].chunk_type)
            != name by {
            assert(t[j] == chunks[j + 1]);
        }
        lemma_first_of_type(t, name, i - 1);
    }
}

/// The converse: what holds at and before `first_of_type`.
pub proof fn lemma_first_of_type_bounds(chunks: Seq<ChunkModel>, name: Seq<char>)
    ensures
        0 <= first_of_type(chunks, name) <= chunks.len(),
        forall|j: int|
            0 <= j < first_of_type(chunks, name) ==> latin_text(#[trigger] chunks[j].chunk_type)
                != name,
        first_of_type(chunks, name) < chunks.len() ==> latin_text(
            chunks[first_of_type(chunks, name)].chunk_type,
        ) == name,
    decreases chunks.len(),
{
    if chunks.len() == 0 || latin_text(chunks[0].chunk_type) == name {
    } else {
        let t = chunks.drop_first();
        lemma_first_of_type_bounds(t, name);
        assert forall|j: int| 0 <= j < first_of_type(chunks, name) implies latin_text(
            #[trigger] chunks[j].chunk_type,
        ) != name by {
            if j > 0 {
                assert(chunks[j] == t[j - 1]);
            }
        }
        if first_of_type(chunks, name) < chunks.len() {
            assert(chunks[first_of_type(chunks, name)] == t[first_of_type(t, name)]);
        }
    }
}

/// Adding a chunk at the end adds its wire form at the end.
pub proof fn lemma_concat_push(chunks: Seq<ChunkModel>, c: ChunkModel)
    ensures
        concat_chunks(chunks.push(c)) == concat_chunks(chunks) + c.encode(),
    decreases chunks.len(),
{
    let all = chunks.push(c);
    if chunks.len() == 0 {
        assert(all.drop_first() =~= Seq::<ChunkModel>::empty());
        assert(concat_chunks(all.drop_first()) =~= Seq::<u8>::empty());
        assert(concat_chunks(all) =~= c.encode());
        assert(concat_chunks(chunks) + c.encode() =~= c.encode());
    } else {
        assert(all.drop_first() =~= chunks.drop_first().push(c));
        lemma_concat_push(chunks.drop_first(), c);
        assert(concat_chunks(all) =~= concat_chunks(chunks) + c.encode());
    }
}

/// Where a chunk parses from the front of a buffer and spends `head` on it,
/// the chunks of the buffer are that chunk and then those of what follows.
pub proof fn lemma_parse_chunks_cons(head: Seq<u8>, tail: Seq<u8>, c: ChunkModel, index: nat)
    requires
        parse_chunk(head + tail) == Ok::<ChunkModel, crate::error::ChunkError>(c),
        head.len() == FRAME_OVERHEAD + c.data.len(),
    ensures
        parse_chunks(head + tail, index) == prepend(seq![c], parse_chunks(tail, index + 1)),
{
    reveal(parse_chunks);
    assert((head + tail).skip(head.len() as int) =~= tail);
}

/// The chunks of a well-formed chunk's wire form followed by more bytes are
/// that chunk and then those of the bytes that follow.
pub proof fn lemma_parse_chunks_encoded(c: ChunkModel, tail: Seq<u8>, index: nat)
    requires
        c.well_formed(),
    ensures
        parse_chunks(c.encode() + tail, index) == prepend(seq![c], parse_chunks(tail, index + 1)),
{
    lemma_parse_encode(c, tail);
    lemma_encode_len(c);
    lemma_parse_chunks_cons(c.encode(), tail, c, index);
}

/// The chunks laid out one after the other parse back to themselves, counted from any index.
pub proof fn lemma_parse_concat(chunks: Seq<ChunkModel>, index: nat)
    requires
        all_well_formed(chunks),
    ensures
        parse_chunks(concat_chunks(chunks), index) == Ok::<Seq<ChunkModel>, PngError>(chunks),
    decreases chunks.len(),
{
    if chunks.len() == 0 {
        reveal(parse_chunks);
        assert(chunks =~= Seq::<ChunkModel>::empty());
    } else {
        let c = chunks[0];
        let rest = chunks.drop_first();
        let tail = concat_chunks(rest);
        assert(c.well_formed());
        lemma_parse_chunks_encoded(c, tail, index);
        assert(all_well_formed(rest)) by {
            assert forall|i: int| 0 <= i < rest.len() implies (#[trigger] rest[i]).well_formed() by {
                assert(rest[i] == chunks[i + 1]);
            }
        }
        lemma_parse_concat(rest, index + 1);
        assert(seq![c] + rest =~= chunks);
    }
}

/// Container round trip: a serialised stream of well-formed chunks parses
/// back to the same chunks in the same order.
pub proof fn lemma_parse_serialize(chunks: Seq<ChunkModel>)
    requires
        all_well_formed(chunks),
    ensures
        parse_png(serialize(chunks)) == Ok::<Seq<ChunkModel>, PngError>(chunks),
{
    let bytes = serialize(chunks);
    assert(bytes.subrange(0, 8) =~= signature());
    assert(bytes.skip(8) =~= concat_chunks(chunks));
    lemma_parse_concat(chunks, 0);
}

/// Lookup after append: once a chunk is added at the end, the first chunk of
/// its type is the first that had the type before, or the new chunk if none had.
pub proof fn lemma_find_after_append(chunks: Seq<ChunkModel>, c: ChunkModel)
    ensures
        first_of_type(chunks.push(c), latin_text(c.chunk_type)) == first_of_type(
            chunks,
            latin_text(c.chunk_type),
        ),
        first_of_type(chunks.push(c), latin_text(c.chunk_type)) < chunks.push(c).len(),
        first_of_type(chunks, latin_text(c.chunk_type)) == chunks.len() ==> chunks.push(
            c,
        )[first_of_type(chunks.push(c), latin_text(c.chunk_type))] == c,
{
    let name = latin_text(c.chunk_type);
    let all = chunks.push(c);
    lemma_first_of_type_bounds(chunks, name);
    let i = first_of_type(chunks, name);
    assert forall|j: int| 0 <= j < i implies latin_text(#[trigger] all[j].chunk_type) != name by {
        assert(all[j] == chunks[j]);
    }
    if i < chunks.len() {
        assert(all[i] == chunks[i]);
    }
    lemma_first_of_type(all, name, i);
}

/// Lookup after append and removal: where no chunk had the type of `c`,
/// adding `c` and then removing the first chunk of that type gives the stream
/// as it was, in which no chunk of that type is found.
pub proof fn lemma_remove_after_append(chunks: Seq<ChunkModel>, c: ChunkModel)
    requires
        first_of_type(chunks, latin_text(c.chunk_type)) == chunks.len(),
    ensures
        chunks.push(c)[first_of_type(chunks.push(c), latin_text(c.chunk_type))] == c,
        chunks.push(c).remove(first_of_type(chunks.push(c), latin_text(c.chunk_type))) == chunks,
        first_of_type(
            chunks.push(c).remove(first_of_type(chunks.push(c), latin_text(c.chunk_type))),
            latin_text(c.chunk_type),
        ) == chunks.len(),
{
    lemma_find_after_append(chunks, c);
    assert(chunks.push(c).remove(chunks.len() as int) =~= chunks);
}

/// Whether a buffer starts with the signature.
pub fn has_signature(bytes: &[u8]) -> (r: bool)
    ensures
        r == (bytes@.len() >= 8 && bytes@.subrange(0, 8) == signature()),
{
    if bytes.len() < 8 {
        return false;
    }
    let header: [u8; 8] = Png::STANDARD_HEADER;
    assert(header@ =~= signature());
    let mut i: usize = 0;
    while i < 8
        invariant
            i <= 8 <= bytes@.len(),
            header@ == signature(),
            forall|j: int| 0 <= j < i ==> bytes@[j] == header@[j],
        decreases 8 - i,
    {
        if bytes[i] != header[i] {
            assert(bytes@.subrange(0, 8)[i as int] == bytes@[i as int]);
            return false;
        }
        i += 1;
    }
    assert(bytes@.subrange(0, 8) =~= signature());
    true
}

/// A signature followed by chunks in order.
#[derive(Debug)]
pub struct Png {
    chunks: Vec<Chunk>,
}

impl View for Png {
    type V = Seq<ChunkModel>;

    closed spec fn view(&self) -> Seq<ChunkModel> {
        models(self.chunks@)
    }
}

impl Png {
    /// The signature bytes.
    pub const STANDARD_HEADER: [u8; 8] = [137, 80, 78, 71, 13, 10, 26, 10];

    /// A stream of the given chunks.
    pub fn from_chunks(chunks: Vec<Chunk>) -> (r: Self)
        ensures
            r@ == models(chunks@),
    {
        Png { chunks }
    }

    /// Adds a chunk at the end.
    pub fn append_chunk(&mut self, chunk: Chunk)
        ensures
            final(self)@ == old(self)@.push(chunk@),
    {
        self.chunks.push(chunk);
        assert(self@ =~= old(self)@.push(chunk@));
    }

    /// The position of the first chunk whose type reads as `chunk_type`, or
    /// the number of chunks.
    fn position_of(&self, chunk_type: &str) -> (r: usize)
        ensures
            r == first_of_type(self@, chunk_type@),
            r <= self@.len(),
            self@.len() == self.chunks@.len(),
    {
        let mut i: usize = 0;
        while i < self.chunks.len() && !self.chunks[i].chunk_type().has_name(chunk_type)
            invariant
                i <= self.chunks@.len(),
                forall|j: int|
                    0 <= j < i ==> latin_text(#[trigger] self@[j].chunk_type) != chunk_type@,
            decreases self.chunks@.len() - i,
        {
            i += 1;
        }
        proof {
            lemma_first_of_type(self@, chunk_type@, i as int);
        }
        i
    }

    /// The first chunk, in stored order, whose type reads as `chunk_type`.
    pub fn chunk_by_type(&self, chunk_type: &str) -> (r: Option<&Chunk>)
        ensures
            match r {
                Some(c) => first_of_type(self@, chunk_type@) < self@.len() && c@
                    == self@[first_of_type(self@, chunk_type@)],
                None => first_of_type(self@, chunk_type@) == self@.len(),
            },
    {
        let i = self.position_of(chunk_type);
        if i < self.chunks.len() {
            Some(&self.chunks[i])
        } else {
            None
        }
    }

    /// Takes out the first chunk whose type reads as `chunk_type`; the others
    /// keep their order. Without such a chunk the stream stays as it is.
    pub fn remove_chunk(&mut self, chunk_type: &str) -> (r: Result<Chunk, PngError>)
        ensures
            match r {
                Ok(c) => first_of_type(old(self)@, chunk_type@) < old(self)@.len() && c@ == old(
                    self,
                )@[first_of_type(old(self)@, chunk_type@)] && final(self)@ == old(self)@.remove(
                    first_of_type(old(self)@, chunk_type@),
                ),
                Err(e) => e == PngError::ChunkNotFound && first_of_type(old(self)@, chunk_type@)
                    == old(self)@.len() && final(self)@ == old(self)@,
            },
    {
        let i = self.position_of(chunk_type);
        if i < self.chunks.len() {
            let c = self.chunks.remove(i);
            assert(self@ =~= old(self)@.remove(i as int));
            Ok(c)
        } else {
            Err(PngError::ChunkNotFound)
        }
    }

    /// The chunks in stored order.
    pub fn chunks(&self) -> (r: &[Chunk])
        ensures
            models(r@) == self@,
    {
        self.chunks.as_slice()
    }

    /// The wire form: the signature, then each chunk's wire form in stored order.
    pub fn as_bytes(&self) -> (r: Vec<u8>)
        ensures
            r@ == serialize(self@),
            all_well_formed(self@),
    {
        let mut out: Vec<u8> = Vec::new();
        let header: [u8; 8] = Png::STANDARD_HEADER;
        append_bytes(&mut out, header.as_slice());
        assert(out@ =~= signature());
        let mut i: usize = 0;
        assert(self@.take(0) =~= Seq::<ChunkModel>::empty());
        while i < self.chunks.len()
            invariant
                i <= self.chunks@.len(),
                out@ == signature() + concat_chunks(self@.take(i as int)),
                all_well_formed(self@.take(i as int)),
            decreases self.chunks@.len() - i,
        {
            let encoded = self.chunks[i].as_bytes();
            append_bytes(&mut out, encoded.as_slice());
            proof {
                lemma_concat_push(self@.take(i as int), self@[i as int]);
                assert(self@.take(i as int).push(self@[i as int]) =~= self@.take(i + 1));
                assert(out@ =~= signature() + concat_chunks(self@.take(i + 1)));
            }
            i += 1;
        }
        assert(self@.take(i as int) =~= self@);
        out
    }
}

/// The conversion from bytes has no spec function of its own: what it gives
/// is stated by the contract of `try_from`, over `parse_png`.
impl<'a> vstd::std_specs::convert::TryFromSpecImpl<&'a [u8]> for Png {
    open spec fn obeys_try_from_spec() -> bool {
        false
    }

    open spec fn try_from_spec(v: &'a [u8]) -> Result<Self, PngError> {
        arbitrary()
    }
}

impl<'a> TryFrom<&'a [u8]> for Png {
    type Error = PngError;

    /// Parses a whole buffer: the signature, then chunks until no byte is left.
    fn try_from(bytes: &'a [u8]) -> (r: Result<Self, PngError>)
        ensures
            match r {
                Ok(p) => parse_png(bytes@) == Ok::<Seq<ChunkModel>, PngError>(p@)
                    && all_well_formed(p@),
                Err(e) => parse_png(bytes@) == Err::<Seq<ChunkModel>, PngError>(e),
            },
    {
        let len = bytes.len();
        if !has_signature(bytes) {
            return Err(PngError::InvalidSignature);
        }
        let mut chunks: Vec<Chunk> = Vec::new();
        let mut pos: usize = 8;
        assert(prepend(models(chunks@), parse_chunks(bytes@.skip(8), 0)) == parse_chunks(
            bytes@.skip(8),
            0,
        )) by {
            match parse_chunks(bytes@.skip(8), 0) {
                Ok(more) => {
                    assert(models(chunks@) + more =~= more);
                },
                Err(_) => {},
            }
        }
        while pos < len
            invariant
                8 <= pos <= len,
                len == bytes@.len(),
                bytes@.subrange(0, 8) == signature(),
                all_well_formed(models(chunks@)),
                parse_chunks(bytes@.skip(8), 0) == prepend(
                    models(chunks@),
                    parse_chunks(bytes@.skip(pos as int), chunks@.len() as nat),
                ),
            decreases len - pos,
        {
            let ghost rest = bytes@.skip(pos as int);
            let ghost before = models(chunks@);
            proof {
                reveal(parse_chunks);
            }
            let slice = &bytes[pos..len];
            assert(slice@ =~= rest);
            match Chunk::try_from(slice) {
                Err(e) => {
                    return Err(PngError::Chunk { index: chunks.len(), error: e });
                },
                Ok(c) => {
                    proof {
                        lemma_parse_chunk_ok(rest);
                    }
                    let used: usize = FRAME_OVERHEAD + c.length() as usize;
                    proof {
                        let after = parse_chunks(rest.skip(used as int), chunks@.len() as nat + 1);
                        assert(rest.skip(used as int) =~= bytes@.skip(pos + used));
                        assert(models(chunks@.push(c)) =~= before.push(c@));
                        match after {
                            Ok(more) => {
                                assert(before + (seq![c@] + more) =~= before.push(c@) + more);
                            },
                            Err(_) => {},
                        }
                    }
                    chunks.push(c);
                    pos += used;
                },
            }
        }
        proof {
            reveal(parse_chunks);
            assert(bytes@.skip(pos as int).len() == 0);
            assert(models(chunks@) + Seq::<ChunkModel>::empty() =~= models(chunks@));
        }
        Ok(Png { chunks })
    }
}

} // verus!
