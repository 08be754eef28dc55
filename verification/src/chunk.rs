use crate::le::{le4, le4_bytes};
use vstd::prelude::*;

verus! {

// ---------------------------------------------------------------------------
// Chunks and their mathematical model.
//
// A chunk is modelled as the pair of its identifier bytes and its body
// bytes. The whole container is a sequence of such pairs, in file order.
// ---------------------------------------------------------------------------
/// A RIFF sub chunk: a 4-byte identifier plus an opaque body.
#[derive(Clone, PartialEq, Debug)]
pub struct SubChunk {
    /// Chunk identifier.
    pub chunk_id: [u8; 4],
    /// Chunk body bytes.
    pub bytes_data_vec: Vec<u8>,
}

/// The identifier and body of one chunk, as byte sequences.
pub type ChunkModel = (Seq<u8>, Seq<u8>);

/// The model of one chunk.
pub open spec fn chunk_model(c: SubChunk) -> ChunkModel {
    (c.chunk_id@, c.bytes_data_vec@)
}

/// The model of a whole chunk list, in order.
pub open spec fn chunks_model(cs: Seq<SubChunk>) -> Seq<ChunkModel> {
    cs.map_values(|c: SubChunk| chunk_model(c))
}

impl SubChunk {
    /// An empty chunk with an all-zero identifier.
    pub fn new() -> (r: SubChunk)
        ensures
            r.chunk_id@ =~= seq![0u8, 0u8, 0u8, 0u8],
            r.bytes_data_vec@ =~= Seq::<u8>::empty(),
    {
        SubChunk { chunk_id: [0, 0, 0, 0], bytes_data_vec: Vec::new() }
    }
}

/// The identifier of the `fmt ` chunk.
pub open spec fn fmt_id() -> Seq<u8> {
    seq![0x66u8, 0x6du8, 0x74u8, 0x20u8]
}

/// The identifier of the `data` chunk.
pub open spec fn data_id() -> Seq<u8> {
    seq![0x64u8, 0x61u8, 0x74u8, 0x61u8]
}

/// The `RIFF` group tag opening a file.
pub open spec fn riff_tag() -> Seq<u8> {
    seq![0x52u8, 0x49u8, 0x46u8, 0x46u8]
}

/// The `WAVE` form tag following the RIFF header.
pub open spec fn wave_tag() -> Seq<u8> {
    seq![0x57u8, 0x41u8, 0x56u8, 0x45u8]
}

/// All identifier bytes are plain ASCII.
pub open spec fn id_is_ascii(id: Seq<u8>) -> bool {
    forall|k: int| 0 <= k < id.len() ==> id[k] < 128
}

/// The identifier bytes read as characters.
pub open spec fn id_chars(id: Seq<u8>) -> Seq<char> {
    id.map_values(|b: u8| b as char)
}

// ---------------------------------------------------------------------------
// Locating chunks by identifier.
// ---------------------------------------------------------------------------
/// `i` is the first position holding `id`.
pub open spec fn is_first_match(ms: Seq<ChunkModel>, id: Seq<u8>, i: int) -> bool {
    &&& 0 <= i < ms.len()
    &&& ms[i].0 == id
    &&& forall|j: int| 0 <= j < i ==> ms[j].0 != id
}

/// No position holds `id`.
pub open spec fn no_match(ms: Seq<ChunkModel>, id: Seq<u8>) -> bool {
    forall|j: int| 0 <= j < ms.len() ==> ms[j].0 != id
}

// ---------------------------------------------------------------------------
// Size accounting.
//
// A serialized chunk occupies 8 header bytes plus its body; the fixed RIFF
// preamble occupies 12 more. All sizes must stay within the unsigned 32-bit
// size field, so the chunk bodies together may take at most
// `0xffff_ffff - 12` bytes, headers included.
// ---------------------------------------------------------------------------
/// The byte budget available to chunks, headers included.
pub const CHUNKS_SIZE_LIMIT: u64 = 0xffff_ffff - 12;

/// The serialized size of chunks with the given body lengths: 8 header
/// bytes plus the body, summed over the list.
pub open spec fn sizes_total(ls: Seq<int>) -> int
    decreases ls.len(),
{
    if ls.len() == 0 {
        0
    } else {
        sizes_total(ls.drop_last()) + 8 + ls.last()
    }
}

/// The body lengths of a chunk list.
pub open spec fn chunk_sizes(ms: Seq<ChunkModel>) -> Seq<int> {
    ms.map_values(|m: ChunkModel| m.1.len() as int)
}

/// The serialized size of a chunk list, headers included.
pub open spec fn payload_total(ms: Seq<ChunkModel>) -> int {
    sizes_total(chunk_sizes(ms))
}

/// All entries are at least zero.
pub open spec fn sizes_nonneg(ls: Seq<int>) -> bool {
    forall|i: int| 0 <= i < ls.len() ==> ls[i] >= 0
}

/// Taking one more entry adds that entry's serialized size.
pub proof fn lemma_sizes_total_take_step(ls: Seq<int>, k: int)
    requires
        0 <= k < ls.len(),
    ensures
        sizes_total(ls.take(k + 1)) == sizes_total(ls.take(k)) + 8 + ls[k],
{
    assert(ls.take(k + 1).drop_last() =~= ls.take(k));
}

/// A prefix never exceeds the whole, when no entry is negative.
pub proof fn lemma_sizes_total_take_le(ls: Seq<int>, k: int)
    requires
        sizes_nonneg(ls),
        0 <= k <= ls.len(),
    ensures
        sizes_total(ls.take(k)) <= sizes_total(ls),
    decreases ls.len(),
{
    if k == ls.len() {
        assert(ls.take(k) =~= ls);
    } else {
        assert(ls.drop_last().take(k) =~= ls.take(k));
        lemma_sizes_total_take_le(ls.drop_last(), k);
    }
}

/// The serialized size that the chunk list would have after the mutation:
/// with a target position, that chunk's body is replaced; without one, a
/// new chunk is appended, its 8-byte header counted like every other.
pub open spec fn prospective_total(ms: Seq<ChunkModel>, op_idx: Option<int>, new_size: int) -> int {
    match op_idx {
        Option::None => payload_total(ms) + 8 + new_size,
        Option::Some(i) => sizes_total(chunk_sizes(ms).update(i, new_size)),
    }
}

// ---------------------------------------------------------------------------
// Serialization and parsing of the chunk sequence.
// ---------------------------------------------------------------------------
/// The bytes of one serialized chunk: identifier, 4-byte little-endian
/// body length, body.
pub open spec fn chunk_bytes(m: ChunkModel) -> Seq<u8> {
    m.0 + le4_bytes(m.1.len() as int) + m.1
}

/// The bytes of a serialized chunk list, in order.
pub open spec fn chunks_bytes(ms: Seq<ChunkModel>) -> Seq<u8>
    decreases ms.len(),
{
    if ms.len() == 0 {
        Seq::empty()
    } else {
        chunks_bytes(ms.drop_last()) + chunk_bytes(ms.last())
    }
}

/// The bytes of a whole file: RIFF tag, 4-byte size holding everything
/// after the first 8 bytes, WAVE tag, then the chunks.
pub open spec fn file_bytes(ms: Seq<ChunkModel>) -> Seq<u8> {
    riff_tag() + le4_bytes(4 + payload_total(ms)) + wave_tag() + chunks_bytes(ms)
}

/// Taking one more chunk appends that chunk's bytes.
pub proof fn lemma_chunks_bytes_take_step(ms: Seq<ChunkModel>, k: int)
    requires
        0 <= k < ms.len(),
    ensures
        chunks_bytes(ms.take(k + 1)) == chunks_bytes(ms.take(k)) + chunk_bytes(ms[k]),
{
    assert(ms.take(k + 1).drop_last() =~= ms.take(k));
}

/// No entry is negative, so the whole sum is not either.
pub proof fn lemma_sizes_total_nonneg(ls: Seq<int>)
    requires
        sizes_nonneg(ls),
    ensures
        sizes_total(ls) >= 0,
{
    assert(ls.take(0) =~= Seq::<int>::empty());
    lemma_sizes_total_take_le(ls, 0);
}

/// Each chunk's serialized size is within the whole.
pub proof fn lemma_sizes_total_element_le(ls: Seq<int>, i: int)
    requires
        sizes_nonneg(ls),
        0 <= i < ls.len(),
    ensures
        ls[i] + 8 <= sizes_total(ls),
    decreases ls.len(),
{
    if i == ls.len() - 1 {
        lemma_sizes_total_nonneg(ls.drop_last());
    } else {
        lemma_sizes_total_element_le(ls.drop_last(), i);
    }
}

/// Every chunk has a 4-byte identifier.
pub open spec fn ids_wellformed(ms: Seq<ChunkModel>) -> bool {
    forall|i: int| 0 <= i < ms.len() ==> (#[trigger] ms[i].0).len() == 4
}

/// The serialized chunks occupy exactly the accounted size.
pub proof fn lemma_chunks_bytes_len(ms: Seq<ChunkModel>)
    requires
        ids_wellformed(ms),
    ensures
        chunks_bytes(ms).len() == payload_total(ms),
    decreases ms.len(),
{
    if ms.len() > 0 {
        lemma_chunks_bytes_len(ms.drop_last());
        assert(chunk_sizes(ms).drop_last() =~= chunk_sizes(ms.drop_last()));
        assert(sizes_total(chunk_sizes(ms)) == sizes_total(chunk_sizes(ms.drop_last())) + 8
            + ms.last().1.len());
    } else {
        assert(chunk_sizes(ms) =~= Seq::<int>::empty());
    }
}

/// The serialized chunk list starts with its first chunk's bytes.
proof fn lemma_chunks_bytes_drop_first(ms: Seq<ChunkModel>)
    requires
        ms.len() > 0,
    ensures
        chunks_bytes(ms) == chunk_bytes(ms[0]) + chunks_bytes(ms.drop_first()),
    decreases ms.len(),
{
    if ms.len() == 1 {
        assert(ms.drop_last() =~= Seq::<ChunkModel>::empty());
        assert(ms.drop_first() =~= Seq::<ChunkModel>::empty());
        assert(chunks_bytes(ms) =~= chunk_bytes(ms[0]) + chunks_bytes(ms.drop_first()));
    } else {
        let dl = ms.drop_last();
        lemma_chunks_bytes_drop_first(dl);
        assert(ms.drop_first().drop_last() =~= dl.drop_first());
        assert(ms.drop_first().last() == ms.last());
        assert(chunks_bytes(ms.drop_first()) == chunks_bytes(dl.drop_first()) + chunk_bytes(
            ms.last(),
        ));
        assert(chunks_bytes(ms) =~= chunk_bytes(ms[0]) + chunks_bytes(ms.drop_first()));
    }
}

/// Serialized chunks parse back to themselves, chunk for chunk.
pub proof fn lemma_parse_of_chunks_bytes(ms: Seq<ChunkModel>)
    requires
        ids_wellformed(ms),
        forall|i: int| 0 <= i < ms.len() ==> (#[trigger] ms[i].1).len() < 0x1_0000_0000,
    ensures
        parse_chunks(chunks_bytes(ms)) == Some(ms),
    decreases ms.len(),
{
    if ms.len() == 0 {
        assert(chunks_bytes(ms).len() == 0);
        assert(parse_chunks(chunks_bytes(ms)) == Some(Seq::<ChunkModel>::empty()));
        assert(Seq::<ChunkModel>::empty() =~= ms);
    } else {
        let b = chunks_bytes(ms);
        let head = ms[0];
        let rest = ms.drop_first();
        let l0 = head.1.len() as int;
        lemma_chunks_bytes_drop_first(ms);
        crate::le::lemma_le4_round_trip(l0);
        assert(chunk_bytes(head).len() == 8 + l0);
        assert(b.len() >= 8 + l0);
        assert(b.subrange(4, 8) =~= le4_bytes(l0));
        assert(le4(b.subrange(4, 8)) == l0);
        assert(b.subrange(0, 4) =~= head.0);
        assert(b.subrange(8, 8 + l0) =~= head.1);
        assert(b.skip(8 + l0) =~= chunks_bytes(rest));
        assert forall|i: int| 0 <= i < rest.len() implies (#[trigger] rest[i].0).len() == 4 && (
        rest[i].1).len() < 0x1_0000_0000 by {
            assert(rest[i] == ms[i + 1]);
        }
        lemma_parse_of_chunks_bytes(rest);
        assert(parse_chunks(b) == Some(seq![(b.subrange(0, 4), b.subrange(8, 8 + l0))] + rest));
        assert(seq![(b.subrange(0, 4), b.subrange(8, 8 + l0))] + rest =~= ms);
    }
}

/// Lossless container round trip: within the size budget, a serialized
/// file carries a well-formed header and its chunk walk restores every
/// chunk, identifier and body alike, unknown chunks included. Together
/// with the container's contracts: saving and re-opening reproduces the
/// container exactly.
pub proof fn lemma_file_round_trip(ms: Seq<ChunkModel>)
    requires
        ids_wellformed(ms),
        payload_total(ms) <= CHUNKS_SIZE_LIMIT,
    ensures
        file_bytes(ms).len() == 12 + payload_total(ms),
        riff_header_ok(file_bytes(ms)),
        parse_chunks(file_bytes(ms).skip(12)) == Some(ms),
{
    let b = file_bytes(ms);
    lemma_chunks_bytes_len(ms);
    assert forall|i: int| 0 <= i < ms.len() implies (#[trigger] ms[i].1).len()
        < 0x1_0000_0000 by {
        assert(chunk_sizes(ms)[i] == ms[i].1.len());
        lemma_sizes_total_element_le(chunk_sizes(ms), i);
    }
    lemma_sizes_total_nonneg(chunk_sizes(ms));
    crate::le::lemma_le4_round_trip(4 + payload_total(ms));
    assert(b.subrange(0, 4) =~= riff_tag());
    assert(b.subrange(4, 8) =~= le4_bytes(4 + payload_total(ms)));
    assert(b.subrange(8, 12) =~= wave_tag());
    assert(b.skip(12) =~= chunks_bytes(ms));
    lemma_parse_of_chunks_bytes(ms);
}

/// The file opens with `RIFF`, a 4-byte size equal to everything after
/// the first 8 bytes, and `WAVE`.
pub open spec fn riff_header_ok(b: Seq<u8>) -> bool {
    &&& b.len() >= 12
    &&& b.subrange(0, 4) == riff_tag()
    &&& le4(b.subrange(4, 8)) == b.len() - 8
    &&& b.subrange(8, 12) == wave_tag()
}

/// Parse a byte stream as a chunk sequence. Each chunk declares its body
/// length; a declared body running past the end fails the parse, and a
/// trailing remainder shorter than one chunk header is ignored.
pub open spec fn parse_chunks(b: Seq<u8>) -> Option<Seq<ChunkModel>>
    decreases b.len(),
{
    if b.len() < 8 {
        Option::Some(Seq::empty())
    } else {
        let n = le4(b.subrange(4, 8));
        if b.len() < 8 + n {
            Option::None
        } else {
            match parse_chunks(b.skip(8 + n)) {
                Option::None => Option::None,
                Option::Some(rest) => Option::Some(
                    seq![(b.subrange(0, 4), b.subrange(8, 8 + n))] + rest,
                ),
            }
        }
    }
}

} // verus!
