use crate::chunk::{
    chunk_bytes, chunk_model, chunk_sizes, chunks_bytes, chunks_model, file_bytes, id_chars,
    id_is_ascii, is_first_match, lemma_chunks_bytes_take_step, lemma_sizes_total_take_le,
    lemma_sizes_total_take_step, no_match, parse_chunks, payload_total, prospective_total,
    riff_header_ok, riff_tag, sizes_nonneg, sizes_total, wave_tag, ChunkModel, SubChunk,
    CHUNKS_SIZE_LIMIT,
};
use crate::error::{WavF64VecError, WavF64VecErrorKind};
use crate::format::{
    fmt_bits, fmt_block_size, fmt_bytes_per_sec, fmt_channel, fmt_encode, fmt_guid_bytes,
    fmt_id_ok, fmt_parse_err_kind, fmt_parse_err_msg, fmt_parse_ok, fmt_rate, fmt_raw_id,
    fmt_resolved_id, fmt_sub_id,
    fmt_wave_format, WaveFormat, WAVEFORMAT_ID_EXTENSIBLE, WAVEFORMAT_ID_IEEE_FLOAT,
    WAVEFORMAT_ID_PCM,
};
use crate::le::{
    le2, le4, le4_bytes, lemma_le4_bytes_of_le4, push_le2, push_le4, read_le2, read_le4,
};
use crate::chunk::{data_id, fmt_id};
use crate::matrix::{
    channel_codes_to_bytes, channel_major_bytes, data_codes_to_bytes, data_decodes, data_frames,
    decode_err_ok, encode_codec_err_ok, frames_bytes_take, matrix_frames, matrix_in_range,
    matrix_model, matrix_shape_err_ok, rows_len_eq, swap_index, to_channel_codes, to_data_codes,
};
use crate::codec::{code_of_group, group_len_ok};
use crate::matrix::{lemma_orientation_equivalence, CodeMatrix};
use vstd::prelude::*;

verus! {

/// A whole RIFF/WAVE container: its sub chunks, in file order.
#[derive(Clone, PartialEq, Debug)]
pub struct WavFile {
    /// Sub chunk list.
    pub sub_chunks: Vec<SubChunk>,
}

/// Compare two chunk identifiers byte for byte.
fn chunk_id_eq(a: &[u8; 4], b: &[u8; 4]) -> (r: bool)
    ensures
        r <==> a@ == b@,
{
    let r = a[0] == b[0] && a[1] == b[1] && a[2] == b[2] && a[3] == b[3];
    proof {
        if r {
            assert(a@ =~= b@);
        }
    }
    r
}

/// Relies on `String::from_utf8_lossy`: bytes below 0x80 decode to the
/// characters with the same values.
#[verifier::external_body]
fn chunk_id_label(chunk_id: &[u8; 4]) -> (r: String)
    ensures
        id_is_ascii(chunk_id@) ==> r@ == id_chars(chunk_id@),
{
    String::from_utf8_lossy(chunk_id).into_owned()
}

/// The error reported when the file bytes do not open, following the
/// order in which the header checks run: the `RIFF` tag, the declared
/// size, the `WAVE` tag, then the chunk walk.
pub open spec fn open_err_ok(b: Seq<u8>, e: WavF64VecError) -> bool {
    if b.len() < 4 || b.subrange(0, 4) != riff_tag() {
        &&& e.err_kind == WavF64VecErrorKind::FileIsNotCompatibleFormat
        &&& e.op_additional_message matches Some(m) && m@ == "\"RIFF\""@
    } else if b.len() < 8 || le4(b.subrange(4, 8)) != b.len() - 8 {
        &&& e.err_kind == WavF64VecErrorKind::FileIsNotCompatibleFormat
        &&& e.op_additional_message matches Some(m) && m@ == "RIFF Size"@
    } else if b.len() < 12 || b.subrange(8, 12) != wave_tag() {
        &&& e.err_kind == WavF64VecErrorKind::FileIsNotCompatibleFormat
        &&& e.op_additional_message matches Some(m) && m@ == "\"WAVE\""@
    } else {
        &&& e.err_kind == WavF64VecErrorKind::SubChunkSizeError
        &&& e.op_additional_message is None
    }
}

/// An error value carries the given kind and message text.
pub open spec fn err_is(e: WavF64VecError, kind: WavF64VecErrorKind, msg: Seq<char>) -> bool {
    &&& e.err_kind == kind
    &&& e.op_additional_message matches Some(m) && m@ == msg
}

/// Walking the chunk list for audio extraction, in file order: the first
/// `fmt ` chunk is decoded where it stands, a second `fmt ` or `data`
/// chunk is a duplication, and at the end both chunks must have been
/// found. The result is the pair of their positions.
pub open spec fn audio_scan(
    ms: Seq<ChunkModel>,
    k: int,
    fmt_idx: Option<int>,
    data_idx: Option<int>,
) -> Result<(int, int), (WavF64VecErrorKind, Seq<char>)>
    decreases ms.len() - k,
{
    if k < 0 || k >= ms.len() {
        match fmt_idx {
            Option::None => Result::Err((WavF64VecErrorKind::NoRequiredSubChunk, "\"fmt\""@)),
            Option::Some(fi) => match data_idx {
                Option::None => Result::Err(
                    (WavF64VecErrorKind::NoRequiredSubChunk, "\"data\""@),
                ),
                Option::Some(di) => Result::Ok((fi, di)),
            },
        }
    } else if ms[k].0 == fmt_id() {
        if fmt_idx is Some {
            Result::Err((WavF64VecErrorKind::SubChunkDuplication, "\"fmt\""@))
        } else if !fmt_parse_ok(ms[k].1) {
            Result::Err((fmt_parse_err_kind(ms[k].1), fmt_parse_err_msg(ms[k].1)))
        } else {
            audio_scan(ms, k + 1, Option::Some(k), data_idx)
        }
    } else if ms[k].0 == data_id() {
        if data_idx is Some {
            Result::Err((WavF64VecErrorKind::SubChunkDuplication, "\"data\""@))
        } else {
            audio_scan(ms, k + 1, fmt_idx, Option::Some(k))
        }
    } else {
        audio_scan(ms, k + 1, fmt_idx, data_idx)
    }
}

/// Walking the chunk list to locate the `fmt ` and `data` positions for
/// an update: a duplicate of either fails, absence of either is allowed.
pub open spec fn locate_scan(
    ms: Seq<ChunkModel>,
    k: int,
    fmt_idx: Option<int>,
    data_idx: Option<int>,
) -> Result<(Option<int>, Option<int>), (WavF64VecErrorKind, Seq<char>)>
    decreases ms.len() - k,
{
    if k < 0 || k >= ms.len() {
        Result::Ok((fmt_idx, data_idx))
    } else if ms[k].0 == fmt_id() {
        if fmt_idx is Some {
            Result::Err((WavF64VecErrorKind::SubChunkDuplication, "\"fmt\""@))
        } else {
            locate_scan(ms, k + 1, Option::Some(k), data_idx)
        }
    } else if ms[k].0 == data_id() {
        if data_idx is Some {
            Result::Err((WavF64VecErrorKind::SubChunkDuplication, "\"data\""@))
        } else {
            locate_scan(ms, k + 1, fmt_idx, Option::Some(k))
        }
    } else {
        locate_scan(ms, k + 1, fmt_idx, data_idx)
    }
}

/// Replace the chunk at the given position, or append when there is none.
pub open spec fn upsert_model(ms: Seq<ChunkModel>, op_idx: Option<int>, m: ChunkModel) -> Seq<
    ChunkModel,
> {
    match op_idx {
        Option::Some(i) => ms.update(i, m),
        Option::None => ms.push(m),
    }
}

/// Orientation equivalence at the container level: installing a
/// channel-major matrix and installing the frame-major matrix holding
/// the same samples write the same audio bodies, so containers that
/// start equal end with byte-identical serialized files.
pub proof fn lemma_container_orientation_equivalence(
    ms: Seq<ChunkModel>,
    wf: WaveFormat,
    m1: CodeMatrix,
    m2: CodeMatrix,
    frames: int,
)
    requires
        1 <= wf.channel,
        0 <= frames,
        m1.len() == wf.channel,
        rows_len_eq(m1, frames),
        m2.len() == frames,
        rows_len_eq(m2, wf.channel as int),
        forall|ch: int, i: int|
            0 <= ch < wf.channel && 0 <= i < frames ==> m1[ch][i] == m2[i][ch],
    ensures
        ({
            let fid = wf.id as int;
            let size = wf.bits as int / 8;
            let d1 = channel_major_bytes(fid, size, m1);
            let d2 = frames_bytes_take(fid, size, swap_index(m2, frames, wf.channel as int), frames);
            let ops = locate_scan(ms, 0, Option::None, Option::None)->Ok_0;
            &&& d2 == d1
            &&& file_bytes(
                upsert_model(
                    upsert_model(ms, ops.0, (fmt_id(), fmt_encode(wf))),
                    ops.1,
                    (data_id(), d2),
                ),
            ) == file_bytes(
                upsert_model(
                    upsert_model(ms, ops.0, (fmt_id(), fmt_encode(wf))),
                    ops.1,
                    (data_id(), d1),
                ),
            )
        }),
{
    lemma_orientation_equivalence(
        wf.id as int,
        wf.bits as int / 8,
        m1,
        m2,
        wf.channel as int,
        frames,
    );
}

/// Copy a byte vector.
fn clone_bytes(v: &Vec<u8>) -> (r: Vec<u8>)
    ensures
        r@ == v@,
{
    let r = v.clone();
    proof {
        assert forall|i: int| 0 <= i < v@.len() implies r@[i] == v@[i] by {
            assert(cloned::<u8>(v@[i], r@[i]));
        }
        assert(r@ =~= v@);
    }
    r
}

impl WavFile {
    /// The container's mathematical image: its chunks' identifiers and
    /// bodies, in order.
    pub open spec fn model(&self) -> Seq<ChunkModel> {
        chunks_model(self.sub_chunks@)
    }

    /// An empty container.
    pub fn new() -> (r: WavFile)
        ensures
            r.model() =~= Seq::<ChunkModel>::empty(),
    {
        WavFile { sub_chunks: Vec::new() }
    }

    /// The position of the first chunk carrying `sub_chunk_id`, if any.
    pub fn get_sub_chunk_idx(&mut self, sub_chunk_id: [u8; 4]) -> (r: Option<usize>)
        ensures
            final(self).sub_chunks == old(self).sub_chunks,
            match r {
                Some(i) => is_first_match(old(self).model(), sub_chunk_id@, i as int),
                None => no_match(old(self).model(), sub_chunk_id@),
            },
    {
        let n = self.sub_chunks.len();
        let mut idx: usize = 0;
        while idx < n
            invariant
                n == self.sub_chunks@.len(),
                idx <= n,
                self.sub_chunks == old(self).sub_chunks,
                forall|j: int| 0 <= j < idx ==> self.model()[j].0 != sub_chunk_id@,
            decreases n - idx,
        {
            if chunk_id_eq(&self.sub_chunks[idx].chunk_id, &sub_chunk_id) {
                return Some(idx);
            }
            idx = idx + 1;
        }
        None
    }

    /// The identifiers of all chunks, in order.
    pub fn get_sub_chunk_id_vec(&mut self) -> (r: Vec<[u8; 4]>)
        ensures
            final(self).sub_chunks == old(self).sub_chunks,
            r@.len() == old(self).model().len(),
            forall|j: int| 0 <= j < r@.len() ==> r@[j]@ == old(self).model()[j].0,
    {
        let mut sub_chunk_id_vec: Vec<[u8; 4]> = Vec::new();
        let n = self.sub_chunks.len();
        for idx in 0..n
            invariant
                n == self.sub_chunks@.len(),
                self.sub_chunks == old(self).sub_chunks,
                sub_chunk_id_vec@.len() == idx,
                forall|j: int| 0 <= j < idx ==> sub_chunk_id_vec@[j]@ == self.model()[j].0,
        {
            sub_chunk_id_vec.push(self.sub_chunks[idx].chunk_id);
        }
        sub_chunk_id_vec
    }

    /// Remove the first chunk carrying `sub_chunk_id`. True when one was
    /// removed, false when none carries the identifier.
    pub fn delete_sub_chunk(&mut self, sub_chunk_id: [u8; 4]) -> (r: bool)
        ensures
            r == !no_match(old(self).model(), sub_chunk_id@),
            !r ==> final(self).sub_chunks == old(self).sub_chunks,
            forall|i: int|
                is_first_match(old(self).model(), sub_chunk_id@, i) ==> final(self).model()
                    == old(self).model().remove(i),
    {
        let n = self.sub_chunks.len();
        let mut idx: usize = 0;
        while idx < n
            invariant
                n == self.sub_chunks@.len(),
                idx <= n,
                self.sub_chunks == old(self).sub_chunks,
                forall|j: int| 0 <= j < idx ==> self.model()[j].0 != sub_chunk_id@,
            decreases n - idx,
        {
            if chunk_id_eq(&self.sub_chunks[idx].chunk_id, &sub_chunk_id) {
                proof {
                    assert(is_first_match(self.model(), sub_chunk_id@, idx as int));
                }
                let ghost before = self.model();
                self.sub_chunks.remove(idx);
                proof {
                    assert(self.model() =~= before.remove(idx as int));
                }
                return true;
            }
            idx = idx + 1;
        }
        false
    }

    /// Decode a `fmt ` chunk body into a format, resolving the
    /// extensible indirection and checking the derived fields against the
    /// plain ones.
    pub fn get_format_from_chunk(chunk_body: &Vec<u8>) -> (r: Result<WaveFormat, WavF64VecError>)
        ensures
            r is Ok <==> fmt_parse_ok(chunk_body@),
            match r {
                Ok(wf) => wf == fmt_wave_format(chunk_body@),
                Err(e) => {
                    &&& e.err_kind == fmt_parse_err_kind(chunk_body@)
                    &&& e.op_additional_message matches Some(m) && m@ == fmt_parse_err_msg(
                        chunk_body@,
                    )
                },
            },
    {
        if chunk_body.len() < 0x10 {
            return Err(
                WavF64VecError::new(
                    WavF64VecErrorKind::SubChunkSizeError,
                    Some(String::from_str("\"fmt\"")),
                ),
            );
        }
        let raw_id = read_le2(chunk_body, 0);
        proof {
            assert(raw_id as int == fmt_raw_id(chunk_body@));
        }
        let format_id: u64;
        if raw_id == WAVEFORMAT_ID_PCM as u64 || raw_id == WAVEFORMAT_ID_IEEE_FLOAT as u64 {
            format_id = raw_id;
        } else if raw_id == WAVEFORMAT_ID_EXTENSIBLE as u64 {
            if chunk_body.len() < 0x28 {
                return Err(
                    WavF64VecError::new(
                        WavF64VecErrorKind::SubChunkSizeError,
                        Some(String::from_str("\"fmt\"")),
                    ),
                );
            }
            let sub_id = read_le2(chunk_body, 0x18);
            proof {
                assert(sub_id as int == fmt_sub_id(chunk_body@));
            }
            if sub_id != WAVEFORMAT_ID_PCM as u64 && sub_id != WAVEFORMAT_ID_IEEE_FLOAT as u64 {
                return Err(
                    WavF64VecError::new(
                        WavF64VecErrorKind::FormatIsNotSupported,
                        Some(String::from_str("format id")),
                    ),
                );
            }
            let g0 = read_le4(chunk_body, 0x18);
            let g1 = read_le4(chunk_body, 0x1c);
            let g2 = read_le4(chunk_body, 0x20);
            let g3 = read_le4(chunk_body, 0x24);
            proof {
                lemma_le4_bytes_of_le4(chunk_body@.subrange(0x18, 0x1c));
                lemma_le4_bytes_of_le4(chunk_body@.subrange(0x1c, 0x20));
                lemma_le4_bytes_of_le4(chunk_body@.subrange(0x20, 0x24));
                lemma_le4_bytes_of_le4(chunk_body@.subrange(0x24, 0x28));
            }
            if g0 != sub_id || g1 != 0x0010_0000 || g2 != 0xaa00_0080 || g3 != 0x719b_3800 {
                proof {
                    if chunk_body@.subrange(0x18, 0x28) == fmt_guid_bytes(sub_id as int) {
                        let guid = fmt_guid_bytes(sub_id as int);
                        assert(chunk_body@.subrange(0x18, 0x1c) =~= guid.subrange(0, 4));
                        assert(chunk_body@.subrange(0x1c, 0x20) =~= guid.subrange(4, 8));
                        assert(chunk_body@.subrange(0x20, 0x24) =~= guid.subrange(8, 12));
                        assert(chunk_body@.subrange(0x24, 0x28) =~= guid.subrange(12, 16));
                        assert(guid.subrange(0, 4) =~= le4_bytes(sub_id as int));
                        assert(guid.subrange(4, 8) =~= le4_bytes(0x0010_0000));
                        assert(guid.subrange(8, 12) =~= le4_bytes(0xaa00_0080));
                        assert(guid.subrange(12, 16) =~= le4_bytes(0x719b_3800));
                        assert(false);
                    }
                }
                return Err(
                    WavF64VecError::new(
                        WavF64VecErrorKind::FormatIsNotSupported,
                        Some(String::from_str("format id")),
                    ),
                );
            }
            proof {
                assert(chunk_body@.subrange(0x18, 0x28) =~= chunk_body@.subrange(0x18, 0x1c)
                    + chunk_body@.subrange(0x1c, 0x20) + chunk_body@.subrange(0x20, 0x24)
                    + chunk_body@.subrange(0x24, 0x28));
                assert(chunk_body@.subrange(0x18, 0x1c) == le4_bytes(sub_id as int));
                assert(chunk_body@.subrange(0x1c, 0x20) == le4_bytes(0x0010_0000));
                assert(chunk_body@.subrange(0x20, 0x24) == le4_bytes(0xaa00_0080));
                assert(chunk_body@.subrange(0x24, 0x28) == le4_bytes(0x719b_3800));
                assert(chunk_body@.subrange(0x18, 0x28) =~= fmt_guid_bytes(sub_id as int));
                assert(fmt_id_ok(chunk_body@));
            }
            format_id = sub_id;
        } else {
            return Err(
                WavF64VecError::new(
                    WavF64VecErrorKind::FormatIsNotSupported,
                    Some(String::from_str("format id")),
                ),
            );
        }
        let channel = read_le2(chunk_body, 0x02);
        let sampling_rate = read_le4(chunk_body, 0x04);
        let bytes_per_sec = read_le4(chunk_body, 0x08);
        let block_size = read_le2(chunk_body, 0x0c);
        let bits = read_le2(chunk_body, 0x0e);
        proof {
            assert(channel as int == fmt_channel(chunk_body@));
            assert(sampling_rate as int == fmt_rate(chunk_body@));
            assert(bytes_per_sec as int == fmt_bytes_per_sec(chunk_body@));
            assert(block_size as int == fmt_block_size(chunk_body@));
            assert(bits as int == fmt_bits(chunk_body@));
            assert((channel as int) * (sampling_rate as int) < 0x1_0000_0000_0000 && (channel
                as int) * (sampling_rate as int) * ((bits as int) / 8) < 0x2000_0000_0000_0000 && (
            channel as int) * (bits as int) < 0x1_0000_0000) by (nonlinear_arith)
                requires
                    0 <= (channel as int) < 0x10000,
                    0 <= (sampling_rate as int) < 0x1_0000_0000,
                    0 <= (bits as int) < 0x10000,
                    0 <= (bits as int) / 8 < 0x2000,
            ;
        }
        if bytes_per_sec != channel * sampling_rate * (bits / 8) {
            return Err(
                WavF64VecError::new(
                    WavF64VecErrorKind::SubChunkSizeError,
                    Some(String::from_str("bytes per sec")),
                ),
            );
        }
        if block_size != channel * bits / 8 {
            return Err(
                WavF64VecError::new(
                    WavF64VecErrorKind::SubChunkSizeError,
                    Some(String::from_str("block size")),
                ),
            );
        }
        Ok(
            WaveFormat {
                id: format_id as usize,
                channel: channel as usize,
                sampling_rate: sampling_rate as usize,
                bits: bits as usize,
            },
        )
    }

    /// Encode a format as the canonical 16-byte `fmt ` chunk body, with
    /// the derived fields recomputed. The plain layout is always emitted,
    /// never the extensible one.
    pub fn set_format(&self, wave_format: &WaveFormat) -> (r: Result<Vec<u8>, WavF64VecError>)
        requires
            wave_format.channel * wave_format.sampling_rate <= u64::MAX,
            wave_format.channel * wave_format.sampling_rate * (wave_format.bits as int / 8)
                <= u64::MAX,
            wave_format.channel * wave_format.bits <= u64::MAX,
        ensures
            r matches Ok(b) && b@ == fmt_encode(*wave_format),
    {
        let mut chunk_body: Vec<u8> = Vec::new();
        push_le2(&mut chunk_body, wave_format.id as u64);
        push_le2(&mut chunk_body, wave_format.channel as u64);
        push_le4(&mut chunk_body, wave_format.sampling_rate as u64);
        push_le4(
            &mut chunk_body,
            (wave_format.channel as u64) * (wave_format.sampling_rate as u64) * ((wave_format.bits
                as u64) / 8),
        );
        push_le2(&mut chunk_body, (wave_format.channel as u64) * (wave_format.bits as u64) / 8);
        push_le2(&mut chunk_body, wave_format.bits as u64);
        proof {
            assert(chunk_body@ =~= fmt_encode(*wave_format));
        }
        Ok(chunk_body)
    }

    /// The format described by the first `fmt ` chunk: `None` when the
    /// container has no such chunk, an error when its body does not
    /// decode.
    pub fn get_format(&self) -> (r: Result<Option<WaveFormat>, WavF64VecError>)
        ensures
            no_match(self.model(), crate::chunk::fmt_id()) ==> (r matches Ok(o) && o is None),
            forall|i: int|
                is_first_match(self.model(), crate::chunk::fmt_id(), i) ==> match r {
                    Ok(o) => {
                        &&& fmt_parse_ok(#[trigger] self.model()[i].1)
                        &&& o matches Some(wf) && wf == fmt_wave_format(self.model()[i].1)
                    },
                    Err(e) => {
                        &&& !fmt_parse_ok(self.model()[i].1)
                        &&& e.err_kind == fmt_parse_err_kind(self.model()[i].1)
                        &&& e.op_additional_message matches Some(m) && m@ == fmt_parse_err_msg(
                            self.model()[i].1,
                        )
                    },
                },
    {
        let fmt_tag: [u8; 4] = [0x66, 0x6d, 0x74, 0x20];
        proof {
            assert(fmt_tag@ =~= crate::chunk::fmt_id());
        }
        let n = self.sub_chunks.len();
        let mut idx: usize = 0;
        while idx < n
            invariant
                n == self.sub_chunks@.len(),
                idx <= n,
                fmt_tag@ == crate::chunk::fmt_id(),
                forall|j: int| 0 <= j < idx ==> self.model()[j].0 != crate::chunk::fmt_id(),
            decreases n - idx,
        {
            if chunk_id_eq(&self.sub_chunks[idx].chunk_id, &fmt_tag) {
                proof {
                    assert(is_first_match(self.model(), crate::chunk::fmt_id(), idx as int));
                    assert(self.model()[idx as int].1 == self.sub_chunks@[
                    idx as int].bytes_data_vec@);
                }
                match Self::get_format_from_chunk(&self.sub_chunks[idx].bytes_data_vec) {
                    Ok(wf) => {
                        return Ok(Some(wf));
                    },
                    Err(e) => {
                        return Err(e);
                    },
                }
            }
            idx = idx + 1;
        }
        Ok(None)
    }

    /// Extract the audio chunks: the decoded format of the single
    /// `fmt ` chunk and a copy of the single `data` chunk's bytes.
    pub fn get_bytes_audio(&self) -> (r: Result<(WaveFormat, Vec<u8>), WavF64VecError>)
        ensures
            ({
                let scan = audio_scan(self.model(), 0, Option::None, Option::None);
                match r {
                    Ok(p) => {
                        &&& scan is Ok
                        &&& p.0 == fmt_wave_format(self.model()[scan->Ok_0.0].1)
                        &&& p.1@ == self.model()[scan->Ok_0.1].1
                    },
                    Err(e) => {
                        &&& scan is Err
                        &&& err_is(e, scan->Err_0.0, scan->Err_0.1)
                    },
                }
            }),
    {
        let ghost ms = self.model();
        let mut op_wave_format: Option<WaveFormat> = None;
        let mut op_bytes_data: Option<Vec<u8>> = None;
        let ghost mut gf: Option<int> = Option::None;
        let ghost mut gd: Option<int> = Option::None;
        let fmt_tag: [u8; 4] = [0x66, 0x6d, 0x74, 0x20];
        let data_tag: [u8; 4] = [0x64, 0x61, 0x74, 0x61];
        proof {
            assert(fmt_tag@ =~= fmt_id());
            assert(data_tag@ =~= data_id());
        }
        let n = self.sub_chunks.len();
        for idx in 0..n
            invariant
                n == self.sub_chunks@.len(),
                ms == self.model(),
                fmt_tag@ == fmt_id(),
                data_tag@ == data_id(),
                audio_scan(ms, 0, Option::None, Option::None) == audio_scan(ms, idx as int, gf, gd),
                match gf {
                    Option::Some(fi) => {
                        &&& 0 <= fi < idx
                        &&& op_wave_format matches Some(wf) && wf == fmt_wave_format(ms[fi].1)
                        &&& fmt_parse_ok(ms[fi].1)
                    },
                    Option::None => op_wave_format is None,
                },
                match gd {
                    Option::Some(di) => {
                        &&& 0 <= di < idx
                        &&& op_bytes_data matches Some(d) && d@ == ms[di].1
                    },
                    Option::None => op_bytes_data is None,
                },
        {
            proof {
                assert(ms[idx as int] == chunk_model(self.sub_chunks@[idx as int]));
            }
            if chunk_id_eq(&self.sub_chunks[idx].chunk_id, &fmt_tag) {
                if op_wave_format.is_none() {
                    match Self::get_format_from_chunk(&self.sub_chunks[idx].bytes_data_vec) {
                        Ok(wf) => {
                            op_wave_format = Some(wf);
                            proof {
                                gf = Option::Some(idx as int);
                            }
                        },
                        Err(e) => {
                            return Err(e);
                        },
                    }
                } else {
                    return Err(
                        WavF64VecError::new(
                            WavF64VecErrorKind::SubChunkDuplication,
                            Some(String::from_str("\"fmt\"")),
                        ),
                    );
                }
            } else if chunk_id_eq(&self.sub_chunks[idx].chunk_id, &data_tag) {
                if op_bytes_data.is_none() {
                    op_bytes_data = Some(clone_bytes(&self.sub_chunks[idx].bytes_data_vec));
                    proof {
                        gd = Option::Some(idx as int);
                    }
                } else {
                    return Err(
                        WavF64VecError::new(
                            WavF64VecErrorKind::SubChunkDuplication,
                            Some(String::from_str("\"data\"")),
                        ),
                    );
                }
            }
        }
        if op_wave_format.is_none() {
            return Err(
                WavF64VecError::new(
                    WavF64VecErrorKind::NoRequiredSubChunk,
                    Some(String::from_str("\"fmt\"")),
                ),
            );
        }
        if op_bytes_data.is_none() {
            return Err(
                WavF64VecError::new(
                    WavF64VecErrorKind::NoRequiredSubChunk,
                    Some(String::from_str("\"data\"")),
                ),
            );
        }
        Ok((op_wave_format.unwrap(), op_bytes_data.unwrap()))
    }

    /// Replace or append the `fmt ` and `data` chunks with the given
    /// bodies. Duplicates of either chunk fail; both prospective sizes
    /// are prechecked, `fmt ` first, before anything is mutated.
    pub fn update_audio(&mut self, format_buf: Vec<u8>, bytes_data_vec: Vec<u8>) -> (r: Result<
        (),
        WavF64VecError,
    >)
        ensures
            ({
                let ms = old(self).model();
                let scan = locate_scan(ms, 0, Option::None, Option::None);
                let ops = scan->Ok_0;
                let fmt_m = (fmt_id(), format_buf@);
                let data_m = (data_id(), bytes_data_vec@);
                &&& (r is Ok <==> scan is Ok && prospective_total(ms, ops.0, format_buf@.len() as int)
                    <= CHUNKS_SIZE_LIMIT && prospective_total(ms, ops.1, bytes_data_vec@.len() as int)
                    <= CHUNKS_SIZE_LIMIT)
                &&& (r is Ok ==> final(self).model() == upsert_model(
                    upsert_model(ms, ops.0, fmt_m),
                    ops.1,
                    data_m,
                ))
                &&& (r matches Err(e) ==> {
                    &&& final(self).sub_chunks == old(self).sub_chunks
                    &&& (if scan is Err {
                        err_is(e, scan->Err_0.0, scan->Err_0.1)
                    } else if prospective_total(ms, ops.0, format_buf@.len() as int)
                        > CHUNKS_SIZE_LIMIT {
                        err_is(e, WavF64VecErrorKind::SubChunkSizeTooLarge, "fmt "@)
                    } else {
                        err_is(e, WavF64VecErrorKind::SubChunkSizeTooLarge, "data"@)
                    })
                })
            }),
    {
        let ghost ms = self.model();
        let mut op_format_chunk_idx: Option<usize> = None;
        let mut op_data_chunk_idx: Option<usize> = None;
        let fmt_tag: [u8; 4] = [0x66, 0x6d, 0x74, 0x20];
        let data_tag: [u8; 4] = [0x64, 0x61, 0x74, 0x61];
        proof {
            assert(fmt_tag@ =~= fmt_id());
            assert(data_tag@ =~= data_id());
        }
        let n = self.sub_chunks.len();
        for idx in 0..n
            invariant
                n == self.sub_chunks@.len(),
                ms == self.model(),
                self.sub_chunks == old(self).sub_chunks,
                fmt_tag@ == fmt_id(),
                data_tag@ == data_id(),
                locate_scan(ms, 0, Option::None, Option::None) == locate_scan(
                    ms,
                    idx as int,
                    match op_format_chunk_idx {
                        Some(i) => Option::Some(i as int),
                        None => Option::None,
                    },
                    match op_data_chunk_idx {
                        Some(i) => Option::Some(i as int),
                        None => Option::None,
                    },
                ),
                op_format_chunk_idx matches Some(i) ==> i < idx,
                op_data_chunk_idx matches Some(i) ==> i < idx,
        {
            proof {
                assert(ms[idx as int] == chunk_model(self.sub_chunks@[idx as int]));
            }
            if chunk_id_eq(&self.sub_chunks[idx].chunk_id, &fmt_tag) {
                if op_format_chunk_idx.is_none() {
                    op_format_chunk_idx = Some(idx);
                } else {
                    return Err(
                        WavF64VecError::new(
                            WavF64VecErrorKind::SubChunkDuplication,
                            Some(String::from_str("\"fmt\"")),
                        ),
                    );
                }
            } else if chunk_id_eq(&self.sub_chunks[idx].chunk_id, &data_tag) {
                if op_data_chunk_idx.is_none() {
                    op_data_chunk_idx = Some(idx);
                } else {
                    return Err(
                        WavF64VecError::new(
                            WavF64VecErrorKind::SubChunkDuplication,
                            Some(String::from_str("\"data\"")),
                        ),
                    );
                }
            }
        }
        if let Err(e) = self.precheck_sub_chunk_size(
            op_format_chunk_idx,
            format_buf.len(),
            String::from_str("fmt "),
        ) {
            return Err(e);
        }
        if let Err(e) = self.precheck_sub_chunk_size(
            op_data_chunk_idx,
            bytes_data_vec.len(),
            String::from_str("data"),
        ) {
            return Err(e);
        }
        let ghost mid: Seq<ChunkModel>;
        match op_format_chunk_idx {
            Some(chunk_idx) => {
                self.sub_chunks.set(
                    chunk_idx,
                    SubChunk { chunk_id: fmt_tag, bytes_data_vec: format_buf },
                );
                proof {
                    mid = ms.update(chunk_idx as int, (fmt_id(), format_buf@));
                    assert(self.model() =~= mid);
                }
            },
            None => {
                self.sub_chunks.push(SubChunk { chunk_id: fmt_tag, bytes_data_vec: format_buf });
                proof {
                    mid = ms.push((fmt_id(), format_buf@));
                    assert(self.model() =~= mid);
                }
            },
        }
        match op_data_chunk_idx {
            Some(chunk_idx) => {
                self.sub_chunks.set(
                    chunk_idx,
                    SubChunk { chunk_id: data_tag, bytes_data_vec: bytes_data_vec },
                );
                proof {
                    assert(self.model() =~= mid.update(chunk_idx as int, (
                        data_id(),
                        bytes_data_vec@,
                    )));
                }
            },
            None => {
                self.sub_chunks.push(
                    SubChunk { chunk_id: data_tag, bytes_data_vec: bytes_data_vec },
                );
                proof {
                    assert(self.model() =~= mid.push((data_id(), bytes_data_vec@)));
                }
            },
        }
        Ok(())
    }

    /// Decode the container's audio into a channel-major matrix of
    /// sample codes, together with its format.
    pub fn get_channel_code_audio(&self) -> (r: Result<(WaveFormat, Vec<Vec<i64>>), WavF64VecError>)
        ensures
            ({
                let ms = self.model();
                let scan = audio_scan(ms, 0, Option::None, Option::None);
                let wf = fmt_wave_format(ms[scan->Ok_0.0].1);
                let data = ms[scan->Ok_0.1].1;
                &&& (r is Ok <==> scan is Ok && data_decodes(wf, data.len() as int))
                &&& (r matches Ok(p) ==> {
                    let size = wf.bits as int / 8;
                    let step = wf.channel as int * size;
                    let frames = data_frames(wf, data.len() as int);
                    &&& p.0 == wf
                    &&& p.1@.len() == wf.channel
                    &&& (forall|ch: int| 0 <= ch < p.1@.len() ==> #[trigger] p.1@[ch]@.len()
                        == frames)
                    &&& (forall|ch: int, i: int|
                        0 <= ch < p.1@.len() && 0 <= i < frames ==> #[trigger] p.1@[ch]@[i]
                            == code_of_group(
                            wf.id as int,
                            data.subrange(i * step + ch * size, i * step + ch * size + size),
                        ))
                })
                &&& (r matches Err(e) ==> (if scan is Err {
                    err_is(e, scan->Err_0.0, scan->Err_0.1)
                } else {
                    decode_err_ok(wf, data.len() as int, e)
                }))
            }),
    {
        let (wave_format, bytes_data) = match self.get_bytes_audio() {
            Ok(p) => p,
            Err(e) => {
                return Err(e);
            },
        };
        match to_channel_codes(&wave_format, &bytes_data) {
            Ok(m) => Ok((wave_format, m)),
            Err(e) => Err(e),
        }
    }

    /// Decode the container's audio into a frame-major matrix of sample
    /// codes, together with its format.
    pub fn get_data_code_audio(&self) -> (r: Result<(WaveFormat, Vec<Vec<i64>>), WavF64VecError>)
        ensures
            ({
                let ms = self.model();
                let scan = audio_scan(ms, 0, Option::None, Option::None);
                let wf = fmt_wave_format(ms[scan->Ok_0.0].1);
                let data = ms[scan->Ok_0.1].1;
                &&& (r is Ok <==> scan is Ok && data_decodes(wf, data.len() as int))
                &&& (r matches Ok(p) ==> {
                    let size = wf.bits as int / 8;
                    let step = wf.channel as int * size;
                    let frames = data_frames(wf, data.len() as int);
                    &&& p.0 == wf
                    &&& p.1@.len() == frames
                    &&& (forall|i: int| 0 <= i < p.1@.len() ==> #[trigger] p.1@[i]@.len()
                        == wf.channel)
                    &&& (forall|i: int, ch: int|
                        0 <= i < frames && 0 <= ch < wf.channel ==> #[trigger] p.1@[i]@[ch]
                            == code_of_group(
                            wf.id as int,
                            data.subrange(i * step + ch * size, i * step + ch * size + size),
                        ))
                })
                &&& (r matches Err(e) ==> (if scan is Err {
                    err_is(e, scan->Err_0.0, scan->Err_0.1)
                } else {
                    decode_err_ok(wf, data.len() as int, e)
                }))
            }),
    {
        let (wave_format, bytes_data) = match self.get_bytes_audio() {
            Ok(p) => p,
            Err(e) => {
                return Err(e);
            },
        };
        match to_data_codes(&wave_format, &bytes_data) {
            Ok(m) => Ok((wave_format, m)),
            Err(e) => Err(e),
        }
    }

    /// Encode a channel-major matrix of sample codes and install it:
    /// the `fmt ` chunk body is regenerated and both audio chunks are
    /// replaced or appended, under the overflow precheck.
    pub fn update_channel_code_audio(
        &mut self,
        wave_format: &WaveFormat,
        channel_data_vec: &Vec<Vec<i64>>,
    ) -> (r: Result<(), WavF64VecError>)
        requires
            wave_format.channel * wave_format.sampling_rate <= u64::MAX,
            wave_format.channel * wave_format.sampling_rate * (wave_format.bits as int / 8)
                <= u64::MAX,
            wave_format.channel * wave_format.bits <= u64::MAX,
            group_len_ok(wave_format.id as int, wave_format.bits as int / 8) ==> matrix_in_range(
                wave_format.id as int,
                wave_format.bits as int / 8,
                matrix_model(channel_data_vec@),
            ),
        ensures
            ({
                let ms = old(self).model();
                let fid = wave_format.id as int;
                let size = wave_format.bits as int / 8;
                let mm = matrix_model(channel_data_vec@);
                let frames = matrix_frames(mm);
                let enc_ok = mm.len() == wave_format.channel && rows_len_eq(mm, frames) && (frames
                    == 0 || mm.len() == 0 || group_len_ok(fid, size));
                let data_body = channel_major_bytes(fid, size, mm);
                let scan = locate_scan(ms, 0, Option::None, Option::None);
                let ops = scan->Ok_0;
                &&& (r is Ok <==> enc_ok && scan is Ok && prospective_total(
                    ms,
                    ops.0,
                    fmt_encode(*wave_format).len() as int,
                ) <= CHUNKS_SIZE_LIMIT && prospective_total(ms, ops.1, data_body.len() as int)
                    <= CHUNKS_SIZE_LIMIT)
                &&& (r is Ok ==> final(self).model() == upsert_model(
                    upsert_model(ms, ops.0, (fmt_id(), fmt_encode(*wave_format))),
                    ops.1,
                    (data_id(), data_body),
                ))
                &&& (r matches Err(e) ==> {
                    &&& final(self).sub_chunks == old(self).sub_chunks
                    &&& (if !enc_ok {
                        if mm.len() != wave_format.channel || !rows_len_eq(mm, frames) {
                            matrix_shape_err_ok(e)
                        } else {
                            encode_codec_err_ok(*wave_format, e)
                        }
                    } else if scan is Err {
                        err_is(e, scan->Err_0.0, scan->Err_0.1)
                    } else if prospective_total(ms, ops.0, fmt_encode(*wave_format).len() as int)
                        > CHUNKS_SIZE_LIMIT {
                        err_is(e, WavF64VecErrorKind::SubChunkSizeTooLarge, "fmt "@)
                    } else {
                        err_is(e, WavF64VecErrorKind::SubChunkSizeTooLarge, "data"@)
                    })
                })
            }),
    {
        let format_buf: Vec<u8> = match self.set_format(wave_format) {
            Ok(b) => b,
            Err(e) => {
                return Err(e);
            },
        };
        let bytes_data_vec: Vec<u8> = match channel_codes_to_bytes(wave_format, channel_data_vec) {
            Ok(b) => b,
            Err(e) => {
                return Err(e);
            },
        };
        self.update_audio(format_buf, bytes_data_vec)
    }

    /// Encode a frame-major matrix of sample codes and install it: the
    /// `fmt ` chunk body is regenerated and both audio chunks are
    /// replaced or appended, under the overflow precheck.
    pub fn update_data_code_audio(
        &mut self,
        wave_format: &WaveFormat,
        data_channel_vec: &Vec<Vec<i64>>,
    ) -> (r: Result<(), WavF64VecError>)
        requires
            wave_format.channel * wave_format.sampling_rate <= u64::MAX,
            wave_format.channel * wave_format.sampling_rate * (wave_format.bits as int / 8)
                <= u64::MAX,
            wave_format.channel * wave_format.bits <= u64::MAX,
            group_len_ok(wave_format.id as int, wave_format.bits as int / 8) ==> matrix_in_range(
                wave_format.id as int,
                wave_format.bits as int / 8,
                matrix_model(data_channel_vec@),
            ),
        ensures
            ({
                let ms = old(self).model();
                let fid = wave_format.id as int;
                let size = wave_format.bits as int / 8;
                let mm = matrix_model(data_channel_vec@);
                let frames = mm.len() as int;
                let enc_ok = rows_len_eq(mm, wave_format.channel as int) && (frames == 0
                    || wave_format.channel == 0 || group_len_ok(fid, size));
                let data_body = frames_bytes_take(
                    fid,
                    size,
                    swap_index(mm, frames, wave_format.channel as int),
                    frames,
                );
                let scan = locate_scan(ms, 0, Option::None, Option::None);
                let ops = scan->Ok_0;
                &&& (r is Ok <==> enc_ok && scan is Ok && prospective_total(
                    ms,
                    ops.0,
                    fmt_encode(*wave_format).len() as int,
                ) <= CHUNKS_SIZE_LIMIT && prospective_total(ms, ops.1, data_body.len() as int)
                    <= CHUNKS_SIZE_LIMIT)
                &&& (r is Ok ==> final(self).model() == upsert_model(
                    upsert_model(ms, ops.0, (fmt_id(), fmt_encode(*wave_format))),
                    ops.1,
                    (data_id(), data_body),
                ))
                &&& (r matches Err(e) ==> {
                    &&& final(self).sub_chunks == old(self).sub_chunks
                    &&& (if !enc_ok {
                        if !rows_len_eq(mm, wave_format.channel as int) {
                            matrix_shape_err_ok(e)
                        } else {
                            encode_codec_err_ok(*wave_format, e)
                        }
                    } else if scan is Err {
                        err_is(e, scan->Err_0.0, scan->Err_0.1)
                    } else if prospective_total(ms, ops.0, fmt_encode(*wave_format).len() as int)
                        > CHUNKS_SIZE_LIMIT {
                        err_is(e, WavF64VecErrorKind::SubChunkSizeTooLarge, "fmt "@)
                    } else {
                        err_is(e, WavF64VecErrorKind::SubChunkSizeTooLarge, "data"@)
                    })
                })
            }),
    {
        let format_buf: Vec<u8> = match self.set_format(wave_format) {
            Ok(b) => b,
            Err(e) => {
                return Err(e);
            },
        };
        let bytes_data_vec: Vec<u8> = match data_codes_to_bytes(wave_format, data_channel_vec) {
            Ok(b) => b,
            Err(e) => {
                return Err(e);
            },
        };
        self.update_audio(format_buf, bytes_data_vec)
    }

    /// Check that the chunk list would still fit the 32-bit RIFF size
    /// budget after giving the chunk at `op_chunk_idx` a body of
    /// `new_sub_chunk_body_size` bytes, or, without a target position,
    /// after appending a new chunk with such a body, its 8-byte header
    /// included. On failure the error carries `chunk_id_string` and the
    /// list is to be left untouched by the caller.
    fn precheck_sub_chunk_size(
        &self,
        op_chunk_idx: Option<usize>,
        new_sub_chunk_body_size: usize,
        chunk_id_string: String,
    ) -> (r: Result<(), WavF64VecError>)
        requires
            op_chunk_idx matches Some(i) ==> i < self.sub_chunks@.len(),
        ensures
            ({
                let op = match op_chunk_idx {
                    Some(i) => Some(i as int),
                    None => None,
                };
                &&& (r is Ok <==> prospective_total(self.model(), op, new_sub_chunk_body_size as int)
                    <= CHUNKS_SIZE_LIMIT)
                &&& (r matches Err(e) ==> {
                    &&& e.err_kind == WavF64VecErrorKind::SubChunkSizeTooLarge
                    &&& e.op_additional_message matches Some(m) && m@ == chunk_id_string@
                })
            }),
    {
        let ghost op = match op_chunk_idx {
            Some(i) => Some(i as int),
            None => None::<int>,
        };
        let ghost eff: Seq<int> = match op {
            Some(i) => chunk_sizes(self.model()).update(i, new_sub_chunk_body_size as int),
            None => chunk_sizes(self.model()),
        };
        let ghost base: int = if op is None {
            8 + new_sub_chunk_body_size as int
        } else {
            0
        };
        proof {
            assert(sizes_nonneg(eff));
            assert(prospective_total(self.model(), op, new_sub_chunk_body_size as int) == base
                + sizes_total(eff));
        }
        let mut total_size: u64 = 0;
        if op_chunk_idx.is_none() {
            if new_sub_chunk_body_size as u64 > CHUNKS_SIZE_LIMIT - 8 {
                proof {
                    // the existing chunks add a nonnegative amount on top
                    crate::chunk::lemma_sizes_total_nonneg(eff);
                }
                return Err(
                    WavF64VecError::new(
                        WavF64VecErrorKind::SubChunkSizeTooLarge,
                        Some(chunk_id_string),
                    ),
                );
            }
            total_size = 8 + new_sub_chunk_body_size as u64;
        }
        let n = self.sub_chunks.len();
        for idx in 0..n
            invariant
                n == self.sub_chunks@.len(),
                eff.len() == n,
                sizes_nonneg(eff),
                op == (match op_chunk_idx {
                    Some(i) => Some(i as int),
                    None => None::<int>,
                }),
                op matches Some(j) ==> 0 <= j < n,
                eff == (match op {
                    Some(i) => chunk_sizes(self.model()).update(i, new_sub_chunk_body_size as int),
                    None => chunk_sizes(self.model()),
                }),
                base == if op is None {
                    8 + new_sub_chunk_body_size as int
                } else {
                    0int
                },
                total_size as int == base + sizes_total(eff.take(idx as int)),
                total_size <= CHUNKS_SIZE_LIMIT,
        {
            let sub_chunk_body_size: u64;
            if op_chunk_idx.is_some() && op_chunk_idx.unwrap() == idx {
                sub_chunk_body_size = new_sub_chunk_body_size as u64;
                proof {
                    assert(op == Some(idx as int));
                    assert(eff[idx as int] == new_sub_chunk_body_size as int);
                }
            } else {
                let body_here: usize = self.sub_chunks[idx].bytes_data_vec.len();
                sub_chunk_body_size = body_here as u64;
                proof {
                    assert(self.model()[idx as int] == chunk_model(self.sub_chunks@[idx as int]));
                    assert(chunk_sizes(self.model())[idx as int] == self.model()[
                    idx as int].1.len());
                    if op is Some {
                        // an update elsewhere leaves this position's size alone
                        let j = op->Some_0;
                        assert(chunk_sizes(self.model()).update(
                            j,
                            new_sub_chunk_body_size as int,
                        )[idx as int] == chunk_sizes(self.model())[idx as int]);
                    }
                    assert(eff[idx as int] == body_here as int);
                }
            }
            proof {
                assert(eff[idx as int] == sub_chunk_body_size as int);
                lemma_sizes_total_take_step(eff, idx as int);
            }
            if sub_chunk_body_size > CHUNKS_SIZE_LIMIT || 8 + sub_chunk_body_size
                > CHUNKS_SIZE_LIMIT - total_size {
                proof {
                    assert(base + sizes_total(eff.take(idx as int + 1)) > CHUNKS_SIZE_LIMIT);
                    assert(eff.take(eff.len() as int) =~= eff);
                    lemma_sizes_total_take_le(eff, idx as int + 1);
                    assert(sizes_total(eff.take(idx as int + 1)) <= sizes_total(eff)) by {
                        assert(sizes_total(eff.take(eff.len() as int)) == sizes_total(eff));
                    }
                }
                return Err(
                    WavF64VecError::new(
                        WavF64VecErrorKind::SubChunkSizeTooLarge,
                        Some(chunk_id_string),
                    ),
                );
            }
            total_size = total_size + 8 + sub_chunk_body_size;
        }
        proof {
            assert(eff.take(n as int) =~= eff);
        }
        Ok(())
    }

    /// Serialize the container to file bytes: the RIFF/WAVE header
    /// followed by every chunk in order, each with its identifier and
    /// 4-byte length. Fails when the chunks together would not fit the
    /// 32-bit RIFF size budget.
    pub fn save(&self) -> (r: Result<Vec<u8>, WavF64VecError>)
        ensures
            r is Ok <==> payload_total(self.model()) <= CHUNKS_SIZE_LIMIT,
            match r {
                Ok(b) => b@ == file_bytes(self.model()),
                Err(e) => {
                    &&& e.err_kind == WavF64VecErrorKind::SubChunkSizeTooLarge
                    &&& e.op_additional_message is None
                },
            },
    {
        let ghost ms = self.model();
        let ghost sizes = chunk_sizes(ms);
        let n = self.sub_chunks.len();
        let mut total_size: u64 = 0;
        for idx in 0..n
            invariant
                n == self.sub_chunks@.len(),
                ms == self.model(),
                sizes == chunk_sizes(ms),
                sizes.len() == n,
                sizes_nonneg(sizes),
                total_size as int == sizes_total(sizes.take(idx as int)),
                total_size <= CHUNKS_SIZE_LIMIT,
        {
            let body_here: u64 = self.sub_chunks[idx].bytes_data_vec.len() as u64;
            proof {
                assert(ms[idx as int] == chunk_model(self.sub_chunks@[idx as int]));
                assert(sizes[idx as int] == body_here as int);
                lemma_sizes_total_take_step(sizes, idx as int);
            }
            if body_here > CHUNKS_SIZE_LIMIT || 8 + body_here > CHUNKS_SIZE_LIMIT - total_size {
                proof {
                    assert(sizes.take(sizes.len() as int) =~= sizes);
                    lemma_sizes_total_take_le(sizes, idx as int + 1);
                }
                return Err(WavF64VecError::new(WavF64VecErrorKind::SubChunkSizeTooLarge, None));
            }
            total_size = total_size + 8 + body_here;
        }
        proof {
            assert(sizes.take(n as int) =~= sizes);
        }
        let mut buf: Vec<u8> = Vec::new();
        buf.push(0x52);
        buf.push(0x49);
        buf.push(0x46);
        buf.push(0x46);
        proof {
            assert(buf@ =~= riff_tag());
        }
        push_le4(&mut buf, 4 + total_size);
        buf.push(0x57);
        buf.push(0x41);
        buf.push(0x56);
        buf.push(0x45);
        let ghost header = riff_tag() + le4_bytes(4 + payload_total(ms)) + wave_tag();
        proof {
            assert(buf@ =~= header);
        }
        for idx in 0..n
            invariant
                n == self.sub_chunks@.len(),
                ms == self.model(),
                header == riff_tag() + le4_bytes(4 + payload_total(ms)) + wave_tag(),
                buf@ == header + chunks_bytes(ms.take(idx as int)),
        {
            let ghost buf_start = buf@;
            let id = self.sub_chunks[idx].chunk_id;
            buf.push(id[0]);
            buf.push(id[1]);
            buf.push(id[2]);
            buf.push(id[3]);
            let body_len: usize = self.sub_chunks[idx].bytes_data_vec.len();
            push_le4(&mut buf, body_len as u64);
            buf.extend_from_slice(self.sub_chunks[idx].bytes_data_vec.as_slice());
            proof {
                assert(ms[idx as int] == chunk_model(self.sub_chunks@[idx as int]));
                assert(buf@ =~= buf_start + chunk_bytes(ms[idx as int]));
                lemma_chunks_bytes_take_step(ms, idx as int);
                assert(buf@ =~= header + chunks_bytes(ms.take(idx as int + 1)));
            }
        }
        proof {
            assert(ms.take(n as int) =~= ms);
            assert(buf@ =~= file_bytes(ms));
        }
        Ok(buf)
    }

    /// Parse whole file bytes into this container: check the RIFF/WAVE
    /// header, then collect the chunks in file order. On failure the
    /// container is left untouched; a trailing remainder shorter than one
    /// chunk header is ignored.
    pub fn open(&mut self, buf: &Vec<u8>) -> (r: Result<(), WavF64VecError>)
        ensures
            r is Ok <==> riff_header_ok(buf@) && parse_chunks(buf@.skip(12)) is Some,
            match r {
                Ok(()) => Some(final(self).model()) == parse_chunks(buf@.skip(12)),
                Err(e) => {
                    &&& final(self).sub_chunks == old(self).sub_chunks
                    &&& open_err_ok(buf@, e)
                },
            },
    {
        let total = buf.len();
        if total < 4 || !(buf[0] == 0x52 && buf[1] == 0x49 && buf[2] == 0x46 && buf[3] == 0x46) {
            proof {
                if total >= 4 && buf@.subrange(0, 4) == riff_tag() {
                    assert(buf@.subrange(0, 4)[0] == 0x52u8);
                    assert(buf@.subrange(0, 4)[1] == 0x49u8);
                    assert(buf@.subrange(0, 4)[2] == 0x46u8);
                    assert(buf@.subrange(0, 4)[3] == 0x46u8);
                }
            }
            return Err(
                WavF64VecError::new(
                    WavF64VecErrorKind::FileIsNotCompatibleFormat,
                    Some(String::from_str("\"RIFF\"")),
                ),
            );
        }
        proof {
            assert(buf@.subrange(0, 4) =~= riff_tag());
        }
        if total < 8 {
            return Err(
                WavF64VecError::new(
                    WavF64VecErrorKind::FileIsNotCompatibleFormat,
                    Some(String::from_str("RIFF Size")),
                ),
            );
        }
        let riff_size = read_le4(buf, 4);
        if riff_size != (total - 8) as u64 {
            return Err(
                WavF64VecError::new(
                    WavF64VecErrorKind::FileIsNotCompatibleFormat,
                    Some(String::from_str("RIFF Size")),
                ),
            );
        }
        if total < 12 || !(buf[8] == 0x57 && buf[9] == 0x41 && buf[10] == 0x56 && buf[11]
            == 0x45) {
            proof {
                if total >= 12 && buf@.subrange(8, 12) == wave_tag() {
                    assert(buf@.subrange(8, 12)[0] == 0x57u8);
                    assert(buf@.subrange(8, 12)[1] == 0x41u8);
                    assert(buf@.subrange(8, 12)[2] == 0x56u8);
                    assert(buf@.subrange(8, 12)[3] == 0x45u8);
                }
            }
            return Err(
                WavF64VecError::new(
                    WavF64VecErrorKind::FileIsNotCompatibleFormat,
                    Some(String::from_str("\"WAVE\"")),
                ),
            );
        }
        proof {
            assert(buf@.subrange(8, 12) =~= wave_tag());
            assert(riff_header_ok(buf@));
        }
        let mut sub_chunks_vec: Vec<SubChunk> = Vec::new();
        let mut pos: usize = 12;
        while total - pos >= 8
            invariant
                total == buf@.len(),
                riff_header_ok(buf@),
                12 <= pos <= total,
                parse_chunks(buf@.skip(12)) is Some <==> parse_chunks(buf@.skip(pos as int))
                    is Some,
                parse_chunks(buf@.skip(pos as int)) matches Some(rest) ==> parse_chunks(
                    buf@.skip(12),
                ) == Some(chunks_model(sub_chunks_vec@) + rest),
            decreases total - pos,
        {
            let ghost tail = buf@.skip(pos as int);
            let body_size_u64 = read_le4(buf, pos + 4);
            let body_size: usize = body_size_u64 as usize;
            proof {
                assert(tail.subrange(4, 8) =~= buf@.subrange(pos + 4, pos + 8));
                assert(le4(tail.subrange(4, 8)) == body_size as int);
            }
            if total - pos - 8 < body_size {
                proof {
                    assert(tail.len() < 8 + body_size);
                    assert(parse_chunks(tail) is None);
                }
                return Err(WavF64VecError::new(WavF64VecErrorKind::SubChunkSizeError, None));
            }
            let chunk_id: [u8; 4] = [buf[pos], buf[pos + 1], buf[pos + 2], buf[pos + 3]];
            let body_vec: Vec<u8> = vstd::slice::slice_to_vec(
                &buf[pos + 8..pos + 8 + body_size],
            );
            let sub_chunk = SubChunk { chunk_id, bytes_data_vec: body_vec };
            proof {
                assert(chunk_model(sub_chunk).0 =~= tail.subrange(0, 4));
                assert(chunk_model(sub_chunk).1 =~= tail.subrange(8, 8 + body_size as int));
                assert(tail.skip(8 + body_size as int) =~= buf@.skip(
                    pos as int + 8 + body_size as int,
                ));
            }
            let ghost before = chunks_model(sub_chunks_vec@);
            sub_chunks_vec.push(sub_chunk);
            proof {
                assert(chunks_model(sub_chunks_vec@) =~= before.push(chunk_model(sub_chunk)));
                let parsed_rest = parse_chunks(buf@.skip(pos as int + 8 + body_size as int));
                if parsed_rest is Some {
                    let rest = parsed_rest->Some_0;
                    assert(parse_chunks(tail) == Some(
                        seq![(tail.subrange(0, 4), tail.subrange(8, 8 + body_size as int))] + rest,
                    ));
                    assert(chunks_model(sub_chunks_vec@) + rest =~= before + (seq![
                        (tail.subrange(0, 4), tail.subrange(8, 8 + body_size as int)),
                    ] + rest));
                }
            }
            pos = pos + 8 + body_size;
        }
        proof {
            assert(buf@.skip(pos as int).len() < 8);
            assert(parse_chunks(buf@.skip(pos as int)) == Some(Seq::<ChunkModel>::empty()));
            assert(chunks_model(sub_chunks_vec@) + Seq::<ChunkModel>::empty() =~= chunks_model(
                sub_chunks_vec@,
            ));
        }
        self.sub_chunks = sub_chunks_vec;
        Ok(())
    }

    /// Replace the first chunk carrying the new chunk's identifier, or
    /// append the new chunk when none does. The overflow precheck runs
    /// first; on failure the container is left unchanged and the error
    /// names the chunk.
    pub fn update_sub_chunk(&mut self, new_chunk: SubChunk) -> (r: Result<(), WavF64VecError>)
        ensures
            ({
                let ms = old(self).model();
                let nm = chunk_model(new_chunk);
                &&& (no_match(ms, nm.0) ==> {
                    &&& (r is Ok <==> payload_total(ms) + 8 + nm.1.len() <= CHUNKS_SIZE_LIMIT)
                    &&& (r is Ok ==> final(self).model() == ms.push(nm))
                })
                &&& (forall|i: int|
                    is_first_match(ms, nm.0, i) ==> {
                        &&& (r is Ok <==> sizes_total(chunk_sizes(ms).update(i, nm.1.len() as int))
                            <= CHUNKS_SIZE_LIMIT)
                        &&& (r is Ok ==> final(self).model() == ms.update(i, nm))
                    })
                &&& (r matches Err(e) ==> {
                    &&& final(self).sub_chunks == old(self).sub_chunks
                    &&& e.err_kind == WavF64VecErrorKind::SubChunkSizeTooLarge
                    &&& (id_is_ascii(nm.0) ==> (e.op_additional_message matches Some(m) && m@
                        == id_chars(nm.0)))
                })
            }),
    {
        let ghost ms = self.model();
        let mut op_chunk_idx: Option<usize> = None;
        let n = self.sub_chunks.len();
        for idx in 0..n
            invariant
                n == self.sub_chunks@.len(),
                ms == self.model(),
                self.sub_chunks == old(self).sub_chunks,
                match op_chunk_idx {
                    Some(j) => is_first_match(ms, new_chunk.chunk_id@, j as int),
                    None => forall|j: int| 0 <= j < idx ==> ms[j].0 != new_chunk.chunk_id@,
                },
        {
            if op_chunk_idx.is_none() && chunk_id_eq(
                &self.sub_chunks[idx].chunk_id,
                &new_chunk.chunk_id,
            ) {
                op_chunk_idx = Some(idx);
            }
        }
        let label = chunk_id_label(&new_chunk.chunk_id);
        let body_len = new_chunk.bytes_data_vec.len();
        if let Err(e) = self.precheck_sub_chunk_size(op_chunk_idx, body_len, label) {
            return Err(e);
        }
        match op_chunk_idx {
            Some(idx) => {
                self.sub_chunks.set(idx, new_chunk);
                proof {
                    assert(self.model() =~= ms.update(idx as int, chunk_model(new_chunk)));
                }
            },
            None => {
                self.sub_chunks.push(new_chunk);
                proof {
                    assert(self.model() =~= ms.push(chunk_model(new_chunk)));
                }
            },
        }
        Ok(())
    }
}

} // verus!
