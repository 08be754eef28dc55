use crate::codec::{
    bytes_to_code, code_in_range, code_of_group, code_to_bytes, group_len_ok, group_of_code,
};
use crate::error::{WavF64VecError, WavF64VecErrorKind};
use crate::format::{format_supported, WaveFormat, WAVEFORMAT_ID_IEEE_FLOAT, WAVEFORMAT_ID_PCM};
use vstd::arithmetic::div_mod::lemma_fundamental_div_mod;
use vstd::prelude::*;

verus! {

// ---------------------------------------------------------------------------
// Sample matrices of quantized codes.
//
// Audio data is a matrix of sample codes, either channel-major (outer
// dimension channel, inner dimension frame) or frame-major (outer
// dimension frame, inner dimension channel). On the wire the matrix is
// stored frame by frame, each frame holding one byte group per channel.
// ---------------------------------------------------------------------------
/// A matrix of sample codes.
pub type CodeMatrix = Seq<Seq<int>>;

/// The mathematical image of an executable code matrix.
pub open spec fn matrix_model(m: Seq<Vec<i64>>) -> CodeMatrix {
    m.map_values(|row: Vec<i64>| row@.map_values(|x: i64| x as int))
}

/// Every row has the given length.
pub open spec fn rows_len_eq(m: CodeMatrix, frames: int) -> bool {
    forall|ch: int| 0 <= ch < m.len() ==> m[ch].len() == frames
}

/// Every code of the matrix lies in the width's range.
pub open spec fn matrix_in_range(format_id: int, len: int, m: CodeMatrix) -> bool {
    forall|ch: int, i: int|
        0 <= ch < m.len() && 0 <= i < m[ch].len() ==> code_in_range(format_id, m[ch][i], len)
}

/// The first `ch` byte groups of frame `i` of a channel-major matrix.
pub open spec fn frame_bytes_take(format_id: int, len: int, m: CodeMatrix, i: int, ch: int) -> Seq<
    u8,
>
    decreases ch,
{
    if ch <= 0 {
        Seq::empty()
    } else {
        frame_bytes_take(format_id, len, m, i, ch - 1) + group_of_code(
            format_id,
            m[ch - 1][i],
            len,
        )
    }
}

/// The bytes of the first `i` frames of a channel-major matrix.
pub open spec fn frames_bytes_take(format_id: int, len: int, m: CodeMatrix, i: int) -> Seq<u8>
    decreases i,
{
    if i <= 0 {
        Seq::empty()
    } else {
        frames_bytes_take(format_id, len, m, i - 1) + frame_bytes_take(
            format_id,
            len,
            m,
            i - 1,
            m.len() as int,
        )
    }
}

/// The number of frames a channel-major matrix holds.
pub open spec fn matrix_frames(m: CodeMatrix) -> int {
    if m.len() == 0 {
        0
    } else {
        m[0].len() as int
    }
}

/// The wire bytes of a channel-major matrix: frame by frame, one byte
/// group per channel within each frame.
pub open spec fn channel_major_bytes(format_id: int, len: int, m: CodeMatrix) -> Seq<u8> {
    frames_bytes_take(format_id, len, m, matrix_frames(m))
}

/// The channel-major image of a frame-major matrix.
pub open spec fn swap_index(m: CodeMatrix, rows: int, cols: int) -> CodeMatrix {
    Seq::new(cols as nat, |c: int| Seq::new(rows as nat, |r: int| m[r][c]))
}

// ---------------------------------------------------------------------------
// Laws of the encoding.
// ---------------------------------------------------------------------------
/// Every byte group of an accepted width has exactly that width.
pub proof fn lemma_group_of_code_len(format_id: int, code: int, len: int)
    requires
        group_len_ok(format_id, len),
    ensures
        group_of_code(format_id, code, len).len() == len,
{
}

/// The first `ch` groups of a frame occupy `ch * len` bytes.
pub proof fn lemma_frame_bytes_take_len(format_id: int, len: int, m: CodeMatrix, i: int, ch: int)
    requires
        group_len_ok(format_id, len),
        0 <= ch <= m.len(),
    ensures
        frame_bytes_take(format_id, len, m, i, ch).len() == ch * len,
    decreases ch,
{
    if ch > 0 {
        lemma_frame_bytes_take_len(format_id, len, m, i, ch - 1);
        lemma_group_of_code_len(format_id, m[ch - 1][i], len);
        assert(frame_bytes_take(format_id, len, m, i, ch) == frame_bytes_take(
            format_id,
            len,
            m,
            i,
            ch - 1,
        ) + group_of_code(format_id, m[ch - 1][i], len));
        assert((ch - 1) * len + len == ch * len) by (nonlinear_arith);
    } else {
        assert(ch * len == 0) by (nonlinear_arith)
            requires
                ch == 0,
        ;
    }
}

/// The first `i` frames occupy `i * (channels * len)` bytes.
pub proof fn lemma_frames_bytes_take_len(format_id: int, len: int, m: CodeMatrix, i: int)
    requires
        group_len_ok(format_id, len),
        0 <= i,
    ensures
        frames_bytes_take(format_id, len, m, i).len() == i * (m.len() * len),
    decreases i,
{
    if i > 0 {
        lemma_frames_bytes_take_len(format_id, len, m, i - 1);
        lemma_frame_bytes_take_len(format_id, len, m, i - 1, m.len() as int);
        assert(frames_bytes_take(format_id, len, m, i) == frames_bytes_take(
            format_id,
            len,
            m,
            i - 1,
        ) + frame_bytes_take(format_id, len, m, i - 1, m.len() as int));
        assert((i - 1) * (m.len() * len) + m.len() * len == i * (m.len() * len))
            by (nonlinear_arith);
    } else {
        assert(i * (m.len() * len) == 0) by (nonlinear_arith)
            requires
                i == 0,
        ;
    }
}

/// Within one frame, the bytes at `ch * len` are channel `ch`'s group.
proof fn lemma_frame_bytes_extract(
    format_id: int,
    len: int,
    m: CodeMatrix,
    i: int,
    ch_limit: int,
    ch: int,
)
    requires
        group_len_ok(format_id, len),
        0 <= ch < ch_limit <= m.len(),
    ensures
        frame_bytes_take(format_id, len, m, i, ch_limit).subrange(ch * len, (ch + 1) * len)
            =~= group_of_code(format_id, m[ch][i], len),
    decreases ch_limit,
{
    lemma_frame_bytes_take_len(format_id, len, m, i, ch_limit - 1);
    lemma_group_of_code_len(format_id, m[ch_limit - 1][i], len);
    assert(0 <= ch * len && (ch + 1) * len <= ch_limit * len) by (nonlinear_arith)
        requires
            0 <= ch < ch_limit,
            0 < len,
    ;
    if ch == ch_limit - 1 {
        assert(frame_bytes_take(format_id, len, m, i, ch_limit).subrange(ch * len, (ch + 1) * len)
            =~= group_of_code(format_id, m[ch][i], len));
    } else {
        lemma_frame_bytes_extract(format_id, len, m, i, ch_limit - 1, ch);
        assert((ch + 1) * len <= (ch_limit - 1) * len) by (nonlinear_arith)
            requires
                ch + 1 <= ch_limit - 1,
                0 < len,
        ;
        assert(frame_bytes_take(format_id, len, m, i, ch_limit).subrange(ch * len, (ch + 1) * len)
            =~= frame_bytes_take(format_id, len, m, i, ch_limit - 1).subrange(
            ch * len,
            (ch + 1) * len,
        ));
    }
}

/// Within the whole stream, the bytes at `i * step + ch * len` are frame
/// `i`'s group for channel `ch`.
proof fn lemma_frames_bytes_extract(
    format_id: int,
    len: int,
    m: CodeMatrix,
    i_limit: int,
    i: int,
    ch: int,
)
    requires
        group_len_ok(format_id, len),
        0 <= i < i_limit,
        0 <= ch < m.len(),
    ensures
        frames_bytes_take(format_id, len, m, i_limit).subrange(
            i * (m.len() * len) + ch * len,
            i * (m.len() * len) + (ch + 1) * len,
        ) =~= group_of_code(format_id, m[ch][i], len),
    decreases i_limit,
{
    let step = m.len() * len;
    lemma_frames_bytes_take_len(format_id, len, m, i_limit - 1);
    lemma_frame_bytes_take_len(format_id, len, m, i_limit - 1, m.len() as int);
    lemma_group_of_code_len(format_id, m[ch][i], len);
    assert(0 <= ch * len && (ch + 1) * len <= step) by (nonlinear_arith)
        requires
            0 <= ch < m.len(),
            0 < len,
            step == m.len() * len,
    ;
    if i == i_limit - 1 {
        lemma_frame_bytes_extract(format_id, len, m, i, m.len() as int, ch);
        assert(i * step + ch * len - (i_limit - 1) * step == ch * len) by (nonlinear_arith)
            requires
                i == i_limit - 1,
                step == m.len() * len,
        ;
        assert(frames_bytes_take(format_id, len, m, i_limit).subrange(
            i * step + ch * len,
            i * step + (ch + 1) * len,
        ) =~= frame_bytes_take(format_id, len, m, i, m.len() as int).subrange(
            ch * len,
            (ch + 1) * len,
        ));
    } else {
        lemma_frames_bytes_extract(format_id, len, m, i_limit - 1, i, ch);
        assert(i * step + (ch + 1) * len <= (i_limit - 1) * step) by (nonlinear_arith)
            requires
                0 <= i,
                i + 1 <= i_limit - 1,
                0 <= ch,
                (ch + 1) * len <= step,
                0 < len,
                step == m.len() * len,
        ;
        assert(frames_bytes_take(format_id, len, m, i_limit).subrange(
            i * step + ch * len,
            i * step + (ch + 1) * len,
        ) =~= frames_bytes_take(format_id, len, m, i_limit - 1).subrange(
            i * step + ch * len,
            i * step + (ch + 1) * len,
        ));
    }
}

/// Round trip: the wire bytes of a channel-major matrix decode back to
/// the matrix, sample for sample and without loss. Together with the
/// decoder's contract this says that writing audio and reading it again
/// reproduces every quantized sample exactly.
pub proof fn lemma_matrix_round_trip(format_id: int, len: int, m: CodeMatrix, frames: int)
    requires
        group_len_ok(format_id, len),
        matrix_in_range(format_id, len, m),
        rows_len_eq(m, frames),
        0 <= frames,
    ensures
        channel_major_bytes(format_id, len, m).len() == frames * (m.len() * len),
        forall|ch: int, i: int|
            0 <= ch < m.len() && 0 <= i < frames ==> code_of_group(
                format_id,
                channel_major_bytes(format_id, len, m).subrange(
                    i * (m.len() * len) + ch * len,
                    i * (m.len() * len) + (ch + 1) * len,
                ),
            ) == m[ch][i],
{
    if m.len() == 0 {
        lemma_frames_bytes_take_len(format_id, len, m, 0);
        assert(frames * (m.len() * len) == 0) by (nonlinear_arith)
            requires
                m.len() == 0,
        ;
    } else {
        assert(matrix_frames(m) == frames);
        lemma_frames_bytes_take_len(format_id, len, m, frames);
    }
    assert forall|ch: int, i: int| 0 <= ch < m.len() && 0 <= i < frames implies code_of_group(
        format_id,
        channel_major_bytes(format_id, len, m).subrange(
            i * (m.len() * len) + ch * len,
            i * (m.len() * len) + (ch + 1) * len,
        ),
    ) == m[ch][i] by {
        lemma_frames_bytes_extract(format_id, len, m, frames, i, ch);
        crate::codec::lemma_code_round_trip(format_id, m[ch][i], len);
    }
}

/// Round trip at the format level: the bytes a channel-major matrix
/// encodes to decode again under the same format, with the same frame
/// count, and sample for sample to the original matrix. Together with
/// the encoder's and decoder's contracts: converting a matrix to data
/// bytes and back reproduces every quantized sample exactly.
pub proof fn lemma_format_round_trip(wf: WaveFormat, m: CodeMatrix, frames: int)
    requires
        format_supported(wf),
        group_len_ok(wf.id as int, wf.bits as int / 8),
        matrix_in_range(wf.id as int, wf.bits as int / 8, m),
        m.len() == wf.channel,
        rows_len_eq(m, frames),
        0 <= frames,
    ensures
        ({
            let fid = wf.id as int;
            let size = wf.bits as int / 8;
            let step = wf.channel as int * size;
            let b = channel_major_bytes(fid, size, m);
            &&& b.len() == frames * step
            &&& data_decodes(wf, b.len() as int)
            &&& data_frames(wf, b.len() as int) == frames
            &&& forall|ch: int, i: int|
                0 <= ch < wf.channel && 0 <= i < frames ==> code_of_group(
                    fid,
                    b.subrange(i * step + ch * size, i * step + ch * size + size),
                ) == m[ch][i]
        }),
{
    let fid = wf.id as int;
    let size = wf.bits as int / 8;
    let step = wf.channel as int * size;
    lemma_matrix_round_trip(fid, size, m, frames);
    let b = channel_major_bytes(fid, size, m);
    assert(b.len() == frames * step);
    if b.len() > 0 {
        vstd::arithmetic::div_mod::lemma_fundamental_div_mod_converse(
            frames * step,
            step,
            frames,
            0,
        );
    }
    assert forall|ch: int, i: int| 0 <= ch < wf.channel && 0 <= i < frames implies code_of_group(
        fid,
        b.subrange(i * step + ch * size, i * step + ch * size + size),
    ) == m[ch][i] by {
        assert(i * (m.len() * size) + ch * size == i * step + ch * size);
        assert(i * (m.len() * size) + (ch + 1) * size == i * step + ch * size + size)
            by (nonlinear_arith)
            requires
                m.len() * size == step,
        ;
    }
}

/// Orientation equivalence: a channel-major matrix and a frame-major
/// matrix holding the same samples encode to identical data bytes, so the
/// two orientations yield byte-identical containers.
pub proof fn lemma_orientation_equivalence(
    format_id: int,
    len: int,
    m1: CodeMatrix,
    m2: CodeMatrix,
    channels: int,
    frames: int,
)
    requires
        1 <= channels,
        0 <= frames,
        m1.len() == channels,
        rows_len_eq(m1, frames),
        m2.len() == frames,
        rows_len_eq(m2, channels),
        forall|ch: int, i: int| 0 <= ch < channels && 0 <= i < frames ==> m1[ch][i] == m2[i][ch],
    ensures
        frames_bytes_take(format_id, len, swap_index(m2, frames, channels), frames)
            == channel_major_bytes(format_id, len, m1),
{
    let sw = swap_index(m2, frames, channels);
    assert(sw =~~= m1);
    assert(matrix_frames(m1) == frames);
}

// ---------------------------------------------------------------------------
// Decoding a data chunk into a matrix.
// ---------------------------------------------------------------------------
/// The data bytes decode cleanly under the format: a whole number of
/// frames of an accepted byte-group width. An empty data chunk always
/// decodes, whatever the format id.
pub open spec fn data_decodes(wf: WaveFormat, data_len: int) -> bool {
    &&& format_supported(wf)
    &&& wf.bits as int / 8 >= 1
    &&& (data_len == 0 || {
        &&& group_len_ok(wf.id as int, wf.bits as int / 8)
        &&& data_len % (wf.channel as int * (wf.bits as int / 8)) == 0
    })
}

/// The number of frames the data bytes hold under the format.
pub open spec fn data_frames(wf: WaveFormat, data_len: int) -> int {
    if data_len == 0 {
        0
    } else {
        data_len / (wf.channel as int * (wf.bits as int / 8))
    }
}

/// The error reported when the data bytes do not decode, following the
/// order in which the checks run.
pub open spec fn decode_err_ok(wf: WaveFormat, data_len: int, e: WavF64VecError) -> bool {
    if !format_supported(wf) {
        &&& e.err_kind == WavF64VecErrorKind::FormatIsNotSupported
        &&& e.op_additional_message matches Some(m) && m@ == (if !(1 <= wf.channel <= 2) {
            "channel number"@
        } else if !(1 <= wf.bits <= 64) {
            "bit rate"@
        } else {
            "sampling rate"@
        })
    } else if wf.bits < 8 {
        &&& e.err_kind == WavF64VecErrorKind::BytesLengthError
        &&& e.op_additional_message is None
    } else if wf.id != WAVEFORMAT_ID_PCM && wf.id != WAVEFORMAT_ID_IEEE_FLOAT {
        &&& e.err_kind == WavF64VecErrorKind::FormatIsNotSupported
        &&& e.op_additional_message matches Some(m) && m@ == "format id"@
    } else {
        &&& e.err_kind == WavF64VecErrorKind::BytesLengthError
        &&& e.op_additional_message is None
    }
}

/// Decode a data chunk into a channel-major matrix: one row per channel,
/// one code per frame.
pub fn to_channel_codes(wave_format: &WaveFormat, bytes_data_vec: &Vec<u8>) -> (r: Result<
    Vec<Vec<i64>>,
    WavF64VecError,
>)
    ensures
        r is Ok <==> data_decodes(*wave_format, bytes_data_vec@.len() as int),
        match r {
            Ok(m) => {
                let size = wave_format.bits as int / 8;
                let step = wave_format.channel as int * size;
                let frames = data_frames(*wave_format, bytes_data_vec@.len() as int);
                &&& m@.len() == wave_format.channel
                &&& forall|ch: int| 0 <= ch < m@.len() ==> m@[ch]@.len() == frames
                &&& forall|ch: int, i: int|
                    0 <= ch < m@.len() && 0 <= i < frames ==> m@[ch]@[i] == code_of_group(
                        wave_format.id as int,
                        bytes_data_vec@.subrange(i * step + ch * size, i * step + ch * size + size),
                    )
            },
            Err(e) => decode_err_ok(*wave_format, bytes_data_vec@.len() as int, e),
        },
{
    if let Err(e) = WaveFormat::format_check(wave_format) {
        return Err(e);
    }
    let size = wave_format.bits / 8;
    if size == 0 {
        return Err(WavF64VecError::new(WavF64VecErrorKind::BytesLengthError, None));
    }
    let channels = wave_format.channel;
    proof {
        assert((channels as int) * (size as int) >= 1 && (channels as int) * (size as int)
            <= 16) by (nonlinear_arith)
            requires
                1 <= (channels as int) <= 2,
                1 <= (size as int) <= 8,
        ;
    }
    let step = channels * size;
    let total = bytes_data_vec.len();
    if total == 0 {
        let mut m: Vec<Vec<i64>> = Vec::new();
        for ch in 0..channels
            invariant
                m@.len() == ch,
                forall|c: int| 0 <= c < ch ==> m@[c]@.len() == 0,
        {
            m.push(Vec::new());
        }
        return Ok(m);
    }
    let fid = wave_format.id;
    if fid != WAVEFORMAT_ID_PCM && fid != WAVEFORMAT_ID_IEEE_FLOAT {
        return Err(
            WavF64VecError::new(
                WavF64VecErrorKind::FormatIsNotSupported,
                Some(String::from_str("format id")),
            ),
        );
    }
    if fid == WAVEFORMAT_ID_PCM && size > 4 || fid == WAVEFORMAT_ID_IEEE_FLOAT && size != 4 {
        return Err(WavF64VecError::new(WavF64VecErrorKind::BytesLengthError, None));
    }
    if total % step != 0 {
        return Err(WavF64VecError::new(WavF64VecErrorKind::BytesLengthError, None));
    }
    let frames = total / step;
    proof {
        lemma_fundamental_div_mod(total as int, step as int);
        assert((frames as int) * (step as int) == total as int);
    }
    let mut m: Vec<Vec<i64>> = Vec::new();
    for ch in 0..channels
        invariant
            channels == wave_format.channel,
            size == wave_format.bits / 8,
            1 <= size <= 8,
            1 <= channels <= 2,
            step == channels * size,
            fid == wave_format.id,
            group_len_ok(fid as int, size as int),
            total == bytes_data_vec@.len(),
            frames * step == total,
            frames == data_frames(*wave_format, total as int),
            m@.len() == ch,
            forall|c: int| 0 <= c < ch ==> m@[c]@.len() == frames,
            forall|c: int, i: int|
                0 <= c < ch && 0 <= i < frames ==> m@[c]@[i] == code_of_group(
                    fid as int,
                    bytes_data_vec@.subrange(
                        i * (step as int) + c * (size as int),
                        i * (step as int) + c * (size as int) + size,
                    ),
                ),
    {
        let mut row: Vec<i64> = Vec::new();
        for i in 0..frames
            invariant
                channels == wave_format.channel,
                size == wave_format.bits / 8,
                1 <= size <= 8,
                1 <= channels <= 2,
                step == channels * size,
                fid == wave_format.id,
                group_len_ok(fid as int, size as int),
                total == bytes_data_vec@.len(),
                frames * step == total,
                ch < channels,
                row@.len() == i,
                forall|k: int|
                    0 <= k < i ==> row@[k] == code_of_group(
                        fid as int,
                        bytes_data_vec@.subrange(
                            k * (step as int) + ch * (size as int),
                            k * (step as int) + ch * (size as int) + size,
                        ),
                    ),
        {
            proof {
                assert((i as int) * (step as int) + (ch as int) * (size as int) + size <= (
                total as int)) by (nonlinear_arith)
                    requires
                        0 <= (i as int) < (frames as int),
                        0 <= (ch as int) < (channels as int),
                        step as int == (channels as int) * (size as int),
                        size >= 1,
                        (frames as int) * (step as int) == total as int,
                ;
            }
            let stt = i * step + ch * size;
            let group = &bytes_data_vec[stt..stt + size];
            match bytes_to_code(fid, group) {
                Ok(c) => row.push(c),
                Err(e) => {
                    return Err(e);
                },
            }
        }
        m.push(row);
    }
    Ok(m)
}

/// Decode a data chunk into a frame-major matrix: one row per frame, one
/// code per channel.
pub fn to_data_codes(wave_format: &WaveFormat, bytes_data_vec: &Vec<u8>) -> (r: Result<
    Vec<Vec<i64>>,
    WavF64VecError,
>)
    ensures
        r is Ok <==> data_decodes(*wave_format, bytes_data_vec@.len() as int),
        match r {
            Ok(m) => {
                let size = wave_format.bits as int / 8;
                let step = wave_format.channel as int * size;
                let frames = data_frames(*wave_format, bytes_data_vec@.len() as int);
                &&& m@.len() == frames
                &&& forall|i: int| 0 <= i < m@.len() ==> m@[i]@.len() == wave_format.channel
                &&& forall|i: int, ch: int|
                    0 <= i < frames && 0 <= ch < wave_format.channel ==> m@[i]@[ch]
                        == code_of_group(
                        wave_format.id as int,
                        bytes_data_vec@.subrange(i * step + ch * size, i * step + ch * size + size),
                    )
            },
            Err(e) => decode_err_ok(*wave_format, bytes_data_vec@.len() as int, e),
        },
{
    if let Err(e) = WaveFormat::format_check(wave_format) {
        return Err(e);
    }
    let size = wave_format.bits / 8;
    if size == 0 {
        return Err(WavF64VecError::new(WavF64VecErrorKind::BytesLengthError, None));
    }
    let channels = wave_format.channel;
    proof {
        assert((channels as int) * (size as int) >= 1 && (channels as int) * (size as int)
            <= 16) by (nonlinear_arith)
            requires
                1 <= (channels as int) <= 2,
                1 <= (size as int) <= 8,
        ;
    }
    let step = channels * size;
    let total = bytes_data_vec.len();
    if total == 0 {
        return Ok(Vec::new());
    }
    let fid = wave_format.id;
    if fid != WAVEFORMAT_ID_PCM && fid != WAVEFORMAT_ID_IEEE_FLOAT {
        return Err(
            WavF64VecError::new(
                WavF64VecErrorKind::FormatIsNotSupported,
                Some(String::from_str("format id")),
            ),
        );
    }
    if fid == WAVEFORMAT_ID_PCM && size > 4 || fid == WAVEFORMAT_ID_IEEE_FLOAT && size != 4 {
        return Err(WavF64VecError::new(WavF64VecErrorKind::BytesLengthError, None));
    }
    if total % step != 0 {
        return Err(WavF64VecError::new(WavF64VecErrorKind::BytesLengthError, None));
    }
    let frames = total / step;
    proof {
        lemma_fundamental_div_mod(total as int, step as int);
        assert((frames as int) * (step as int) == total as int);
    }
    let mut m: Vec<Vec<i64>> = Vec::new();
    for i in 0..frames
        invariant
            channels == wave_format.channel,
            size == wave_format.bits / 8,
            1 <= size <= 8,
            1 <= channels <= 2,
            step == channels * size,
            fid == wave_format.id,
            group_len_ok(fid as int, size as int),
            total == bytes_data_vec@.len(),
            frames * step == total,
            frames == data_frames(*wave_format, total as int),
            m@.len() == i,
            forall|k: int| 0 <= k < i ==> m@[k]@.len() == channels,
            forall|k: int, c: int|
                0 <= k < i && 0 <= c < channels ==> m@[k]@[c] == code_of_group(
                    fid as int,
                    bytes_data_vec@.subrange(
                        k * (step as int) + c * (size as int),
                        k * (step as int) + c * (size as int) + size,
                    ),
                ),
    {
        let mut row: Vec<i64> = Vec::new();
        for ch in 0..channels
            invariant
                channels == wave_format.channel,
                size == wave_format.bits / 8,
                1 <= size <= 8,
                1 <= channels <= 2,
                step == channels * size,
                fid == wave_format.id,
                group_len_ok(fid as int, size as int),
                total == bytes_data_vec@.len(),
                frames * step == total,
                i < frames,
                row@.len() == ch,
                forall|c: int|
                    0 <= c < ch ==> row@[c] == code_of_group(
                        fid as int,
                        bytes_data_vec@.subrange(
                            (i as int) * (step as int) + c * (size as int),
                            (i as int) * (step as int) + c * (size as int) + size,
                        ),
                    ),
        {
            proof {
                assert((i as int) * (step as int) + (ch as int) * (size as int) + size <= (
                total as int)) by (nonlinear_arith)
                    requires
                        0 <= (i as int) < (frames as int),
                        0 <= (ch as int) < (channels as int),
                        step as int == (channels as int) * (size as int),
                        size >= 1,
                        (frames as int) * (step as int) == total as int,
                ;
            }
            let stt = i * step + ch * size;
            let group = &bytes_data_vec[stt..stt + size];
            match bytes_to_code(fid, group) {
                Ok(c) => row.push(c),
                Err(e) => {
                    return Err(e);
                },
            }
        }
        m.push(row);
    }
    Ok(m)
}

// ---------------------------------------------------------------------------
// Encoding a matrix into data-chunk bytes.
// ---------------------------------------------------------------------------
/// The error reported when the format cannot encode any sample: an
/// unknown id, or a byte-group width the id does not accept.
pub open spec fn encode_codec_err_ok(wf: WaveFormat, e: WavF64VecError) -> bool {
    if wf.id != WAVEFORMAT_ID_PCM && wf.id != WAVEFORMAT_ID_IEEE_FLOAT {
        &&& e.err_kind == WavF64VecErrorKind::FormatIsNotSupported
        &&& e.op_additional_message matches Some(m) && m@ == "format id"@
    } else {
        &&& e.err_kind == WavF64VecErrorKind::BytesLengthError
        &&& e.op_additional_message is None
    }
}

/// The error reported for a matrix whose shape does not fit the format.
pub open spec fn matrix_shape_err_ok(e: WavF64VecError) -> bool {
    &&& e.err_kind == WavF64VecErrorKind::MatrixLengthError
    &&& e.op_additional_message is None
}

/// Encode a channel-major matrix into data-chunk bytes, frame by frame.
pub fn channel_codes_to_bytes(wave_format: &WaveFormat, channel_data_vec: &Vec<Vec<i64>>) -> (r:
    Result<Vec<u8>, WavF64VecError>)
    requires
        group_len_ok(wave_format.id as int, wave_format.bits as int / 8) ==> matrix_in_range(
            wave_format.id as int,
            wave_format.bits as int / 8,
            matrix_model(channel_data_vec@),
        ),
    ensures
        ({
            let fid = wave_format.id as int;
            let size = wave_format.bits as int / 8;
            let mm = matrix_model(channel_data_vec@);
            let frames = matrix_frames(mm);
            &&& (r is Ok <==> mm.len() == wave_format.channel && rows_len_eq(mm, frames) && (frames
                == 0 || mm.len() == 0 || group_len_ok(fid, size)))
            &&& match r {
                Ok(b) => b@ == channel_major_bytes(fid, size, mm),
                Err(e) => if mm.len() != wave_format.channel || !rows_len_eq(mm, frames) {
                    matrix_shape_err_ok(e)
                } else {
                    encode_codec_err_ok(*wave_format, e)
                },
            }
        }),
{
    let ghost mm = matrix_model(channel_data_vec@);
    let ghost fid = wave_format.id as int;
    let ghost size = wave_format.bits as int / 8;
    let channels = wave_format.channel;
    proof {
        assert(mm.len() == channel_data_vec@.len());
    }
    if channel_data_vec.len() != channels {
        return Err(WavF64VecError::new(WavF64VecErrorKind::MatrixLengthError, None));
    }
    let frames = if channels == 0 {
        0
    } else {
        channel_data_vec[0].len()
    };
    for ch in 0..channels
        invariant
            channels == wave_format.channel,
            channel_data_vec@.len() == channels,
            frames == matrix_frames(mm),
            mm == matrix_model(channel_data_vec@),
            forall|c: int| 0 <= c < ch ==> mm[c].len() == frames,
    {
        if channel_data_vec[ch].len() != frames {
            proof {
                assert(mm[ch as int] == channel_data_vec@[ch as int]@.map_values(
                    |x: i64| x as int,
                ));
                assert(mm[ch as int].len() != frames);
            }
            return Err(WavF64VecError::new(WavF64VecErrorKind::MatrixLengthError, None));
        }
        proof {
            assert(mm[ch as int] == channel_data_vec@[ch as int]@.map_values(|x: i64| x as int));
        }
    }
    let mut buf: Vec<u8> = Vec::new();
    for i in 0..frames
        invariant
            channels == wave_format.channel,
            channel_data_vec@.len() == channels,
            frames == matrix_frames(mm),
            mm == matrix_model(channel_data_vec@),
            rows_len_eq(mm, frames as int),
            fid == wave_format.id as int,
            size == wave_format.bits as int / 8,
            group_len_ok(fid, size) ==> matrix_in_range(fid, size, mm),
            0 < i && 0 < channels ==> group_len_ok(fid, size),
            buf@ == frames_bytes_take(fid, size, mm, i as int),
    {
        for ch in 0..channels
            invariant
                channels == wave_format.channel,
                channel_data_vec@.len() == channels,
                frames == matrix_frames(mm),
                mm == matrix_model(channel_data_vec@),
                rows_len_eq(mm, frames as int),
                i < frames,
                fid == wave_format.id as int,
                size == wave_format.bits as int / 8,
                group_len_ok(fid, size) ==> matrix_in_range(fid, size, mm),
                0 < i || 0 < ch ==> group_len_ok(fid, size),
                buf@ == frames_bytes_take(fid, size, mm, i as int) + frame_bytes_take(
                    fid,
                    size,
                    mm,
                    i as int,
                    ch as int,
                ),
        {
            proof {
                assert(mm[ch as int] == channel_data_vec@[ch as int]@.map_values(
                    |x: i64| x as int,
                ));
                assert(channel_data_vec@[ch as int]@.len() == frames);
                assert(mm[ch as int][i as int] == channel_data_vec@[ch as int]@[i as int] as int);
                if group_len_ok(fid, size) {
                    assert(code_in_range(fid, mm[ch as int][i as int], size));
                }
            }
            match code_to_bytes(wave_format.id, channel_data_vec[ch][i], wave_format.bits) {
                Ok(mut group) => {
                    let ghost buf_before = buf@;
                    buf.append(&mut group);
                    proof {
                        assert(buf@ =~= frames_bytes_take(fid, size, mm, i as int)
                            + frame_bytes_take(fid, size, mm, i as int, ch + 1));
                    }
                },
                Err(e) => {
                    return Err(e);
                },
            }
        }
        proof {
            assert(frame_bytes_take(fid, size, mm, i as int, channels as int) == frame_bytes_take(
                fid,
                size,
                mm,
                i as int,
                mm.len() as int,
            ));
        }
    }
    Ok(buf)
}

/// Encode a frame-major matrix into data-chunk bytes, frame by frame. The
/// bytes are those of the matrix's channel-major image.
pub fn data_codes_to_bytes(wave_format: &WaveFormat, data_channel_vec: &Vec<Vec<i64>>) -> (r:
    Result<Vec<u8>, WavF64VecError>)
    requires
        group_len_ok(wave_format.id as int, wave_format.bits as int / 8) ==> matrix_in_range(
            wave_format.id as int,
            wave_format.bits as int / 8,
            matrix_model(data_channel_vec@),
        ),
    ensures
        ({
            let fid = wave_format.id as int;
            let size = wave_format.bits as int / 8;
            let mm = matrix_model(data_channel_vec@);
            let frames = mm.len() as int;
            &&& (r is Ok <==> rows_len_eq(mm, wave_format.channel as int) && (frames == 0
                || wave_format.channel == 0 || group_len_ok(fid, size)))
            &&& match r {
                Ok(b) => b@ == frames_bytes_take(
                    fid,
                    size,
                    swap_index(mm, frames, wave_format.channel as int),
                    frames,
                ),
                Err(e) => if !rows_len_eq(mm, wave_format.channel as int) {
                    matrix_shape_err_ok(e)
                } else {
                    encode_codec_err_ok(*wave_format, e)
                },
            }
        }),
{
    let ghost mm = matrix_model(data_channel_vec@);
    let ghost fid = wave_format.id as int;
    let ghost size = wave_format.bits as int / 8;
    let channels = wave_format.channel;
    let frames = data_channel_vec.len();
    let ghost sw = swap_index(mm, frames as int, channels as int);
    proof {
        assert(mm.len() == data_channel_vec@.len());
    }
    for i in 0..frames
        invariant
            channels == wave_format.channel,
            data_channel_vec@.len() == frames,
            mm == matrix_model(data_channel_vec@),
            forall|k: int| 0 <= k < i ==> mm[k].len() == channels,
    {
        if data_channel_vec[i].len() != channels {
            proof {
                assert(mm[i as int] == data_channel_vec@[i as int]@.map_values(|x: i64| x as int));
                assert(mm[i as int].len() != channels);
            }
            return Err(WavF64VecError::new(WavF64VecErrorKind::MatrixLengthError, None));
        }
        proof {
            assert(mm[i as int] == data_channel_vec@[i as int]@.map_values(|x: i64| x as int));
        }
    }
    let mut buf: Vec<u8> = Vec::new();
    for i in 0..frames
        invariant
            channels == wave_format.channel,
            data_channel_vec@.len() == frames,
            mm == matrix_model(data_channel_vec@),
            rows_len_eq(mm, channels as int),
            sw == swap_index(mm, frames as int, channels as int),
            fid == wave_format.id as int,
            size == wave_format.bits as int / 8,
            group_len_ok(fid, size) ==> matrix_in_range(fid, size, mm),
            0 < i && 0 < channels ==> group_len_ok(fid, size),
            buf@ == frames_bytes_take(fid, size, sw, i as int),
    {
        for ch in 0..channels
            invariant
                channels == wave_format.channel,
                data_channel_vec@.len() == frames,
                mm == matrix_model(data_channel_vec@),
                rows_len_eq(mm, channels as int),
                sw == swap_index(mm, frames as int, channels as int),
                i < frames,
                fid == wave_format.id as int,
                size == wave_format.bits as int / 8,
                group_len_ok(fid, size) ==> matrix_in_range(fid, size, mm),
                (0 < i && 0 < channels) || 0 < ch ==> group_len_ok(fid, size),
                buf@ == frames_bytes_take(fid, size, sw, i as int) + frame_bytes_take(
                    fid,
                    size,
                    sw,
                    i as int,
                    ch as int,
                ),
        {
            proof {
                assert(mm[i as int] == data_channel_vec@[i as int]@.map_values(|x: i64| x as int));
                assert(data_channel_vec@[i as int]@.len() == channels);
                assert(mm[i as int][ch as int] == data_channel_vec@[i as int]@[ch as int] as int);
                if group_len_ok(fid, size) {
                    assert(code_in_range(fid, mm[i as int][ch as int], size));
                }
            }
            match code_to_bytes(wave_format.id, data_channel_vec[i][ch], wave_format.bits) {
                Ok(mut group) => {
                    buf.append(&mut group);
                    proof {
                        assert(sw[ch as int][i as int] == mm[i as int][ch as int]);
                        assert(buf@ =~= frames_bytes_take(fid, size, sw, i as int)
                            + frame_bytes_take(fid, size, sw, i as int, ch + 1));
                    }
                },
                Err(e) => {
                    return Err(e);
                },
            }
        }
        proof {
            assert(frame_bytes_take(fid, size, sw, i as int, channels as int) == frame_bytes_take(
                fid,
                size,
                sw,
                i as int,
                sw.len() as int,
            ));
        }
    }
    Ok(buf)
}

} // verus!
