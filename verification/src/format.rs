use crate::error::{WavF64VecError, WavF64VecErrorKind};
use crate::le::{le2, le2_bytes, le4, le4_bytes};
use vstd::prelude::*;

verus! {

/// Format id of linear PCM samples.
pub const WAVEFORMAT_ID_PCM: usize = 0x0001;

/// Format id of 32-bit IEEE float samples.
pub const WAVEFORMAT_ID_IEEE_FLOAT: usize = 0x0003;

/// Format id of the extensible layout, whose true id sits in the
/// sub-format GUID.
pub const WAVEFORMAT_ID_EXTENSIBLE: usize = 0xfffe;

/// Wave audio format: id, channel count, sampling rate and bit depth.
#[derive(Clone, PartialEq, Eq, Structural, Debug)]
pub struct WaveFormat {
    /// Format id.
    pub id: usize,
    /// Number of channels.
    pub channel: usize,
    /// Sampling rate.
    pub sampling_rate: usize,
    /// Bits per sample.
    pub bits: usize,
}

/// The sampling rates the library accepts.
pub open spec fn rate_supported(rate: int) -> bool {
    ||| rate == 8000
    ||| rate == 16000
    ||| rate == 22050
    ||| rate == 32000
    ||| rate == 44100
    ||| rate == 48000
    ||| rate == 96000
    ||| rate == 192000
}

/// A format the library accepts: one or two channels, 1 to 64 bits per
/// sample, and a supported sampling rate.
pub open spec fn format_supported(wf: WaveFormat) -> bool {
    &&& 1 <= wf.channel <= 2
    &&& 1 <= wf.bits <= 64
    &&& rate_supported(wf.sampling_rate as int)
}

impl WaveFormat {
    /// Check that the format is supported, reporting the first offending
    /// field otherwise: channel count, then bit depth, then sampling rate.
    pub fn format_check(wave_format: &WaveFormat) -> (r: Result<(), WavF64VecError>)
        ensures
            r is Ok <==> format_supported(*wave_format),
            r matches Err(e) ==> {
                &&& e.err_kind == WavF64VecErrorKind::FormatIsNotSupported
                &&& e.op_additional_message matches Some(m) && m@ == if !(1 <= wave_format.channel
                    <= 2) {
                    "channel number"@
                } else if !(1 <= wave_format.bits <= 64) {
                    "bit rate"@
                } else {
                    "sampling rate"@
                }
            },
    {
        if wave_format.channel < 1 || wave_format.channel > 2 {
            return Err(
                WavF64VecError::new(
                    WavF64VecErrorKind::FormatIsNotSupported,
                    Some(String::from_str("channel number")),
                ),
            );
        }
        if wave_format.bits == 0 || wave_format.bits > 64 {
            return Err(
                WavF64VecError::new(
                    WavF64VecErrorKind::FormatIsNotSupported,
                    Some(String::from_str("bit rate")),
                ),
            );
        }
        match wave_format.sampling_rate {
            8000 => {},
            16000 => {},
            22050 => {},
            44100 => {},
            32000 => {},
            48000 => {},
            96000 => {},
            192000 => {},
            _ => {
                return Err(
                    WavF64VecError::new(
                        WavF64VecErrorKind::FormatIsNotSupported,
                        Some(String::from_str("sampling rate")),
                    ),
                );
            },
        }
        Ok(())
    }
}

// ---------------------------------------------------------------------------
// The `fmt ` chunk body.
//
// The body's first 16 bytes hold, little-endian: format id (2), channel
// count (2), sampling rate (4), bytes per second (4), block size (2) and
// bits per sample (2). The extensible layout is recognized by its sentinel
// id; its true id is re-read from the sub-format GUID at offset 0x18.
// ---------------------------------------------------------------------------
/// The sub-format GUID bytes that the extensible layout must carry for the
/// resolved id.
pub open spec fn fmt_guid_bytes(sub_id: int) -> Seq<u8> {
    le4_bytes(sub_id) + seq![
        0x00u8,
        0x00u8,
        0x10u8,
        0x00u8,
        0x80u8,
        0x00u8,
        0x00u8,
        0xaau8,
        0x00u8,
        0x38u8,
        0x9bu8,
        0x71u8,
    ]
}

/// The format id stored in the body's first two bytes.
pub open spec fn fmt_raw_id(body: Seq<u8>) -> int {
    le2(body.subrange(0, 2))
}

/// The id stored in the extensible sub-format field.
pub open spec fn fmt_sub_id(body: Seq<u8>) -> int {
    le2(body.subrange(0x18, 0x1a))
}

/// The format id after resolving the extensible indirection.
pub open spec fn fmt_resolved_id(body: Seq<u8>) -> int {
    if fmt_raw_id(body) == WAVEFORMAT_ID_EXTENSIBLE as int {
        fmt_sub_id(body)
    } else {
        fmt_raw_id(body)
    }
}

/// The raw id is acceptable and, for the extensible layout, the body holds
/// a recognized sub-format id with its exact GUID.
pub open spec fn fmt_id_ok(body: Seq<u8>) -> bool {
    ||| fmt_raw_id(body) == WAVEFORMAT_ID_PCM as int
    ||| fmt_raw_id(body) == WAVEFORMAT_ID_IEEE_FLOAT as int
    ||| {
        &&& fmt_raw_id(body) == WAVEFORMAT_ID_EXTENSIBLE as int
        &&& body.len() >= 0x28
        &&& (fmt_sub_id(body) == WAVEFORMAT_ID_PCM as int || fmt_sub_id(body)
            == WAVEFORMAT_ID_IEEE_FLOAT as int)
        &&& body.subrange(0x18, 0x28) == fmt_guid_bytes(fmt_sub_id(body))
    }
}

/// Channel count field.
pub open spec fn fmt_channel(body: Seq<u8>) -> int {
    le2(body.subrange(2, 4))
}

/// Sampling rate field.
pub open spec fn fmt_rate(body: Seq<u8>) -> int {
    le4(body.subrange(4, 8))
}

/// Bytes-per-second field.
pub open spec fn fmt_bytes_per_sec(body: Seq<u8>) -> int {
    le4(body.subrange(8, 12))
}

/// Block size field.
pub open spec fn fmt_block_size(body: Seq<u8>) -> int {
    le2(body.subrange(12, 14))
}

/// Bits-per-sample field.
pub open spec fn fmt_bits(body: Seq<u8>) -> int {
    le2(body.subrange(14, 16))
}

/// The stored derived fields agree with what the plain fields imply.
pub open spec fn fmt_derived_ok(body: Seq<u8>) -> bool {
    &&& fmt_bytes_per_sec(body) == fmt_channel(body) * fmt_rate(body) * (fmt_bits(body) / 8)
    &&& fmt_block_size(body) == fmt_channel(body) * fmt_bits(body) / 8
}

/// The whole body decodes to a format: long enough, a recognized id, and
/// derived fields that agree.
pub open spec fn fmt_parse_ok(body: Seq<u8>) -> bool {
    &&& body.len() >= 16
    &&& fmt_id_ok(body)
    &&& fmt_derived_ok(body)
}

/// The format a well-formed body decodes to.
pub open spec fn fmt_wave_format(body: Seq<u8>) -> WaveFormat {
    WaveFormat {
        id: fmt_resolved_id(body) as usize,
        channel: fmt_channel(body) as usize,
        sampling_rate: fmt_rate(body) as usize,
        bits: fmt_bits(body) as usize,
    }
}

/// The kind reported for a body that does not decode: an unrecognized
/// format id (raw, sub-format or GUID) is an unsupported format, while a
/// short body and disagreeing derived fields are size errors.
pub open spec fn fmt_parse_err_kind(body: Seq<u8>) -> WavF64VecErrorKind {
    if body.len() < 16 {
        WavF64VecErrorKind::SubChunkSizeError
    } else if fmt_raw_id(body) != WAVEFORMAT_ID_PCM as int && fmt_raw_id(body)
        != WAVEFORMAT_ID_IEEE_FLOAT as int && fmt_raw_id(body) != WAVEFORMAT_ID_EXTENSIBLE as int {
        WavF64VecErrorKind::FormatIsNotSupported
    } else if fmt_raw_id(body) == WAVEFORMAT_ID_EXTENSIBLE as int && body.len() < 0x28 {
        WavF64VecErrorKind::SubChunkSizeError
    } else if !fmt_id_ok(body) {
        WavF64VecErrorKind::FormatIsNotSupported
    } else {
        WavF64VecErrorKind::SubChunkSizeError
    }
}

/// The qualifier reported for a body that does not decode, following the
/// order in which the checks run.
pub open spec fn fmt_parse_err_msg(body: Seq<u8>) -> Seq<char> {
    if body.len() < 16 {
        "\"fmt\""@
    } else if fmt_raw_id(body) != WAVEFORMAT_ID_PCM as int && fmt_raw_id(body)
        != WAVEFORMAT_ID_IEEE_FLOAT as int && fmt_raw_id(body) != WAVEFORMAT_ID_EXTENSIBLE as int {
        "format id"@
    } else if fmt_raw_id(body) == WAVEFORMAT_ID_EXTENSIBLE as int && body.len() < 0x28 {
        "\"fmt\""@
    } else if !fmt_id_ok(body) {
        "format id"@
    } else if fmt_bytes_per_sec(body) != fmt_channel(body) * fmt_rate(body) * (fmt_bits(body)
        / 8) {
        "bytes per sec"@
    } else {
        "block size"@
    }
}

/// The canonical 16-byte body a format encodes to: always the plain
/// layout, never the extensible one, with both derived fields recomputed.
pub open spec fn fmt_encode(wf: WaveFormat) -> Seq<u8> {
    le2_bytes(wf.id as int) + le2_bytes(wf.channel as int) + le4_bytes(wf.sampling_rate as int)
        + le4_bytes(wf.channel * wf.sampling_rate * (wf.bits as int / 8)) + le2_bytes(
        wf.channel * wf.bits as int / 8,
    ) + le2_bytes(wf.bits as int)
}

} // verus!
