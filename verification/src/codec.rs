use crate::error::{WavF64VecError, WavF64VecErrorKind};
use crate::le::{
    le2, le2_bytes, le3, le3_bytes, le4, le4_bytes, lemma_le2_bytes_of_le2, lemma_le2_round_trip,
    lemma_le3_bytes_of_le3, lemma_le3_round_trip, lemma_le4_bytes_of_le4, lemma_le4_round_trip,
};
use crate::format::{WAVEFORMAT_ID_IEEE_FLOAT, WAVEFORMAT_ID_PCM};
use vstd::prelude::*;

verus! {

// ---------------------------------------------------------------------------
// The sample codec, at the level of quantized sample codes.
//
// A sample on the wire is a little-endian byte group. Its code is the
// integer it quantizes: for PCM the signed sample value (8-bit samples are
// stored offset by 0x80), for IEEE float the raw 32-bit pattern. The
// normalized value of a PCM code is the code divided by the depth's
// divisor below; that division is floating-point work and stays outside
// the library.
// ---------------------------------------------------------------------------
/// Magnitude divisor of 8-bit PCM: the largest positive code.
pub const BIT8_WAVE_DIVISOR: i64 = 0x7f;

/// Magnitude divisor of 16-bit PCM: the largest positive code.
pub const BIT16_WAVE_DIVISOR: i64 = 0x7fff;

/// Magnitude divisor of 24-bit PCM: the largest positive code.
pub const BIT24_WAVE_DIVISOR: i64 = 0x7fffff;

/// Magnitude divisor of 32-bit PCM: the largest positive code.
pub const BIT32_WAVE_DIVISOR: i64 = 0x7fffffff;

/// The number of distinct codes of a byte group width.
pub open spec fn code_full(len: int) -> int {
    if len == 1 {
        0x100
    } else if len == 2 {
        0x10000
    } else if len == 3 {
        0x100_0000
    } else {
        0x1_0000_0000
    }
}

/// Half the code range: one past the largest positive PCM code.
pub open spec fn code_half(len: int) -> int {
    if len == 1 {
        0x80
    } else if len == 2 {
        0x8000
    } else if len == 3 {
        0x80_0000
    } else {
        0x8000_0000
    }
}

/// The byte-group widths the codec accepts for a format id.
pub open spec fn group_len_ok(format_id: int, len: int) -> bool {
    if format_id == WAVEFORMAT_ID_PCM as int {
        1 <= len <= 4
    } else if format_id == WAVEFORMAT_ID_IEEE_FLOAT as int {
        len == 4
    } else {
        false
    }
}

/// The unsigned little-endian value of a group of width 1 to 4.
pub open spec fn group_value(group: Seq<u8>) -> int {
    if group.len() == 1 {
        group[0] as int
    } else if group.len() == 2 {
        le2(group)
    } else if group.len() == 3 {
        le3(group)
    } else {
        le4(group)
    }
}

/// The two's-complement reading of an unsigned value of a width.
pub open spec fn signed_of(u: int, len: int) -> int {
    if u < code_half(len) {
        u
    } else {
        u - code_full(len)
    }
}

/// The unsigned value a code is stored as: its two's-complement image.
pub open spec fn unsigned_of(code: int, len: int) -> int {
    if code < 0 {
        code + code_full(len)
    } else {
        code
    }
}

/// The code a byte group decodes to: for PCM the signed sample (with the
/// 8-bit offset removed), for IEEE float the raw 32-bit pattern.
pub open spec fn code_of_group(format_id: int, group: Seq<u8>) -> int {
    if format_id == WAVEFORMAT_ID_PCM as int {
        if group.len() == 1 {
            group[0] - 0x80
        } else {
            signed_of(group_value(group), group.len() as int)
        }
    } else {
        le4(group)
    }
}

/// The codes a width can carry: the signed range for PCM, the unsigned
/// 32-bit range for IEEE float.
pub open spec fn code_in_range(format_id: int, code: int, len: int) -> bool {
    if format_id == WAVEFORMAT_ID_PCM as int {
        -code_half(len) <= code < code_half(len)
    } else {
        0 <= code < 0x1_0000_0000
    }
}

/// The byte group a code encodes to, inverse of `code_of_group`.
pub open spec fn group_of_code(format_id: int, code: int, len: int) -> Seq<u8> {
    if format_id == WAVEFORMAT_ID_PCM as int {
        if len == 1 {
            seq![(code + 0x80) as u8]
        } else if len == 2 {
            le2_bytes(unsigned_of(code, 2))
        } else if len == 3 {
            le3_bytes(unsigned_of(code, 3))
        } else {
            le4_bytes(unsigned_of(code, 4))
        }
    } else {
        le4_bytes(code)
    }
}

/// Encoding a code and decoding the group gives the code back.
pub proof fn lemma_code_round_trip(format_id: int, code: int, len: int)
    requires
        group_len_ok(format_id, len),
        code_in_range(format_id, code, len),
    ensures
        group_of_code(format_id, code, len).len() == len,
        code_of_group(format_id, group_of_code(format_id, code, len)) == code,
{
    if format_id == WAVEFORMAT_ID_PCM as int {
        if len == 2 {
            lemma_le2_round_trip(unsigned_of(code, 2));
        } else if len == 3 {
            lemma_le3_round_trip(unsigned_of(code, 3));
        } else if len == 4 {
            lemma_le4_round_trip(unsigned_of(code, 4));
        }
    } else {
        lemma_le4_round_trip(code);
    }
}

/// Decoding a group and encoding the code restores the group, and the
/// decoded code lies in the width's range.
pub proof fn lemma_group_round_trip(format_id: int, group: Seq<u8>)
    requires
        group_len_ok(format_id, group.len() as int),
    ensures
        code_in_range(format_id, code_of_group(format_id, group), group.len() as int),
        group_of_code(format_id, code_of_group(format_id, group), group.len() as int) =~= group,
{
    if format_id == WAVEFORMAT_ID_PCM as int {
        if group.len() == 2 {
            lemma_le2_bytes_of_le2(group);
        } else if group.len() == 3 {
            lemma_le3_bytes_of_le3(group);
        } else if group.len() == 4 {
            lemma_le4_bytes_of_le4(group);
        }
    } else {
        lemma_le4_bytes_of_le4(group);
    }
}

// ---------------------------------------------------------------------------
// Executable codec.
// ---------------------------------------------------------------------------
/// Decode one little-endian byte group into its sample code.
pub fn bytes_to_code(format_id: usize, bytes: &[u8]) -> (r: Result<i64, WavF64VecError>)
    ensures
        match r {
            Ok(c) => {
                &&& group_len_ok(format_id as int, bytes@.len() as int)
                &&& c == code_of_group(format_id as int, bytes@)
            },
            Err(e) => {
                &&& !group_len_ok(format_id as int, bytes@.len() as int)
                &&& if format_id == WAVEFORMAT_ID_PCM || format_id == WAVEFORMAT_ID_IEEE_FLOAT {
                    &&& e.err_kind == WavF64VecErrorKind::BytesLengthError
                    &&& e.op_additional_message is None
                } else {
                    &&& e.err_kind == WavF64VecErrorKind::FormatIsNotSupported
                    &&& e.op_additional_message matches Some(m) && m@ == "format id"@
                }
            },
        },
{
    let bytes_len = bytes.len();
    if format_id == WAVEFORMAT_ID_PCM {
        if bytes_len == 1 {
            Ok(bytes[0] as i64 - 0x80)
        } else if bytes_len == 2 {
            let u = bytes[0] as i64 + 0x100 * (bytes[1] as i64);
            if u < 0x8000 {
                Ok(u)
            } else {
                Ok(u - 0x10000)
            }
        } else if bytes_len == 3 {
            let u = bytes[0] as i64 + 0x100 * (bytes[1] as i64) + 0x10000 * (bytes[2] as i64);
            if u < 0x80_0000 {
                Ok(u)
            } else {
                Ok(u - 0x100_0000)
            }
        } else if bytes_len == 4 {
            let u = bytes[0] as i64 + 0x100 * (bytes[1] as i64) + 0x10000 * (bytes[2] as i64)
                + 0x1000000 * (bytes[3] as i64);
            if u < 0x8000_0000 {
                Ok(u)
            } else {
                Ok(u - 0x1_0000_0000)
            }
        } else {
            Err(WavF64VecError::new(WavF64VecErrorKind::BytesLengthError, None))
        }
    } else if format_id == WAVEFORMAT_ID_IEEE_FLOAT {
        if bytes_len == 4 {
            let u = bytes[0] as i64 + 0x100 * (bytes[1] as i64) + 0x10000 * (bytes[2] as i64)
                + 0x1000000 * (bytes[3] as i64);
            Ok(u)
        } else {
            Err(WavF64VecError::new(WavF64VecErrorKind::BytesLengthError, None))
        }
    } else {
        Err(
            WavF64VecError::new(
                WavF64VecErrorKind::FormatIsNotSupported,
                Some(String::from_str("format id")),
            ),
        )
    }
}

/// Encode one sample code into its little-endian byte group.
pub fn code_to_bytes(format_id: usize, code: i64, bits: usize) -> (r: Result<
    Vec<u8>,
    WavF64VecError,
>)
    requires
        group_len_ok(format_id as int, bits as int / 8) ==> code_in_range(
            format_id as int,
            code as int,
            bits as int / 8,
        ),
    ensures
        match r {
            Ok(v) => {
                &&& group_len_ok(format_id as int, bits as int / 8)
                &&& v@ == group_of_code(format_id as int, code as int, bits as int / 8)
                &&& v@.len() == bits as int / 8
            },
            Err(e) => {
                &&& !group_len_ok(format_id as int, bits as int / 8)
                &&& if format_id == WAVEFORMAT_ID_PCM || format_id == WAVEFORMAT_ID_IEEE_FLOAT {
                    &&& e.err_kind == WavF64VecErrorKind::BytesLengthError
                    &&& e.op_additional_message is None
                } else {
                    &&& e.err_kind == WavF64VecErrorKind::FormatIsNotSupported
                    &&& e.op_additional_message matches Some(m) && m@ == "format id"@
                }
            },
        },
{
    let bytes_len = bits / 8;
    if format_id == WAVEFORMAT_ID_PCM {
        if bytes_len == 1 {
            let mut buffer: Vec<u8> = Vec::new();
            buffer.push((code + 0x80) as u8);
            proof {
                assert(buffer@ =~= group_of_code(format_id as int, code as int, 1));
            }
            Ok(buffer)
        } else if bytes_len == 2 {
            let u = if code < 0 {
                (code + 0x10000) as u64
            } else {
                code as u64
            };
            let mut buffer: Vec<u8> = Vec::new();
            crate::le::push_le2(&mut buffer, u);
            Ok(buffer)
        } else if bytes_len == 3 {
            let u = if code < 0 {
                (code + 0x100_0000) as u64
            } else {
                code as u64
            };
            let mut buffer: Vec<u8> = Vec::new();
            crate::le::push_le3(&mut buffer, u);
            Ok(buffer)
        } else if bytes_len == 4 {
            let u = if code < 0 {
                (code + 0x1_0000_0000) as u64
            } else {
                code as u64
            };
            let mut buffer: Vec<u8> = Vec::new();
            crate::le::push_le4(&mut buffer, u);
            Ok(buffer)
        } else {
            Err(WavF64VecError::new(WavF64VecErrorKind::BytesLengthError, None))
        }
    } else if format_id == WAVEFORMAT_ID_IEEE_FLOAT {
        if bytes_len == 4 {
            let mut buffer: Vec<u8> = Vec::new();
            crate::le::push_le4(&mut buffer, code as u64);
            Ok(buffer)
        } else {
            Err(WavF64VecError::new(WavF64VecErrorKind::BytesLengthError, None))
        }
    } else {
        Err(
            WavF64VecError::new(
                WavF64VecErrorKind::FormatIsNotSupported,
                Some(String::from_str("format id")),
            ),
        )
    }
}

} // verus!
