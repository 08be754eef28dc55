use wav_f64vec::{
    bytes_to_code, code_to_bytes, WavF64VecErrorKind, BIT16_WAVE_DIVISOR, BIT24_WAVE_DIVISOR,
    BIT32_WAVE_DIVISOR, BIT8_WAVE_DIVISOR, WAVEFORMAT_ID_IEEE_FLOAT, WAVEFORMAT_ID_PCM,
};

#[test]
fn decode_pcm_exact_values() {
    // 8 bit: stored unsigned, offset by 0x80
    assert_eq!(bytes_to_code(WAVEFORMAT_ID_PCM, &[0x80]).unwrap(), 0);
    assert_eq!(bytes_to_code(WAVEFORMAT_ID_PCM, &[0xC0]).unwrap(), 0x40);
    assert_eq!(bytes_to_code(WAVEFORMAT_ID_PCM, &[0xFF]).unwrap(), 127);
    assert_eq!(bytes_to_code(WAVEFORMAT_ID_PCM, &[0x00]).unwrap(), -128);
    // 16 bit, little-endian signed
    assert_eq!(bytes_to_code(WAVEFORMAT_ID_PCM, &[0xFF, 0x7F]).unwrap(), 32767);
    assert_eq!(bytes_to_code(WAVEFORMAT_ID_PCM, &[0x00, 0x80]).unwrap(), -32768);
    assert_eq!(bytes_to_code(WAVEFORMAT_ID_PCM, &[0x01, 0x80]).unwrap(), -32767);
    assert_eq!(bytes_to_code(WAVEFORMAT_ID_PCM, &[0x34, 0x12]).unwrap(), 0x1234);
    // 24 bit, sign extended
    assert_eq!(bytes_to_code(WAVEFORMAT_ID_PCM, &[0xFF, 0xFF, 0x7F]).unwrap(), 0x7FFFFF);
    assert_eq!(bytes_to_code(WAVEFORMAT_ID_PCM, &[0x00, 0x00, 0x80]).unwrap(), -0x800000);
    assert_eq!(bytes_to_code(WAVEFORMAT_ID_PCM, &[0x56, 0x34, 0x12]).unwrap(), 0x123456);
    // 32 bit
    assert_eq!(
        bytes_to_code(WAVEFORMAT_ID_PCM, &[0xFF, 0xFF, 0xFF, 0x7F]).unwrap(),
        2147483647
    );
    assert_eq!(
        bytes_to_code(WAVEFORMAT_ID_PCM, &[0x00, 0x00, 0x00, 0x80]).unwrap(),
        -2147483648
    );
}

#[test]
fn decode_float_is_raw_bit_pattern() {
    // 1.0f32 is 0x3F800000
    assert_eq!(
        bytes_to_code(WAVEFORMAT_ID_IEEE_FLOAT, &[0x00, 0x00, 0x80, 0x3F]).unwrap(),
        0x3F800000
    );
    assert_eq!(
        bytes_to_code(WAVEFORMAT_ID_IEEE_FLOAT, &[0x00, 0x00, 0x00, 0xBF]).unwrap() as u32,
        (-0.5f32).to_bits()
    );
}

#[test]
fn encode_pcm_exact_bytes() {
    assert_eq!(code_to_bytes(WAVEFORMAT_ID_PCM, 0, 8).unwrap(), vec![0x80]);
    assert_eq!(code_to_bytes(WAVEFORMAT_ID_PCM, 127, 8).unwrap(), vec![0xFF]);
    assert_eq!(code_to_bytes(WAVEFORMAT_ID_PCM, -127, 8).unwrap(), vec![0x01]);
    assert_eq!(code_to_bytes(WAVEFORMAT_ID_PCM, 0x4000, 16).unwrap(), vec![0x00, 0x40]);
    assert_eq!(code_to_bytes(WAVEFORMAT_ID_PCM, -32767, 16).unwrap(), vec![0x01, 0x80]);
    assert_eq!(
        code_to_bytes(WAVEFORMAT_ID_PCM, 0x123456, 24).unwrap(),
        vec![0x56, 0x34, 0x12]
    );
    assert_eq!(
        code_to_bytes(WAVEFORMAT_ID_PCM, -0x7FFFFF, 24).unwrap(),
        vec![0x01, 0x00, 0x80]
    );
    assert_eq!(
        code_to_bytes(WAVEFORMAT_ID_PCM, -2147483647, 32).unwrap(),
        vec![0x01, 0x00, 0x00, 0x80]
    );
    assert_eq!(
        code_to_bytes(WAVEFORMAT_ID_IEEE_FLOAT, 0x3F800000, 32).unwrap(),
        vec![0x00, 0x00, 0x80, 0x3F]
    );
}

#[test]
fn clamped_negative_bound_is_one_above_minimum() {
    // encoding a value below -1.0 clamps to the divisor's negation, one
    // above the two's-complement minimum: the bytes differ from the
    // minimum's bytes
    let clamped = code_to_bytes(WAVEFORMAT_ID_PCM, -BIT16_WAVE_DIVISOR, 16).unwrap();
    assert_eq!(clamped, vec![0x01, 0x80]);
    assert_ne!(clamped, vec![0x00, 0x80]);
    assert_eq!(
        code_to_bytes(WAVEFORMAT_ID_PCM, -BIT8_WAVE_DIVISOR, 8).unwrap(),
        vec![0x01]
    );
    assert_eq!(
        code_to_bytes(WAVEFORMAT_ID_PCM, -BIT24_WAVE_DIVISOR, 24).unwrap(),
        vec![0x01, 0x00, 0x80]
    );
    assert_eq!(
        code_to_bytes(WAVEFORMAT_ID_PCM, -BIT32_WAVE_DIVISOR, 32).unwrap(),
        vec![0x01, 0x00, 0x00, 0x80]
    );
}

#[test]
fn code_round_trip_all_depths() {
    // every 8-bit code survives the trip through its byte group
    for code in -128i64..=127i64 {
        let bytes = code_to_bytes(WAVEFORMAT_ID_PCM, code, 8).unwrap();
        assert_eq!(bytes_to_code(WAVEFORMAT_ID_PCM, &bytes).unwrap(), code);
    }
    for code in [-32768i64, -32767, -1, 0, 1, 12345, 32767] {
        let bytes = code_to_bytes(WAVEFORMAT_ID_PCM, code, 16).unwrap();
        assert_eq!(bytes_to_code(WAVEFORMAT_ID_PCM, &bytes).unwrap(), code);
    }
    for code in [-0x800000i64, -0x7FFFFF, -1, 0, 1, 0x123456, 0x7FFFFF] {
        let bytes = code_to_bytes(WAVEFORMAT_ID_PCM, code, 24).unwrap();
        assert_eq!(bytes_to_code(WAVEFORMAT_ID_PCM, &bytes).unwrap(), code);
    }
    for code in [-2147483648i64, -2147483647, -1, 0, 1, 2147483647] {
        let bytes = code_to_bytes(WAVEFORMAT_ID_PCM, code, 32).unwrap();
        assert_eq!(bytes_to_code(WAVEFORMAT_ID_PCM, &bytes).unwrap(), code);
    }
    for value in [0.0f32, 0.5, 1.0, -1.0, f32::MAX, f32::MIN] {
        let code = value.to_bits() as i64;
        let bytes = code_to_bytes(WAVEFORMAT_ID_IEEE_FLOAT, code, 32).unwrap();
        assert_eq!(bytes_to_code(WAVEFORMAT_ID_IEEE_FLOAT, &bytes).unwrap(), code);
    }
}

#[test]
fn codec_rejects_bad_widths_and_ids() {
    let e = bytes_to_code(WAVEFORMAT_ID_PCM, &[0, 0, 0, 0, 0]).unwrap_err();
    assert_eq!(e.err_kind, WavF64VecErrorKind::BytesLengthError);
    assert_eq!(e.op_additional_message, None);
    let e = bytes_to_code(WAVEFORMAT_ID_IEEE_FLOAT, &[0, 0]).unwrap_err();
    assert_eq!(e.err_kind, WavF64VecErrorKind::BytesLengthError);
    let e = bytes_to_code(5, &[0, 0]).unwrap_err();
    assert_eq!(e.err_kind, WavF64VecErrorKind::FormatIsNotSupported);
    assert_eq!(e.op_additional_message.as_deref(), Some("format id"));
    let e = code_to_bytes(WAVEFORMAT_ID_PCM, 0, 64).unwrap_err();
    assert_eq!(e.err_kind, WavF64VecErrorKind::BytesLengthError);
    let e = code_to_bytes(WAVEFORMAT_ID_IEEE_FLOAT, 0, 16).unwrap_err();
    assert_eq!(e.err_kind, WavF64VecErrorKind::BytesLengthError);
    let e = code_to_bytes(0xFFFE, 0, 16).unwrap_err();
    assert_eq!(e.err_kind, WavF64VecErrorKind::FormatIsNotSupported);
}

#[test]
fn clamping_above_one_matches_exactly_one() {
    // quantizing any value above 1.0 clamps to the divisor, the same
    // code that exactly 1.0 rounds to, so the bytes coincide at every
    // depth
    for (divisor, bits) in [
        (BIT8_WAVE_DIVISOR, 8),
        (BIT16_WAVE_DIVISOR, 16),
        (BIT24_WAVE_DIVISOR, 24),
        (BIT32_WAVE_DIVISOR, 32),
    ] {
        let clamped = divisor;
        let exactly_one = (1.0f64 * divisor as f64).round() as i64;
        assert_eq!(
            code_to_bytes(WAVEFORMAT_ID_PCM, clamped, bits).unwrap(),
            code_to_bytes(WAVEFORMAT_ID_PCM, exactly_one, bits).unwrap()
        );
        // below -1.0 the clamp is the asymmetric bound, one above the
        // two's-complement minimum
        let clamped_low = -divisor;
        let exactly_minus_one = (-1.0f64 * divisor as f64).round() as i64;
        assert_eq!(
            code_to_bytes(WAVEFORMAT_ID_PCM, clamped_low, bits).unwrap(),
            code_to_bytes(WAVEFORMAT_ID_PCM, exactly_minus_one, bits).unwrap()
        );
    }
}

#[test]
fn divisors_match_the_depths() {
    assert_eq!(BIT8_WAVE_DIVISOR, i8::MAX as i64);
    assert_eq!(BIT16_WAVE_DIVISOR, i16::MAX as i64);
    assert_eq!(BIT24_WAVE_DIVISOR, 0x7FFFFF);
    assert_eq!(BIT32_WAVE_DIVISOR, i32::MAX as i64);
}
