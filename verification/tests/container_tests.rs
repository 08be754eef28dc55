use wav_f64vec::{WavF64VecErrorKind, WavFile, WaveFormat, BIT8_WAVE_DIVISOR};

fn mono_8bit_file_bytes() -> Vec<u8> {
    // a mono 8-bit PCM file at 8000 Hz with 11 declared samples; the
    // encoded source intended 2.0 and -2.0 at indices 3 and 8, clamped
    // to the codes 127 and -127
    let mut bytes = Vec::new();
    bytes.extend_from_slice(b"RIFF");
    bytes.extend_from_slice(&[0x2F, 0x00, 0x00, 0x00]);
    bytes.extend_from_slice(b"WAVE");
    bytes.extend_from_slice(b"fmt ");
    bytes.extend_from_slice(&[0x10, 0x00, 0x00, 0x00]);
    bytes.extend_from_slice(&[
        0x01, 0x00, 0x01, 0x00, 0x40, 0x1F, 0x00, 0x00, 0x40, 0x1F, 0x00, 0x00, 0x01, 0x00, 0x08,
        0x00,
    ]);
    bytes.extend_from_slice(b"data");
    bytes.extend_from_slice(&[0x0B, 0x00, 0x00, 0x00]);
    bytes.extend_from_slice(&[
        0x80, 0xC0, 0xFF, 0xFF, 0xC0, 0x80, 0x40, 0x01, 0x01, 0x40, 0x80,
    ]);
    bytes
}

#[test]
fn mono_8bit_scenario() {
    let file_bytes = mono_8bit_file_bytes();
    let mut wav_file = WavFile::new();
    wav_file.open(&file_bytes).unwrap();

    assert_eq!(wav_file.sub_chunks.len(), 2);
    assert_eq!(&wav_file.sub_chunks[0].chunk_id, b"fmt ");
    assert_eq!(wav_file.sub_chunks[0].bytes_data_vec.len(), 16);
    assert_eq!(&wav_file.sub_chunks[1].chunk_id, b"data");
    assert_eq!(wav_file.sub_chunks[1].bytes_data_vec.len(), 11);

    let (wave_format, codes) = wav_file.get_channel_code_audio().unwrap();
    assert_eq!(wave_format, WaveFormat { id: 1, channel: 1, sampling_rate: 8000, bits: 8 });
    assert_eq!(
        codes,
        vec![vec![0, 0x40, 127, 127, 0x40, 0, -0x40, -127, -127, -0x40, 0]]
    );

    // normalized, the clamped samples sit exactly on the range bounds
    let values: Vec<f64> =
        codes[0].iter().map(|c| *c as f64 / BIT8_WAVE_DIVISOR as f64).collect();
    assert_eq!(values[3], 1.0);
    assert_eq!(values[8], -1.0);

    // writing the container back reproduces the file byte for byte
    assert_eq!(wav_file.save().unwrap(), file_bytes);
}

#[test]
fn build_and_reopen_round_trip() {
    let wave_format = WaveFormat { id: 1, channel: 1, sampling_rate: 8000, bits: 8 };
    let codes: Vec<Vec<i64>> =
        vec![vec![0, 0x40, 127, 127, 0x40, 0, -0x40, -127, -127, -0x40, 0]];
    let mut wav_file = WavFile::new();
    wav_file.update_channel_code_audio(&wave_format, &codes).unwrap();
    let bytes = wav_file.save().unwrap();
    assert_eq!(bytes, mono_8bit_file_bytes());

    let mut reopened = WavFile::new();
    reopened.open(&bytes).unwrap();
    assert_eq!(reopened.sub_chunks, wav_file.sub_chunks);
    let (wf, decoded) = reopened.get_channel_code_audio().unwrap();
    assert_eq!(wf, wave_format);
    assert_eq!(decoded, codes);
}

#[test]
fn stereo_16bit_round_trip() {
    let wave_format = WaveFormat { id: 1, channel: 2, sampling_rate: 16000, bits: 16 };
    let codes: Vec<Vec<i64>> = vec![
        vec![0, 0x4000, 32767, 32767, 0x4000, 0, -0x4000, -32767, -32767, -0x4000, 0],
        vec![0, -0x4000, -32767, -32767, -0x4000, 0, 0x4000, 32767, 32767, 0x4000, 0],
    ];
    let mut wav_file = WavFile::new();
    wav_file.update_channel_code_audio(&wave_format, &codes).unwrap();
    let bytes = wav_file.save().unwrap();
    // interleaved: each frame holds one group per channel
    assert_eq!(&bytes[36..40], b"data");
    assert_eq!(&bytes[44..52], &[0x00, 0x00, 0x00, 0x00, 0x00, 0x40, 0x00, 0xC0]);

    let mut reopened = WavFile::new();
    reopened.open(&bytes).unwrap();
    let (wf, decoded) = reopened.get_channel_code_audio().unwrap();
    assert_eq!(wf, wave_format);
    assert_eq!(decoded, codes);
    // the frame-major view holds the same samples transposed
    let (_, frames) = reopened.get_data_code_audio().unwrap();
    assert_eq!(frames.len(), 11);
    for (i, frame) in frames.iter().enumerate() {
        assert_eq!(frame.len(), 2);
        assert_eq!(frame[0], codes[0][i]);
        assert_eq!(frame[1], codes[1][i]);
    }
}

#[test]
fn float_audio_round_trip() {
    let wave_format = WaveFormat { id: 3, channel: 1, sampling_rate: 192000, bits: 32 };
    let values = [0.0f32, 0.5, 1.0, f32::MAX, 0.5, 0.0, -0.5, -1.0, f32::MIN, -0.5, 0.0];
    let codes: Vec<Vec<i64>> =
        vec![values.iter().map(|v| v.to_bits() as i64).collect()];
    let mut wav_file = WavFile::new();
    wav_file.update_channel_code_audio(&wave_format, &codes).unwrap();
    let bytes = wav_file.save().unwrap();
    assert_eq!(&bytes[44..48], &[0x00, 0x00, 0x00, 0x00]);
    assert_eq!(&bytes[48..52], &[0x00, 0x00, 0x00, 0x3F]);
    assert_eq!(&bytes[52..56], &[0x00, 0x00, 0x80, 0x3F]);
    assert_eq!(&bytes[56..60], &[0xFF, 0xFF, 0x7F, 0x7F]);

    let mut reopened = WavFile::new();
    reopened.open(&bytes).unwrap();
    let (wf, decoded) = reopened.get_channel_code_audio().unwrap();
    assert_eq!(wf, wave_format);
    assert_eq!(decoded, codes);
    let back: Vec<f32> = decoded[0].iter().map(|c| f32::from_bits(*c as u32)).collect();
    assert_eq!(back, values);
}

#[test]
fn vec_order_test() {
    // the same nine stereo samples, once channel-major and once
    // frame-major, must serialize to byte-identical files
    let channel_codes: Vec<Vec<i64>> = vec![
        vec![0, 16384, 32767, 16384, 0, -16384, -32767, -16384, 0],
        vec![0, -16384, -32767, -16384, 0, 16384, 32767, 16384, 0],
    ];
    let data_codes: Vec<Vec<i64>> = (0..9)
        .map(|i| vec![channel_codes[0][i], channel_codes[1][i]])
        .collect();
    let wave_format = WaveFormat { id: 1, channel: 2, sampling_rate: 16000, bits: 16 };

    let mut channel_file = WavFile::new();
    channel_file.update_channel_code_audio(&wave_format, &channel_codes).unwrap();
    let mut data_file = WavFile::new();
    data_file.update_data_code_audio(&wave_format, &data_codes).unwrap();

    assert_eq!(channel_file.sub_chunks, data_file.sub_chunks);
    assert_eq!(channel_file.save().unwrap(), data_file.save().unwrap());

    let (channel_format, channel_back) = channel_file.get_channel_code_audio().unwrap();
    let (data_format, data_back) = data_file.get_data_code_audio().unwrap();
    assert_eq!(channel_format, data_format);
    assert_eq!(channel_back.len(), data_back[0].len());
    assert_eq!(channel_back[0].len(), data_back.len());
    for channel_idx in 0..channel_back.len() {
        for data_idx in 0..data_back.len() {
            assert_eq!(channel_back[channel_idx][data_idx], data_back[data_idx][channel_idx]);
        }
    }
}

#[test]
fn open_rejects_malformed_headers() {
    let mut wav_file = WavFile::new();

    let e = wav_file.open(&b"RIFX\x00\x00\x00\x00WAVE".to_vec()).unwrap_err();
    assert_eq!(e.err_kind, WavF64VecErrorKind::FileIsNotCompatibleFormat);
    assert_eq!(e.op_additional_message.as_deref(), Some("\"RIFF\""));

    let e = wav_file.open(&b"RIFF\x05\x00\x00\x00WAVE".to_vec()).unwrap_err();
    assert_eq!(e.err_kind, WavF64VecErrorKind::FileIsNotCompatibleFormat);
    assert_eq!(e.op_additional_message.as_deref(), Some("RIFF Size"));

    let e = wav_file.open(&b"RIFF\x04\x00\x00\x00WAVX".to_vec()).unwrap_err();
    assert_eq!(e.err_kind, WavF64VecErrorKind::FileIsNotCompatibleFormat);
    assert_eq!(e.op_additional_message.as_deref(), Some("\"WAVE\""));

    // a declared chunk body running past the end of the buffer
    let mut bytes = Vec::new();
    bytes.extend_from_slice(b"RIFF");
    bytes.extend_from_slice(&13u32.to_le_bytes());
    bytes.extend_from_slice(b"WAVE");
    bytes.extend_from_slice(b"abcd");
    bytes.extend_from_slice(&9u32.to_le_bytes());
    bytes.push(0);
    let e = wav_file.open(&bytes).unwrap_err();
    assert_eq!(e.err_kind, WavF64VecErrorKind::SubChunkSizeError);
    assert_eq!(e.op_additional_message, None);
    // nothing was taken over
    assert_eq!(wav_file.sub_chunks.len(), 0);
}

#[test]
fn open_keeps_unknown_chunks_in_order() {
    let mut bytes = Vec::new();
    bytes.extend_from_slice(b"RIFF");
    bytes.extend_from_slice(&24u32.to_le_bytes());
    bytes.extend_from_slice(b"WAVE");
    bytes.extend_from_slice(b"ab c");
    bytes.extend_from_slice(&3u32.to_le_bytes());
    bytes.extend_from_slice(&[1, 2, 3]);
    bytes.extend_from_slice(b"LIST");
    bytes.extend_from_slice(&1u32.to_le_bytes());
    bytes.push(9);
    let mut wav_file = WavFile::new();
    wav_file.open(&bytes).unwrap();
    assert_eq!(wav_file.sub_chunks.len(), 2);
    assert_eq!(&wav_file.sub_chunks[0].chunk_id, b"ab c");
    assert_eq!(wav_file.sub_chunks[0].bytes_data_vec, vec![1, 2, 3]);
    assert_eq!(&wav_file.sub_chunks[1].chunk_id, b"LIST");
    assert_eq!(wav_file.sub_chunks[1].bytes_data_vec, vec![9]);
    // and writes them back untouched
    assert_eq!(wav_file.save().unwrap(), bytes);
}
