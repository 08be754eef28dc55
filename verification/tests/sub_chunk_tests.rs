use wav_f64vec::{SubChunk, WavF64VecErrorKind, WavFile, WaveFormat};

#[test]
fn sub_chunk_util_test() {
    let mut wav_file = WavFile::new();

    // update_sub_chunk
    let abcd_chunk = SubChunk {
        chunk_id: [b'a', b'b', b'c', b'd'],
        bytes_data_vec: vec![0x00, 0x01, 0x02, 0x03],
    };
    let efgh_chunk = SubChunk {
        chunk_id: [b'e', b'f', b'g', b'h'],
        bytes_data_vec: vec![0x04, 0x05, 0x06, 0x07],
    };
    let ijkl_chunk = SubChunk {
        chunk_id: [b'i', b'j', b'k', b'l'],
        bytes_data_vec: vec![0x08, 0x09, 0x0A, 0x0B],
    };

    wav_file.update_sub_chunk(abcd_chunk.clone()).unwrap();
    wav_file.update_sub_chunk(efgh_chunk.clone()).unwrap();
    wav_file.update_sub_chunk(ijkl_chunk.clone()).unwrap();

    assert_eq!(wav_file.sub_chunks[0], abcd_chunk);
    assert_eq!(wav_file.sub_chunks[1], efgh_chunk);
    assert_eq!(wav_file.sub_chunks[2], ijkl_chunk);

    assert_eq!(
        wav_file.get_sub_chunk_id_vec(),
        vec![abcd_chunk.chunk_id, efgh_chunk.chunk_id, ijkl_chunk.chunk_id]
    );

    // delete_sub_chunk
    assert_eq!(wav_file.delete_sub_chunk(efgh_chunk.chunk_id), true);
    assert_eq!(wav_file.delete_sub_chunk(efgh_chunk.chunk_id), false);
    assert_eq!(wav_file.sub_chunks[0], abcd_chunk);
    assert_eq!(wav_file.sub_chunks[1], ijkl_chunk);

    // get_sub_chunk_idx
    assert_eq!(wav_file.get_sub_chunk_idx(ijkl_chunk.chunk_id).unwrap(), 1);
    assert_eq!(wav_file.get_sub_chunk_idx(efgh_chunk.chunk_id), None);

    // wave format
    assert_eq!(wav_file.get_format().unwrap(), None);
    let wave_format = WaveFormat { id: 1, channel: 1, sampling_rate: 8000, bits: 8 };
    // one channel holding the single sample 0.00, as its quantized code
    let channel_code_vec: Vec<Vec<i64>> = vec![vec![0]];
    wav_file.update_channel_code_audio(&wave_format, &channel_code_vec).unwrap();
    assert_eq!(wav_file.get_format().unwrap().unwrap(), wave_format);
}

#[test]
fn update_sub_chunk_replaces_by_identifier() {
    let mut wav_file = WavFile::new();
    let first = SubChunk { chunk_id: *b"abcd", bytes_data_vec: vec![1, 2, 3] };
    let second = SubChunk { chunk_id: *b"wxyz", bytes_data_vec: vec![4] };
    let replacement = SubChunk { chunk_id: *b"abcd", bytes_data_vec: vec![9, 9] };
    wav_file.update_sub_chunk(first).unwrap();
    wav_file.update_sub_chunk(second.clone()).unwrap();
    wav_file.update_sub_chunk(replacement.clone()).unwrap();
    assert_eq!(wav_file.sub_chunks.len(), 2);
    assert_eq!(wav_file.sub_chunks[0], replacement);
    assert_eq!(wav_file.sub_chunks[1], second);
}

#[test]
fn update_audio_rejects_duplicate_chunks() {
    let mut wav_file = WavFile::new();
    let wave_format = WaveFormat { id: 1, channel: 1, sampling_rate: 8000, bits: 8 };
    wav_file.update_channel_code_audio(&wave_format, &vec![vec![0]]).unwrap();
    // a second data chunk by hand makes audio updates and extraction fail
    wav_file
        .sub_chunks
        .push(SubChunk { chunk_id: *b"data", bytes_data_vec: vec![0x80] });
    let e = wav_file.update_channel_code_audio(&wave_format, &vec![vec![0]]).unwrap_err();
    assert_eq!(e.err_kind, WavF64VecErrorKind::SubChunkDuplication);
    assert_eq!(e.op_additional_message.as_deref(), Some("\"data\""));
    let e = wav_file.get_channel_code_audio().unwrap_err();
    assert_eq!(e.err_kind, WavF64VecErrorKind::SubChunkDuplication);
    assert_eq!(e.op_additional_message.as_deref(), Some("\"data\""));
}

#[test]
fn missing_audio_chunks_are_reported() {
    let wav_file = WavFile::new();
    let e = wav_file.get_channel_code_audio().unwrap_err();
    assert_eq!(e.err_kind, WavF64VecErrorKind::NoRequiredSubChunk);
    assert_eq!(e.op_additional_message.as_deref(), Some("\"fmt\""));

    let mut with_fmt = WavFile::new();
    let wave_format = WaveFormat { id: 1, channel: 1, sampling_rate: 8000, bits: 8 };
    with_fmt.update_channel_code_audio(&wave_format, &vec![vec![0]]).unwrap();
    assert!(with_fmt.delete_sub_chunk(*b"data"));
    let e = with_fmt.get_channel_code_audio().unwrap_err();
    assert_eq!(e.err_kind, WavF64VecErrorKind::NoRequiredSubChunk);
    assert_eq!(e.op_additional_message.as_deref(), Some("\"data\""));
}

#[test]
fn mismatched_matrix_shapes_are_rejected() {
    let mut wav_file = WavFile::new();
    let wave_format = WaveFormat { id: 1, channel: 2, sampling_rate: 8000, bits: 8 };
    // one row for a stereo format
    let e = wav_file.update_channel_code_audio(&wave_format, &vec![vec![0]]).unwrap_err();
    assert_eq!(e.err_kind, WavF64VecErrorKind::MatrixLengthError);
    assert_eq!(e.op_additional_message, None);
    // ragged rows
    let e = wav_file
        .update_channel_code_audio(&wave_format, &vec![vec![0, 0], vec![0]])
        .unwrap_err();
    assert_eq!(e.err_kind, WavF64VecErrorKind::MatrixLengthError);
    // a frame narrower than the channel count
    let e = wav_file
        .update_data_code_audio(&wave_format, &vec![vec![0, 0], vec![0]])
        .unwrap_err();
    assert_eq!(e.err_kind, WavF64VecErrorKind::MatrixLengthError);
    // nothing was installed by the failed updates
    assert_eq!(wav_file.sub_chunks.len(), 0);
}

#[test]
fn every_error_kind_has_its_message() {
    let cases = [
        (WavF64VecErrorKind::PathIsNotFile, "Specified path is not file."),
        (WavF64VecErrorKind::PathHasNoWavExtention, "Specified path extension is not \".wav\"."),
        (
            WavF64VecErrorKind::FileIsNotCompatibleFormat,
            "Specified file is not compatible wav format.",
        ),
        (WavF64VecErrorKind::SubChunkSizeError, "Sub chunk size is wrong."),
        (WavF64VecErrorKind::SubChunkSizeTooLarge, "Sub chunk size is too large."),
        (WavF64VecErrorKind::SubChunkDuplication, "There is sub chunk dupulication."),
        (WavF64VecErrorKind::NoRequiredSubChunk, "There is no required sub chunk."),
        (WavF64VecErrorKind::FormatIsNotSupported, "Specified Wave format is not supported."),
        (WavF64VecErrorKind::BytesLengthError, "Bytes length is wrong."),
        (WavF64VecErrorKind::MatrixLengthError, "Matrix length is wrong."),
    ];
    for (kind, text) in cases {
        let err = wav_f64vec::WavF64VecError::new(kind, None);
        assert_eq!(err.message(), text);
    }
}
