use vstd::prelude::*;

verus! {

/// Every failure the library can report, one variant per cause.
#[derive(Clone, Copy, PartialEq, Eq, Structural, Debug)]
pub enum WavF64VecErrorKind {
    /// The given path does not point at a file.
    PathIsNotFile,
    /// The given path does not end in the expected extension.
    PathHasNoWavExtention,
    /// The byte stream is not a RIFF/WAVE container.
    FileIsNotCompatibleFormat,
    /// A declared chunk size disagrees with the buffer or with derived fields.
    SubChunkSizeError,
    /// A mutation would push the container past the 32-bit RIFF size budget.
    SubChunkSizeTooLarge,
    /// More than one `fmt ` or `data` chunk was found.
    SubChunkDuplication,
    /// A required `fmt ` or `data` chunk is absent.
    NoRequiredSubChunk,
    /// Format id, channel count, bit depth or sampling rate is unsupported.
    FormatIsNotSupported,
    /// A sample byte group has an unexpected width.
    BytesLengthError,
    /// Sample matrix rows have inconsistent lengths or widths.
    MatrixLengthError,
}

/// A failure report: a kind plus an optional qualifier naming the
/// offending field or chunk.
#[derive(Clone, PartialEq, Debug)]
pub struct WavF64VecError {
    pub err_kind: WavF64VecErrorKind,
    pub op_additional_message: Option<String>,
}

/// The fixed message text of each error kind.
pub open spec fn kind_message(kind: WavF64VecErrorKind) -> Seq<char> {
    match kind {
        WavF64VecErrorKind::PathIsNotFile => "Specified path is not file."@,
        WavF64VecErrorKind::PathHasNoWavExtention => "Specified path extension is not \".wav\"."@,
        WavF64VecErrorKind::FileIsNotCompatibleFormat => "Specified file is not compatible wav format."@,
        WavF64VecErrorKind::SubChunkSizeError => "Sub chunk size is wrong."@,
        WavF64VecErrorKind::SubChunkSizeTooLarge => "Sub chunk size is too large."@,
        WavF64VecErrorKind::SubChunkDuplication => "There is sub chunk dupulication."@,
        WavF64VecErrorKind::NoRequiredSubChunk => "There is no required sub chunk."@,
        WavF64VecErrorKind::FormatIsNotSupported => "Specified Wave format is not supported."@,
        WavF64VecErrorKind::BytesLengthError => "Bytes length is wrong."@,
        WavF64VecErrorKind::MatrixLengthError => "Matrix length is wrong."@,
    }
}

impl WavF64VecError {
    /// Build an error value from its kind and optional qualifier.
    pub fn new(err_kind: WavF64VecErrorKind, op_additional_message: Option<String>) -> (r:
        WavF64VecError)
        ensures
            r.err_kind == err_kind,
            r.op_additional_message == op_additional_message,
    {
        WavF64VecError { err_kind, op_additional_message }
    }

    /// The message text for this error's kind: a closed, exhaustive mapping,
    /// so no kind can ever be left without a message.
    pub fn message(&self) -> (r: &'static str)
        ensures
            r@ == kind_message(self.err_kind),
    {
        match self.err_kind {
            WavF64VecErrorKind::PathIsNotFile => "Specified path is not file.",
            WavF64VecErrorKind::PathHasNoWavExtention => "Specified path extension is not \".wav\".",
            WavF64VecErrorKind::FileIsNotCompatibleFormat => "Specified file is not compatible wav format.",
            WavF64VecErrorKind::SubChunkSizeError => "Sub chunk size is wrong.",
            WavF64VecErrorKind::SubChunkSizeTooLarge => "Sub chunk size is too large.",
            WavF64VecErrorKind::SubChunkDuplication => "There is sub chunk dupulication.",
            WavF64VecErrorKind::NoRequiredSubChunk => "There is no required sub chunk.",
            WavF64VecErrorKind::FormatIsNotSupported => "Specified Wave format is not supported.",
            WavF64VecErrorKind::BytesLengthError => "Bytes length is wrong.",
            WavF64VecErrorKind::MatrixLengthError => "Matrix length is wrong.",
        }
    }
}

} // verus!
