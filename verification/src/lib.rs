//! Reading and writing RIFF/WAVE containers: a chunk store with
//! overflow-safe size accounting, format descriptor handling, an
//! integer-level sample codec, and linear resampling positions.
//!
//! Audio samples are handled as quantized integer codes; dividing a code
//! by its depth's divisor gives the normalized value. The floating-point
//! scaling itself, like file I/O, belongs to the code around this
//! library.

pub mod chunk;
pub mod codec;
pub mod error;
pub mod format;
pub mod le;
pub mod matrix;
pub mod resample;
pub mod wavfile;

pub use chunk::SubChunk;
pub use codec::bytes_to_code;
pub use codec::code_to_bytes;
pub use codec::BIT16_WAVE_DIVISOR;
pub use codec::BIT24_WAVE_DIVISOR;
pub use codec::BIT32_WAVE_DIVISOR;
pub use codec::BIT8_WAVE_DIVISOR;
pub use error::WavF64VecError;
pub use error::WavF64VecErrorKind;
pub use format::WaveFormat;
pub use format::WAVEFORMAT_ID_EXTENSIBLE;
pub use format::WAVEFORMAT_ID_IEEE_FLOAT;
pub use format::WAVEFORMAT_ID_PCM;
pub use resample::resample_plan;
pub use resample::ResamplePoint;
pub use wavfile::WavFile;
