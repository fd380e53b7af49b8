//! G.711 companding of linear PCM audio.
//!
//! The library normalizes PCM samples of many widths, signednesses and byte
//! orders into canonical signed 16-bit form, companding each sample to one
//! μ-law or A-law byte, and can low-pass-filter and decimate a buffer to
//! reduce its effective sample rate beforehand. Every operation is a pure
//! function over caller-owned buffers: no allocation, no retained state.

pub use crate::downsampler::resample;
pub use crate::errors::EncodeError;
pub use crate::formats::{InputFormat, OutputFormat, SampleRate};

pub mod downsampler;
pub mod encoder;
pub mod decoder;
pub mod errors;
pub mod formats;

use vstd::prelude::*;

verus! {

/// The encoder entry point; it carries no state of its own.
pub struct LawEncoder;

impl LawEncoder {
    /// Encodes audio data from one PCM layout into one companded byte per
    /// sample, writing into the caller's output buffer and returning how
    /// many bytes were written.
    ///
    /// The output buffer must hold at least half the input length, the
    /// documented 2:1 minimum compaction ratio for 16-bit input; a smaller
    /// buffer is rejected with `EncodeError::OutputBufferTooSmall` before
    /// anything is written. A trailing partial sample window is dropped
    /// silently, and for one-byte-wide samples the walk also stops once the
    /// output buffer is full. Output bytes beyond the returned count keep
    /// their old values.
    pub fn encode(
        &self,
        input_format: InputFormat,
        input_data: &[u8],
        output_format: OutputFormat,
        output_buffer: &mut [u8],
    ) -> (result: Result<usize, EncodeError>)
        ensures
            final(output_buffer)@.len() == old(output_buffer)@.len(),
            old(output_buffer)@.len() < input_data@.len() / 2 ==> result == Err::<
                usize,
                EncodeError,
            >(EncodeError::OutputBufferTooSmall) && final(output_buffer)@ == old(output_buffer)@,
            old(output_buffer)@.len() >= input_data@.len() / 2 ==> result == Ok::<
                usize,
                EncodeError,
            >(
                encoder::spec_encode_count(
                    input_format,
                    input_data@.len() as int,
                    old(output_buffer)@.len() as int,
                ) as usize,
            ),
            old(output_buffer)@.len() >= input_data@.len() / 2 ==> forall|j: int|
                0 <= j < encoder::spec_encode_count(
                    input_format,
                    input_data@.len() as int,
                    old(output_buffer)@.len() as int,
                ) ==> final(output_buffer)@[j] == encoder::spec_encoded_byte(
                    input_format,
                    output_format,
                    input_data@,
                    j,
                ),
            forall|j: int|
                encoder::spec_encode_count(
                    input_format,
                    input_data@.len() as int,
                    old(output_buffer)@.len() as int,
                ) <= j < old(output_buffer)@.len() ==> final(output_buffer)@[j] == old(
                    output_buffer,
                )@[j],
    {
        if output_buffer.len() < input_data.len() / 2 {
            return Err(EncodeError::OutputBufferTooSmall);
        }

        let num_bytes = encoder::encode(input_format, input_data, output_format, output_buffer);

        Ok(num_bytes)
    }
}

} // verus!
