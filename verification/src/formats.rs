//! Format descriptors: the shape of one input PCM sample (byte width,
//! endianness, integer/float interpretation), its nominal sample rate, and
//! the target companding law.

use vstd::prelude::*;

verus! {

/// Nominal sample rate of the input signal, a closed enumeration.
#[derive(Clone, Copy, Debug, PartialEq, Eq, Structural)]
pub enum SampleRate {
    Hz8000,
    Hz11025,
    Hz16000,
    Hz22050,
    Hz32000,
    Hz44100,
    Hz48000,
    Hz96000,
    Hz192000,
}

impl SampleRate {
    /// The rate in Hz.
    pub open spec fn spec_as_hz(self) -> u32 {
        match self {
            SampleRate::Hz8000 => 8000,
            SampleRate::Hz11025 => 11025,
            SampleRate::Hz16000 => 16000,
            SampleRate::Hz22050 => 22050,
            SampleRate::Hz32000 => 32000,
            SampleRate::Hz44100 => 44100,
            SampleRate::Hz48000 => 48000,
            SampleRate::Hz96000 => 96000,
            SampleRate::Hz192000 => 192000,
        }
    }

    pub fn as_hz(&self) -> (hz: u32)
        ensures
            hz == self.spec_as_hz(),
    {
        match self {
            SampleRate::Hz8000 => 8000,
            SampleRate::Hz11025 => 11025,
            SampleRate::Hz16000 => 16000,
            SampleRate::Hz22050 => 22050,
            SampleRate::Hz32000 => 32000,
            SampleRate::Hz44100 => 44100,
            SampleRate::Hz48000 => 48000,
            SampleRate::Hz96000 => 96000,
            SampleRate::Hz192000 => 192000,
        }
    }
}

/// One PCM input layout: the cross product of sample width, signedness or
/// float interpretation, and byte order, each variant carrying the nominal
/// rate of the signal it describes.
///
/// `BigEndian` and `LittleEndian` are the minimal 16-bit signed layouts at
/// the base 8000 Hz rate, kept as bare variants for callers that deal only
/// in canonical 16-bit PCM.
#[derive(Clone, Copy, Debug, PartialEq, Eq, Structural)]
pub enum InputFormat {
    /// 16-bit signed PCM, big-endian, at the base 8000 Hz rate.
    BigEndian,
    /// 16-bit signed PCM, little-endian, at the base 8000 Hz rate.
    LittleEndian,
    Signed8Bit(SampleRate),
    Unsigned8Bit(SampleRate),
    Signed16BitBigEndian(SampleRate),
    Signed16BitLittleEndian(SampleRate),
    Unsigned16BitBigEndian(SampleRate),
    Unsigned16BitLittleEndian(SampleRate),
    Signed24BitBigEndian(SampleRate),
    Signed24BitLittleEndian(SampleRate),
    Unsigned24BitBigEndian(SampleRate),
    Unsigned24BitLittleEndian(SampleRate),
    Signed32BitBigEndian(SampleRate),
    Signed32BitLittleEndian(SampleRate),
    Unsigned32BitBigEndian(SampleRate),
    Unsigned32BitLittleEndian(SampleRate),
    Float32BigEndian(SampleRate),
    Float32LittleEndian(SampleRate),
    Float64BigEndian(SampleRate),
    Float64LittleEndian(SampleRate),
}

impl InputFormat {
    /// Width of one sample in bytes.
    pub open spec fn spec_byte_width(self) -> usize {
        self.spec_byte_depth_endianness().0
    }

    /// True when the sample's bytes are stored least-significant first.
    pub open spec fn spec_little_endian(self) -> bool {
        self.spec_byte_depth_endianness().1
    }

    pub open spec fn spec_byte_depth_endianness(self) -> (usize, bool) {
        match self {
            InputFormat::BigEndian => (2, false),
            InputFormat::LittleEndian => (2, true),
            InputFormat::Signed8Bit(_) => (1, false),
            InputFormat::Unsigned8Bit(_) => (1, false),
            InputFormat::Signed16BitBigEndian(_) => (2, false),
            InputFormat::Signed16BitLittleEndian(_) => (2, true),
            InputFormat::Unsigned16BitBigEndian(_) => (2, false),
            InputFormat::Unsigned16BitLittleEndian(_) => (2, true),
            InputFormat::Signed24BitBigEndian(_) => (3, false),
            InputFormat::Signed24BitLittleEndian(_) => (3, true),
            InputFormat::Unsigned24BitBigEndian(_) => (3, false),
            InputFormat::Unsigned24BitLittleEndian(_) => (3, true),
            InputFormat::Signed32BitBigEndian(_) => (4, false),
            InputFormat::Signed32BitLittleEndian(_) => (4, true),
            InputFormat::Unsigned32BitBigEndian(_) => (4, false),
            InputFormat::Unsigned32BitLittleEndian(_) => (4, true),
            InputFormat::Float32BigEndian(_) => (4, false),
            InputFormat::Float32LittleEndian(_) => (4, true),
            InputFormat::Float64BigEndian(_) => (8, false),
            InputFormat::Float64LittleEndian(_) => (8, true),
        }
    }

    /// The nominal rate this layout was declared with; the bare 16-bit
    /// variants are fixed at the base 8000 Hz rate.
    pub open spec fn spec_sample_rate(self) -> SampleRate {
        match self {
            InputFormat::BigEndian => SampleRate::Hz8000,
            InputFormat::LittleEndian => SampleRate::Hz8000,
            InputFormat::Signed8Bit(r) => r,
            InputFormat::Unsigned8Bit(r) => r,
            InputFormat::Signed16BitBigEndian(r) => r,
            InputFormat::Signed16BitLittleEndian(r) => r,
            InputFormat::Unsigned16BitBigEndian(r) => r,
            InputFormat::Unsigned16BitLittleEndian(r) => r,
            InputFormat::Signed24BitBigEndian(r) => r,
            InputFormat::Signed24BitLittleEndian(r) => r,
            InputFormat::Unsigned24BitBigEndian(r) => r,
            InputFormat::Unsigned24BitLittleEndian(r) => r,
            InputFormat::Signed32BitBigEndian(r) => r,
            InputFormat::Signed32BitLittleEndian(r) => r,
            InputFormat::Unsigned32BitBigEndian(r) => r,
            InputFormat::Unsigned32BitLittleEndian(r) => r,
            InputFormat::Float32BigEndian(r) => r,
            InputFormat::Float32LittleEndian(r) => r,
            InputFormat::Float64BigEndian(r) => r,
            InputFormat::Float64LittleEndian(r) => r,
        }
    }

    pub fn get_sample_rate(&self) -> (r: SampleRate)
        ensures
            r == self.spec_sample_rate(),
    {
        match self {
            InputFormat::BigEndian => SampleRate::Hz8000,
            InputFormat::LittleEndian => SampleRate::Hz8000,
            InputFormat::Signed8Bit(r) => *r,
            InputFormat::Unsigned8Bit(r) => *r,
            InputFormat::Signed16BitBigEndian(r) => *r,
            InputFormat::Signed16BitLittleEndian(r) => *r,
            InputFormat::Unsigned16BitBigEndian(r) => *r,
            InputFormat::Unsigned16BitLittleEndian(r) => *r,
            InputFormat::Signed24BitBigEndian(r) => *r,
            InputFormat::Signed24BitLittleEndian(r) => *r,
            InputFormat::Unsigned24BitBigEndian(r) => *r,
            InputFormat::Unsigned24BitLittleEndian(r) => *r,
            InputFormat::Signed32BitBigEndian(r) => *r,
            InputFormat::Signed32BitLittleEndian(r) => *r,
            InputFormat::Unsigned32BitBigEndian(r) => *r,
            InputFormat::Unsigned32BitLittleEndian(r) => *r,
            InputFormat::Float32BigEndian(r) => *r,
            InputFormat::Float32LittleEndian(r) => *r,
            InputFormat::Float64BigEndian(r) => *r,
            InputFormat::Float64LittleEndian(r) => *r,
        }
    }

    /// Width of one sample in bytes, executable form.
    pub fn byte_width(&self) -> (w: usize)
        ensures
            w == self.spec_byte_width(),
            1 <= w <= 8,
    {
        get_byte_depth_endianness(self).0
    }
}

/// Looks a layout up to its `(byte width, little-endian)` pair.
pub fn get_byte_depth_endianness(input_format: &InputFormat) -> (r: (usize, bool))
    ensures
        r == input_format.spec_byte_depth_endianness(),
        1 <= r.0 <= 8,
{
    match input_format {
        InputFormat::BigEndian => (2, false),
        InputFormat::LittleEndian => (2, true),
        InputFormat::Signed8Bit(_) => (1, false),
        InputFormat::Unsigned8Bit(_) => (1, false),
        InputFormat::Signed16BitBigEndian(_) => (2, false),
        InputFormat::Signed16BitLittleEndian(_) => (2, true),
        InputFormat::Unsigned16BitBigEndian(_) => (2, false),
        InputFormat::Unsigned16BitLittleEndian(_) => (2, true),
        InputFormat::Signed24BitBigEndian(_) => (3, false),
        InputFormat::Signed24BitLittleEndian(_) => (3, true),
        InputFormat::Unsigned24BitBigEndian(_) => (3, false),
        InputFormat::Unsigned24BitLittleEndian(_) => (3, true),
        InputFormat::Signed32BitBigEndian(_) => (4, false),
        InputFormat::Signed32BitLittleEndian(_) => (4, true),
        InputFormat::Unsigned32BitBigEndian(_) => (4, false),
        InputFormat::Unsigned32BitLittleEndian(_) => (4, true),
        InputFormat::Float32BigEndian(_) => (4, false),
        InputFormat::Float32LittleEndian(_) => (4, true),
        InputFormat::Float64BigEndian(_) => (8, false),
        InputFormat::Float64LittleEndian(_) => (8, true),
    }
}

/// Target companding law, a closed enumeration carrying no data.
#[derive(Clone, Copy, Debug, PartialEq, Eq, Structural)]
pub enum OutputFormat {
    Mulaw,
    Alaw,
}

} // verus!
