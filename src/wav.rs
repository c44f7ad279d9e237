use vstd::prelude::*;

verus! {

/// hound's description of a WAV stream; its fields are public and plain.
#[verifier::external_type_specification]
pub struct ExWavSpec(hound::WavSpec);

/// hound's sample representation: IEEE float or integer.
#[verifier::external_type_specification]
pub struct ExSampleFormat(hound::SampleFormat);

/// Bits in one stored sample of the output format.
pub const FLOAT_BITS: u16 = 32;

/// The header of every file this library writes: the given channel count
/// and sample rate, with samples stored as 32-bit IEEE floats.
pub fn float_wav_spec(channels: u16, sample_rate: u32) -> (r: hound::WavSpec)
    ensures
        r.channels == channels,
        r.sample_rate == sample_rate,
        r.bits_per_sample == FLOAT_BITS,
        r.sample_format == hound::SampleFormat::Float,
{
    hound::WavSpec {
        channels,
        sample_rate,
        bits_per_sample: FLOAT_BITS,
        sample_format: hound::SampleFormat::Float,
    }
}

} // verus!
