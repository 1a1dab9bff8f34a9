use vstd::prelude::*;
use crate::text::{decimal, ends_with, has_suffix, push_decimal};

verus! {

/// The sample rate, in Hz, that Whisper expects.
pub const TARGET_SAMPLE_RATE: u32 = 16000;

/// Whether `path` names a file that the decoder accepts: a `.wav` or
/// `.WAV` file.
pub open spec fn is_wav_path(path: Seq<char>) -> bool {
    has_suffix(path, ".wav"@) || has_suffix(path, ".WAV"@)
}

/// A path is accepted exactly when it ends in `.wav` or `.WAV`.
pub proof fn lemma_wav_paths(path: Seq<char>)
    ensures
        is_wav_path(path) <==> (has_suffix(path, ".wav"@) || has_suffix(path, ".WAV"@)),
{
}

/// Accepts paths of WAV files and refuses the others with the message
/// that the decoder reports.
pub fn check_audio_path(path: &str) -> (r: Result<(), String>)
    ensures
        r is Ok <==> is_wav_path(path@),
        r matches Err(e) ==> e@
            == "Only .wav files are supported. Please convert your audio to WAV format."@,
{
    if ends_with(path, ".wav") || ends_with(path, ".WAV") {
        Ok(())
    } else {
        Err("Only .wav files are supported. Please convert your audio to WAV format.".to_owned())
    }
}

/// The integer sample widths that the WAV decoder reads.
#[derive(Debug, Clone, Copy, PartialEq, Eq, Structural)]
pub enum SampleDepth {
    /// 16-bit samples, read as `i16`.
    Bits16,
    /// 24-bit samples, read as `i32`.
    Bits24,
    /// 32-bit samples, read as `i32`.
    Bits32,
}

/// The sample width for a WAV header's bits per sample, or the message
/// that refuses it.
pub fn sample_depth(bits_per_sample: u16) -> (r: Result<SampleDepth, String>)
    ensures
        bits_per_sample == 16 ==> r == Ok::<SampleDepth, String>(SampleDepth::Bits16),
        bits_per_sample == 24 ==> r == Ok::<SampleDepth, String>(SampleDepth::Bits24),
        bits_per_sample == 32 ==> r == Ok::<SampleDepth, String>(SampleDepth::Bits32),
        bits_per_sample != 16 && bits_per_sample != 24 && bits_per_sample != 32 ==> (r matches Err(
            e,
        ) && e@ == "Unsupported bit depth: "@ + decimal(bits_per_sample as nat)),
{
    if bits_per_sample == 16 {
        Ok(SampleDepth::Bits16)
    } else if bits_per_sample == 24 {
        Ok(SampleDepth::Bits24)
    } else if bits_per_sample == 32 {
        Ok(SampleDepth::Bits32)
    } else {
        let mut m = "Unsupported bit depth: ".to_owned();
        push_decimal(&mut m, bits_per_sample as u64);
        Err(m)
    }
}

/// Refuses a decoded file that holds no samples.
pub fn check_decoded_samples(count: usize) -> (r: Result<(), String>)
    ensures
        r is Ok <==> count > 0,
        r matches Err(e) ==> e@ == "No audio samples found"@,
{
    if count == 0 {
        Err("No audio samples found".to_owned())
    } else {
        Ok(())
    }
}

/// The two steps that bring audio to what Whisper expects.
#[derive(Debug, Clone, Copy, PartialEq, Eq, Structural)]
pub struct ResamplePlan {
    /// Average the channels of each frame into one.
    pub mix_to_mono: bool,
    /// Interpolate to `TARGET_SAMPLE_RATE`.
    pub resample: bool,
}

/// Which steps audio with `sample_rate` and `channels` needs: mixing
/// when it has more than one channel, resampling when its rate is not
/// the target rate. Mono audio at the target rate passes unchanged.
pub fn resample_plan(sample_rate: u32, channels: u16) -> (r: ResamplePlan)
    ensures
        r.mix_to_mono == (channels > 1),
        r.resample == (sample_rate != TARGET_SAMPLE_RATE),
{
    if sample_rate == TARGET_SAMPLE_RATE && channels == 1 {
        return ResamplePlan { mix_to_mono: false, resample: false };
    }
    ResamplePlan { mix_to_mono: channels > 1, resample: sample_rate != TARGET_SAMPLE_RATE }
}

} // verus!
