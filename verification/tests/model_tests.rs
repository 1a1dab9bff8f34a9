use corescribe::audio::{
    check_audio_path, check_decoded_samples, resample_plan, sample_depth, ResamplePlan,
    SampleDepth, TARGET_SAMPLE_RATE,
};
use corescribe::inference::{
    archive_entry_kind, exe_not_found_message, ArchiveEntry,
    check_samples, download_failure_message, missing_output_message, poll_step,
    transcript_extension, whisper_args, PollStep, ProcessState,
};
use corescribe::{ModelSize, WhisperConfig, WhisperModel};

#[test]
fn model_names_files_and_urls() {
    assert_eq!(ModelSize::Tiny.name(), "tiny");
    assert_eq!(ModelSize::Base.name(), "base");
    assert_eq!(ModelSize::Small.name(), "small");
    assert_eq!(ModelSize::Base.model_filename(), "ggml-base.bin");
    assert_eq!(
        ModelSize::Small.model_url(),
        "https://huggingface.co/ggerganov/whisper.cpp/resolve/main/ggml-small.bin"
    );
    let config = WhisperConfig { model_size: ModelSize::Tiny };
    assert_eq!(config.model_size.model_filename(), "ggml-tiny.bin");
}

#[test]
fn model_paths_round_trip() {
    let m = WhisperModel::from_paths("/m/ggml-tiny.bin".to_string(), "/b/main.exe".to_string());
    assert_eq!(m.model_path(), "/m/ggml-tiny.bin");
    assert_eq!(m.whisper_exe(), "/b/main.exe");
}

#[test]
fn whisper_arguments() {
    assert_eq!(
        whisper_args("whisper_temp.wav", "/m/ggml-base.bin", "de", true),
        vec!["whisper_temp.wav", "-m", "/m/ggml-base.bin", "-l", "de", "-osrt"]
    );
    assert_eq!(whisper_args("a.wav", "m", "en", false)[5], "-otxt");
    assert_eq!(transcript_extension(true), "wav.srt");
    assert_eq!(transcript_extension(false), "wav.txt");
}

#[test]
fn poll_decisions() {
    assert_eq!(poll_step(true, ProcessState::Running), PollStep::Cancel);
    assert_eq!(
        poll_step(true, ProcessState::Exited { success: true, code: Some(0) }),
        PollStep::Cancel
    );
    assert_eq!(poll_step(false, ProcessState::Running), PollStep::Wait);
    assert_eq!(
        poll_step(false, ProcessState::Exited { success: true, code: Some(0) }),
        PollStep::Succeeded
    );
    assert_eq!(
        poll_step(false, ProcessState::Exited { success: false, code: Some(3) }),
        PollStep::Failed("Whisper failed with code: 3".to_string())
    );
    assert_eq!(
        poll_step(false, ProcessState::Exited { success: false, code: None }),
        PollStep::Failed("Whisper failed with code: -1".to_string())
    );
}

#[test]
fn transcription_messages() {
    assert_eq!(check_samples(0), Err("No audio samples provided".to_string()));
    assert_eq!(check_samples(3), Ok(()));
    assert_eq!(
        download_failure_message(ModelSize::Base, "timeout"),
        "Failed to download base model: timeout (Check internet connection)"
    );
    assert_eq!(
        missing_output_message("/tmp/x.wav.txt"),
        "Output file not created: /tmp/x.wav.txt. Whisper might have failed silently."
    );
}

#[test]
fn audio_path_check() {
    assert_eq!(check_audio_path("lecture.wav"), Ok(()));
    assert_eq!(check_audio_path("C:\\rec\\LECTURE.WAV"), Ok(()));
    assert_eq!(
        check_audio_path("talk.mp3"),
        Err("Only .wav files are supported. Please convert your audio to WAV format.".to_string())
    );
    assert!(check_audio_path("x.Wav").is_err());
}

#[test]
fn bit_depths() {
    assert_eq!(sample_depth(16), Ok(SampleDepth::Bits16));
    assert_eq!(sample_depth(24), Ok(SampleDepth::Bits24));
    assert_eq!(sample_depth(32), Ok(SampleDepth::Bits32));
    assert_eq!(sample_depth(8), Err("Unsupported bit depth: 8".to_string()));
    assert_eq!(sample_depth(12), Err("Unsupported bit depth: 12".to_string()));
    assert_eq!(check_decoded_samples(0), Err("No audio samples found".to_string()));
    assert_eq!(check_decoded_samples(1), Ok(()));
}

#[test]
fn resample_plans() {
    assert_eq!(TARGET_SAMPLE_RATE, 16000);
    assert_eq!(resample_plan(16000, 1), ResamplePlan { mix_to_mono: false, resample: false });
    assert_eq!(resample_plan(44100, 2), ResamplePlan { mix_to_mono: true, resample: true });
    assert_eq!(resample_plan(16000, 2), ResamplePlan { mix_to_mono: true, resample: false });
    assert_eq!(resample_plan(48000, 1), ResamplePlan { mix_to_mono: false, resample: true });
    assert_eq!(resample_plan(16000, 0), ResamplePlan { mix_to_mono: false, resample: false });
}

#[test]
fn archive_entries_and_missing_exe() {
    assert_eq!(archive_entry_kind("Release/"), ArchiveEntry::Directory);
    assert_eq!(archive_entry_kind("Release/main.exe"), ArchiveEntry::Executable);
    assert_eq!(archive_entry_kind("Release/whisper.dll"), ArchiveEntry::File);
    assert_eq!(archive_entry_kind("odd.exe/"), ArchiveEntry::Directory);
    assert_eq!(
        exe_not_found_message("/home/u/whisper-cpp-bin"),
        "whisper.exe not found in /home/u/whisper-cpp-bin"
    );
}
