use vstd::prelude::*;
use crate::text::{ends_with, has_suffix, push_signed_decimal, signed_decimal};

verus! {

/// The Whisper model variants that can be downloaded and run.
#[derive(Debug, Clone, Copy, PartialEq, Eq, Structural)]
pub enum ModelSize {
    Tiny,
    Base,
    Small,
}

impl ModelSize {
    /// Short display name of the model.
    pub fn name(&self) -> (r: &'static str)
        ensures
            r@ == (match *self {
                ModelSize::Tiny => "tiny"@,
                ModelSize::Base => "base"@,
                ModelSize::Small => "small"@,
            }),
    {
        match self {
            ModelSize::Tiny => "tiny",
            ModelSize::Base => "base",
            ModelSize::Small => "small",
        }
    }

    /// File name of the model weights.
    pub fn model_filename(&self) -> (r: &'static str)
        ensures
            r@ == (match *self {
                ModelSize::Tiny => "ggml-tiny.bin"@,
                ModelSize::Base => "ggml-base.bin"@,
                ModelSize::Small => "ggml-small.bin"@,
            }),
    {
        match self {
            ModelSize::Tiny => "ggml-tiny.bin",
            ModelSize::Base => "ggml-base.bin",
            ModelSize::Small => "ggml-small.bin",
        }
    }

    /// Where the model weights are downloaded from.
    pub fn model_url(&self) -> (r: &'static str)
        ensures
            r@ == (match *self {
                ModelSize::Tiny => "https://huggingface.co/ggerganov/whisper.cpp/resolve/main/ggml-tiny.bin"@,
                ModelSize::Base => "https://huggingface.co/ggerganov/whisper.cpp/resolve/main/ggml-base.bin"@,
                ModelSize::Small => "https://huggingface.co/ggerganov/whisper.cpp/resolve/main/ggml-small.bin"@,
            }),
    {
        match self {
            ModelSize::Tiny => {
                "https://huggingface.co/ggerganov/whisper.cpp/resolve/main/ggml-tiny.bin"
            },
            ModelSize::Base => {
                "https://huggingface.co/ggerganov/whisper.cpp/resolve/main/ggml-base.bin"
            },
            ModelSize::Small => {
                "https://huggingface.co/ggerganov/whisper.cpp/resolve/main/ggml-small.bin"
            },
        }
    }
}

/// The message for a failed model download, naming the model and the
/// reason.
pub fn download_failure_message(size: ModelSize, reason: &str) -> (r: String)
    ensures
        r@ == "Failed to download "@ + (match size {
            ModelSize::Tiny => "tiny"@,
            ModelSize::Base => "base"@,
            ModelSize::Small => "small"@,
        }) + " model: "@ + reason@ + " (Check internet connection)"@,
{
    let mut m = "Failed to download ".to_owned();
    m.append(size.name());
    m.append(" model: ");
    m.append(reason);
    m.append(" (Check internet connection)");
    m
}

/// Configuration handed to the model loader.
#[derive(Debug, Clone, Copy)]
pub struct WhisperConfig {
    pub model_size: ModelSize,
}

/// A ready-to-run model: the path of the model weights and of the
/// whisper.cpp executable.
pub struct WhisperModel {
    model_path: String,
    whisper_exe: String,
}

impl WhisperModel {
    /// The path of the model weights.
    pub closed spec fn model_path_view(&self) -> Seq<char> {
        self.model_path@
    }

    /// The path of the whisper.cpp executable.
    pub closed spec fn whisper_exe_view(&self) -> Seq<char> {
        self.whisper_exe@
    }

    /// A model made of weights at `model_path` and the executable at
    /// `whisper_exe`.
    pub fn from_paths(model_path: String, whisper_exe: String) -> (r: WhisperModel)
        ensures
            r.model_path_view() == model_path@,
            r.whisper_exe_view() == whisper_exe@,
    {
        WhisperModel { model_path, whisper_exe }
    }

    /// The path of the model weights.
    pub fn model_path(&self) -> (r: &str)
        ensures
            r@ == self.model_path_view(),
    {
        self.model_path.as_str()
    }

    /// The path of the whisper.cpp executable.
    pub fn whisper_exe(&self) -> (r: &str)
        ensures
            r@ == self.whisper_exe_view(),
    {
        self.whisper_exe.as_str()
    }
}

/// What an entry of the whisper.cpp archive is unpacked as.
#[derive(Debug, Clone, Copy, PartialEq, Eq, Structural)]
pub enum ArchiveEntry {
    /// A directory to create.
    Directory,
    /// An executable file to write and report.
    Executable,
    /// Any other file to write.
    File,
}

/// The kind of an archive entry, by its name: a name ending in `/` is a
/// directory, one ending in `.exe` an executable, anything else a file.
pub fn archive_entry_kind(name: &str) -> (r: ArchiveEntry)
    ensures
        r == if has_suffix(name@, "/"@) {
            ArchiveEntry::Directory
        } else if has_suffix(name@, ".exe"@) {
            ArchiveEntry::Executable
        } else {
            ArchiveEntry::File
        },
{
    if ends_with(name, "/") {
        ArchiveEntry::Directory
    } else if ends_with(name, ".exe") {
        ArchiveEntry::Executable
    } else {
        ArchiveEntry::File
    }
}

/// The message when the unpacked archive holds no whisper.exe under `dir`.
pub fn exe_not_found_message(dir: &str) -> (r: String)
    ensures
        r@ == "whisper.exe not found in "@ + dir@,
{
    let mut m = "whisper.exe not found in ".to_owned();
    m.append(dir);
    m
}

/// Refuses to transcribe audio without samples.
pub fn check_samples(count: usize) -> (r: Result<(), String>)
    ensures
        r is Ok <==> count > 0,
        r matches Err(e) ==> e@ == "No audio samples provided"@,
{
    if count == 0 {
        Err("No audio samples provided".to_owned())
    } else {
        Ok(())
    }
}

/// The extension whisper.cpp gives its output next to the input file:
/// subtitles with timestamps, plain text without.
pub fn transcript_extension(show_timestamps: bool) -> (r: &'static str)
    ensures
        r@ == if show_timestamps {
            "wav.srt"@
        } else {
            "wav.txt"@
        },
{
    if show_timestamps {
        "wav.srt"
    } else {
        "wav.txt"
    }
}

/// The arguments of the whisper.cpp run: the input file, the model, the
/// language, and the output format.
pub open spec fn whisper_arg_views(
    wav_name: Seq<char>,
    model_path: Seq<char>,
    language: Seq<char>,
    show_timestamps: bool,
) -> Seq<Seq<char>> {
    seq![
        wav_name,
        "-m"@,
        model_path,
        "-l"@,
        language,
        if show_timestamps {
            "-osrt"@
        } else {
            "-otxt"@
        },
    ]
}

/// The whisper.cpp command line: the input file name, `-m` and the model
/// path, `-l` and the language, then `-osrt` for subtitles with
/// timestamps or `-otxt` for plain text; the language is the one asked
/// for whatever the output format.
pub proof fn lemma_whisper_arg_layout(
    wav_name: Seq<char>,
    model_path: Seq<char>,
    language: Seq<char>,
    show_timestamps: bool,
)
    ensures
        whisper_arg_views(wav_name, model_path, language, show_timestamps).len() == 6,
        whisper_arg_views(wav_name, model_path, language, show_timestamps)[0] == wav_name,
        whisper_arg_views(wav_name, model_path, language, show_timestamps)[1] == "-m"@,
        whisper_arg_views(wav_name, model_path, language, show_timestamps)[2] == model_path,
        whisper_arg_views(wav_name, model_path, language, show_timestamps)[3] == "-l"@,
        whisper_arg_views(wav_name, model_path, language, show_timestamps)[4] == language,
        whisper_arg_views(wav_name, model_path, language, show_timestamps)[5] == if show_timestamps {
            "-osrt"@
        } else {
            "-otxt"@
        },
        whisper_arg_views(wav_name, model_path, language, true).drop_last()
            == whisper_arg_views(wav_name, model_path, language, false).drop_last(),
{
    assert(whisper_arg_views(wav_name, model_path, language, true).drop_last()
        =~= whisper_arg_views(wav_name, model_path, language, false).drop_last());
}

/// The command-line arguments for whisper.cpp.
pub fn whisper_args(wav_name: &str, model_path: &str, language: &str, show_timestamps: bool) -> (r:
    Vec<String>)
    ensures
        r.deep_view() == whisper_arg_views(wav_name@, model_path@, language@, show_timestamps),
        r@.len() == 6,
        r@[0]@ == wav_name@,
        r@[2]@ == model_path@,
        r@[4]@ == language@,
{
    let mut r: Vec<String> = Vec::new();
    r.push(wav_name.to_owned());
    r.push("-m".to_owned());
    r.push(model_path.to_owned());
    r.push("-l".to_owned());
    r.push(language.to_owned());
    if show_timestamps {
        r.push("-osrt".to_owned());
    } else {
        r.push("-otxt".to_owned());
    }
    assert(r.deep_view() =~= whisper_arg_views(
        wav_name@,
        model_path@,
        language@,
        show_timestamps,
    ));
    r
}

/// What the whisper.cpp process was last seen doing.
#[derive(Debug, Clone, Copy, PartialEq, Eq, Structural)]
pub enum ProcessState {
    /// Still running.
    Running,
    /// Exited, successfully or not, with its exit code if it had one.
    Exited { success: bool, code: Option<i32> },
}

/// What the transcription does next while it waits for whisper.cpp.
#[derive(Debug, Clone, PartialEq)]
pub enum PollStep {
    /// Kill the process, reap it, and report `Cancelled`.
    Cancel,
    /// Sleep a while and look again.
    Wait,
    /// The process succeeded: read its output.
    Succeeded,
    /// The process failed: report this message.
    Failed(String),
}

/// One decision of the wait loop: a cancel request wins over anything
/// else; a running process is waited for; an exit is a success or a
/// failure that names the exit code (-1 when there is none).
pub fn poll_step(cancel_requested: bool, state: ProcessState) -> (r: PollStep)
    ensures
        cancel_requested ==> r == PollStep::Cancel,
        !cancel_requested ==> (match state {
            ProcessState::Running => r == PollStep::Wait,
            ProcessState::Exited { success: true, .. } => r == PollStep::Succeeded,
            ProcessState::Exited { success: false, code } => r matches PollStep::Failed(m) && m@
                == "Whisper failed with code: "@ + signed_decimal(
                match code {
                    Some(c) => c as int,
                    None => -1,
                },
            ),
        }),
{
    if cancel_requested {
        return PollStep::Cancel;
    }
    match state {
        ProcessState::Running => PollStep::Wait,
        ProcessState::Exited { success, code } => {
            if success {
                PollStep::Succeeded
            } else {
                let c: i32 = match code {
                    Some(c) => c,
                    None => -1,
                };
                let mut m = "Whisper failed with code: ".to_owned();
                push_signed_decimal(&mut m, c);
                PollStep::Failed(m)
            }
        },
    }
}

/// The message for a run that left no output file at `path`.
pub fn missing_output_message(path: &str) -> (r: String)
    ensures
        r@ == "Output file not created: "@ + path@ + ". Whisper might have failed silently."@,
{
    let mut m = "Output file not created: ".to_owned();
    m.append(path);
    m.append(". Whisper might have failed silently.");
    m
}

} // verus!
