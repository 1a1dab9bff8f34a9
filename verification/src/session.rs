use vstd::prelude::*;
use crate::inference::ModelSize;
use crate::text::{has_suffix, lemma_strip_prefixes_done, has_prefix, lowercase, same_text, starts_with, strip_prefixes, strip_prefixes_str};
use crate::transcript::{classify_error, error_class, filter_timestamps, filtered_transcript};

verus! {

/// The spoken languages that can be transcribed.
#[derive(Debug, Clone, Copy, PartialEq, Eq, Structural)]
pub enum Language {
    German,
    English,
    French,
    Spanish,
}

impl Language {
    /// The language code handed to whisper.cpp.
    pub fn code(&self) -> (r: &'static str)
        ensures
            r@ == (match *self {
                Language::German => "de"@,
                Language::English => "en"@,
                Language::French => "fr"@,
                Language::Spanish => "es"@,
            }),
    {
        match self {
            Language::German => "de",
            Language::English => "en",
            Language::French => "fr",
            Language::Spanish => "es",
        }
    }

    /// The name of the language in that language.
    pub fn name(&self) -> (r: &'static str)
        ensures
            r@ == (match *self {
                Language::German => "Deutsch"@,
                Language::English => "English"@,
                Language::French => "Français"@,
                Language::Spanish => "Español"@,
            }),
    {
        match self {
            Language::German => "Deutsch",
            Language::English => "English",
            Language::French => "Français",
            Language::Spanish => "Español",
        }
    }
}

/// The two pages of the window.
#[derive(Debug, Clone, Copy, PartialEq, Eq, Structural)]
pub enum Tab {
    Transcriber,
    Settings,
}

/// Where a transcription stands, in the order the stages are passed.
#[derive(Debug, Clone, Copy, PartialEq, Eq, Structural)]
pub enum ProcessStage {
    Idle,
    Decoding,
    Resampling,
    Transcribing,
    Done,
    Error,
}

/// The position of a stage in the order above.
pub open spec fn stage_rank(s: ProcessStage) -> int {
    match s {
        ProcessStage::Idle => 0,
        ProcessStage::Decoding => 1,
        ProcessStage::Resampling => 2,
        ProcessStage::Transcribing => 3,
        ProcessStage::Done => 4,
        ProcessStage::Error => 5,
    }
}

fn rank(s: ProcessStage) -> (r: u8)
    ensures
        r == stage_rank(s),
{
    match s {
        ProcessStage::Idle => 0,
        ProcessStage::Decoding => 1,
        ProcessStage::Resampling => 2,
        ProcessStage::Transcribing => 3,
        ProcessStage::Done => 4,
        ProcessStage::Error => 5,
    }
}

/// How a stage is drawn in the progress row.
#[derive(Debug, Clone, Copy, PartialEq, Eq, Structural)]
pub enum StageMark {
    /// The run failed.
    Failed,
    /// The stage has been reached.
    Reached,
    /// The stage is still ahead.
    Pending,
}

/// The mark of `stage` while the run is at `current`.
pub open spec fn stage_mark_of(current: ProcessStage, stage: ProcessStage) -> StageMark {
    if current == ProcessStage::Error {
        StageMark::Failed
    } else if current == ProcessStage::Done || stage_rank(current) >= stage_rank(stage) {
        StageMark::Reached
    } else {
        StageMark::Pending
    }
}

/// The mark of `stage` in the progress row while the run is at `current`:
/// every stage is failed once the run failed, reached once it is done or
/// has come that far, pending otherwise.
pub fn stage_mark(current: ProcessStage, stage: ProcessStage) -> (r: StageMark)
    ensures
        r == stage_mark_of(current, stage),
{
    if current == ProcessStage::Error {
        StageMark::Failed
    } else if current == ProcessStage::Done || rank(current) >= rank(stage) {
        StageMark::Reached
    } else {
        StageMark::Pending
    }
}

/// The progress row for each stage of a run: everything is failed after
/// an error and reached when done; nothing is reached before decoding
/// starts; a running stage and the ones before it are reached, the ones
/// after it pending.
pub proof fn lemma_stage_marks(current: ProcessStage, stage: ProcessStage)
    ensures
        current == ProcessStage::Error ==> stage_mark_of(current, stage) == StageMark::Failed,
        current == ProcessStage::Done ==> stage_mark_of(current, stage) == StageMark::Reached,
        current != ProcessStage::Error && current == stage ==> stage_mark_of(current, stage)
            == StageMark::Reached,
        current == ProcessStage::Idle && stage != ProcessStage::Idle ==> stage_mark_of(
            current,
            stage,
        ) == StageMark::Pending,
        current == ProcessStage::Decoding && (stage == ProcessStage::Resampling || stage
            == ProcessStage::Transcribing) ==> stage_mark_of(current, stage) == StageMark::Pending,
        current == ProcessStage::Resampling ==> stage_mark_of(current, ProcessStage::Decoding)
            == StageMark::Reached && stage_mark_of(current, ProcessStage::Transcribing)
            == StageMark::Pending,
        current == ProcessStage::Transcribing ==> stage_mark_of(current, ProcessStage::Decoding)
            == StageMark::Reached && stage_mark_of(current, ProcessStage::Resampling)
            == StageMark::Reached,
{
}

/// The stages marked as reached always form a prefix of the stage order:
/// a stage before a reached one is reached too.
pub proof fn lemma_reached_stages_form_prefix(
    current: ProcessStage,
    earlier: ProcessStage,
    later: ProcessStage,
)
    requires
        stage_rank(earlier) <= stage_rank(later),
        stage_mark_of(current, later) == StageMark::Reached,
    ensures
        stage_mark_of(current, earlier) == StageMark::Reached,
{
}

/// The colour class of the status line.
#[derive(Debug, Clone, Copy, PartialEq, Eq, Structural)]
pub enum StatusTone {
    Success,
    Problem,
    Neutral,
}

/// The tone of a status line, by how it starts.
pub open spec fn tone_of(status: Seq<char>) -> StatusTone {
    if has_prefix(status, "Copied"@) || has_prefix(status, "Saved"@) || has_prefix(
        status,
        "Done"@,
    ) {
        StatusTone::Success
    } else if has_prefix(status, "Cancelled"@) || has_prefix(status, "Error"@) {
        StatusTone::Problem
    } else {
        StatusTone::Neutral
    }
}

/// A status line is shown as a success exactly when it starts with
/// `Copied`, `Saved` or `Done`, as a problem exactly when it otherwise
/// starts with `Cancelled` or `Error`, and neutral otherwise; in
/// particular a failed save is neutral.
pub proof fn lemma_status_tones(status: Seq<char>)
    ensures
        (tone_of(status) == StatusTone::Success) <==> (has_prefix(status, "Copied"@) || has_prefix(
            status,
            "Saved"@,
        ) || has_prefix(status, "Done"@)),
        (tone_of(status) == StatusTone::Problem) <==> (!(has_prefix(status, "Copied"@)
            || has_prefix(status, "Saved"@) || has_prefix(status, "Done"@)) && (has_prefix(
            status,
            "Cancelled"@,
        ) || has_prefix(status, "Error"@))),
        has_prefix(status, "Save failed"@) ==> tone_of(status) == StatusTone::Neutral,
{
    if has_prefix(status, "Save failed"@) {
        reveal_strlit("Save failed");
        reveal_strlit("Copied");
        reveal_strlit("Saved");
        reveal_strlit("Done");
        reveal_strlit("Cancelled");
        reveal_strlit("Error");
        assert(status[0] == "Save failed"@[0]);
        assert(status[4] == "Save failed"@[4]);
        if has_prefix(status, "Copied"@) {
            assert(status[0] == "Copied"@[0]);
        }
        if has_prefix(status, "Saved"@) {
            assert(status[4] == "Saved"@[4]);
        }
        if has_prefix(status, "Done"@) {
            assert(status[0] == "Done"@[0]);
        }
        if has_prefix(status, "Cancelled"@) {
            assert(status[0] == "Cancelled"@[0]);
        }
        if has_prefix(status, "Error"@) {
            assert(status[0] == "Error"@[0]);
        }
    }
}

/// The tone in which a status line is shown.
pub fn status_tone(status: &str) -> (r: StatusTone)
    ensures
        r == tone_of(status@),
{
    if starts_with(status, "Copied") || starts_with(status, "Saved") || starts_with(
        status,
        "Done",
    ) {
        StatusTone::Success
    } else if starts_with(status, "Cancelled") || starts_with(status, "Error") {
        StatusTone::Problem
    } else {
        StatusTone::Neutral
    }
}

/// The default file name for saving the transcript of `stem`.
pub fn transcript_file_name(stem: &str) -> (r: String)
    ensures
        r@ == stem@ + "_transcript.txt"@,
{
    let mut r = stem.to_owned();
    r.append("_transcript.txt");
    r
}

/// What confirming the open dialog does.
#[derive(Debug, Clone, PartialEq)]
pub enum PendingAction {
    /// Nothing; the dialog only informs.
    Nothing,
    /// Delete the downloaded models and binary, then quit.
    DeleteCache,
    /// Download and install the release with this tag.
    UpdateApp(String),
}

/// A modal dialog.
#[derive(Debug, Clone, PartialEq)]
pub struct AppDialog {
    pub title: String,
    pub message: String,
    pub is_warning: bool,
    pub action: PendingAction,
}

/// `d` is a dialog with this title, message and warning flag.
pub open spec fn shows_dialog(
    d: Option<AppDialog>,
    title: Seq<char>,
    message: Seq<char>,
    is_warning: bool,
) -> bool {
    &&& d is Some
    &&& d->Some_0.title@ == title
    &&& d->Some_0.message@ == message
    &&& d->Some_0.is_warning == is_warning
}

/// What is known of newer releases.
#[derive(Debug, Clone, PartialEq)]
pub enum UpdateStatus {
    /// Not checked, or the automatic check failed.
    Idle,
    /// The running release is the latest.
    UpToDate,
    /// A newer release with this tag exists.
    Available(String),
    /// The check failed with this message.
    Error(String),
}

/// How a save of the transcript went.
#[derive(Debug, Clone, PartialEq)]
pub enum SaveOutcome {
    /// Written to the file with this name.
    Saved(String),
    /// Writing failed with this message.
    Failed(String),
    /// The file dialog was closed without a choice.
    Dismissed,
}

/// The state of the window that is not drawing: choices, texts, the
/// stage of the running transcription, and the open dialog.
pub struct Session {
    pub active_tab: Tab,
    pub file_path: String,
    pub output_text: String,
    pub status: String,
    pub stage: ProcessStage,
    pub is_processing: bool,
    pub model_size: ModelSize,
    pub language: Language,
    pub show_timestamps: bool,
    pub show_console: bool,
    pub auto_save: bool,
    pub save_pending: bool,
    pub pending_dialog: Option<AppDialog>,
    pub update_status: UpdateStatus,
    pub auto_checked: bool,
}

/// `s` is the state of a freshly opened window.
pub open spec fn is_initial(s: Session) -> bool {
    &&& s.active_tab == Tab::Transcriber
    &&& s.file_path@ == Seq::<char>::empty()
    &&& s.output_text@ == Seq::<char>::empty()
    &&& s.status@ == "Ready to transcribe"@
    &&& s.stage == ProcessStage::Idle
    &&& !s.is_processing
    &&& s.model_size == ModelSize::Tiny
    &&& s.language == Language::German
    &&& s.show_timestamps
    &&& !s.show_console
    &&& !s.auto_save
    &&& !s.save_pending
    &&& s.pending_dialog is None
    &&& s.update_status == UpdateStatus::Idle
    &&& !s.auto_checked
}

impl Default for Session {
    fn default() -> (r: Session)
        ensures
            is_initial(r),
    {
        Session {
            active_tab: Tab::Transcriber,
            file_path: String::new(),
            output_text: String::new(),
            status: "Ready to transcribe".to_owned(),
            stage: ProcessStage::Idle,
            is_processing: false,
            model_size: ModelSize::Tiny,
            language: Language::German,
            show_timestamps: true,
            show_console: false,
            auto_save: false,
            save_pending: false,
            pending_dialog: None,
            update_status: UpdateStatus::Idle,
            auto_checked: false,
        }
    }
}


/// A finished run's report says it was cancelled.
pub open spec fn is_cancel_report(result: Seq<char>) -> bool {
    result == "CANCELLED"@ || result == "ERROR: Cancelled"@
}

/// A finished run's report is an error; the message follows the prefix.
pub open spec fn is_error_report(result: Seq<char>) -> bool {
    !is_cancel_report(result) && has_prefix(result, "ERROR: "@)
}

/// The error message of an error report: the report without its leading
/// `ERROR: ` prefixes.
pub open spec fn report_message(result: Seq<char>) -> Seq<char> {
    strip_prefixes(result, "ERROR: "@)
}

/// What asking whether the automatic update check is due does: the
/// answer is yes exactly when it has not run, and it is marked as run.
pub open spec fn auto_check_begun(before: Session, after: Session, due: bool) -> bool {
    &&& due == !before.auto_checked
    &&& after == (Session { auto_checked: true, ..before })
}

/// What recording the outcome of the automatic update check does: a newer
/// release opens a dialog that offers it; no newer release marks the
/// window up to date; a failure is kept quiet. Nothing else changes.
pub open spec fn auto_check_recorded(
    before: Session,
    after: Session,
    outcome: Result<Option<String>, String>,
) -> bool {
    &&& match outcome {
        Ok(Some(latest)) => {
            &&& after.update_status matches UpdateStatus::Available(t) && t@ == latest@
            &&& shows_dialog(
                after.pending_dialog,
                "Update Available"@,
                "CoreScribe "@ + latest@ + " is available.\n\nDownload and install?"@,
                false,
            )
            &&& after.pending_dialog->Some_0.action matches PendingAction::UpdateApp(t) && t@
                == latest@
        },
        Ok(None) => after.update_status == UpdateStatus::UpToDate && after.pending_dialog
            == before.pending_dialog,
        Err(_) => after.update_status == UpdateStatus::Idle && after.pending_dialog
            == before.pending_dialog,
    }
    &&& after == (Session {
        update_status: after.update_status,
        pending_dialog: after.pending_dialog,
        ..before
    })
}

proof fn lemma_frames_after_first(
    states: Seq<Session>,
    due: Seq<bool>,
    outcome: Result<Option<String>, String>,
    n: int,
)
    requires
        1 <= n <= due.len(),
        states.len() == 2 * due.len() + 1,
        is_initial(states[0]),
        forall|i: int|
            0 <= i < due.len() ==> auto_check_begun(states[2 * i], states[2 * i + 1], #[trigger] due[i]),
        forall|i: int|
            0 <= i < due.len() ==> if #[trigger] due[i] {
                auto_check_recorded(states[2 * i + 1], states[2 * i + 2], outcome)
            } else {
                states[2 * i + 2] == states[2 * i + 1]
            },
    ensures
        due[0],
        auto_check_recorded(states[1], states[2], outcome),
        forall|i: int| 1 <= i < n ==> !#[trigger] due[i],
        forall|k: int| 1 <= k <= 2 * n ==> (#[trigger] states[k]).auto_checked,
        states[2 * n] == states[2],
    decreases n,
{
    assert(auto_check_begun(states[0], states[1], due[0]));
    assert(due[0]);
    assert(auto_check_recorded(states[1], states[2], outcome));
    if n > 1 {
        lemma_frames_after_first(states, due, outcome, n - 1);
        let m = n - 1;
        assert(auto_check_begun(states[2 * m], states[2 * m + 1], due[m]));
        assert(states[2 * m].auto_checked);
        assert(!due[m]);
        assert(states[2 * m + 1] == states[2 * m]);
        assert(states[2 * m + 2] == states[2 * m + 1]);
        assert forall|k: int| 1 <= k <= 2 * n implies (#[trigger] states[k]).auto_checked by {
            if k > 2 * m {
                assert(states[k] == states[2 * m]);
            }
        }
    }
}

/// A window that only redraws, from a fresh start: every frame asks
/// whether the automatic update check is due and records `outcome` when
/// it is. The check is due in the first frame and never again, and from
/// then on the window keeps what that one check recorded.
pub proof fn lemma_auto_check_runs_once(
    states: Seq<Session>,
    due: Seq<bool>,
    outcome: Result<Option<String>, String>,
)
    requires
        due.len() > 0,
        states.len() == 2 * due.len() + 1,
        is_initial(states[0]),
        forall|i: int|
            0 <= i < due.len() ==> auto_check_begun(states[2 * i], states[2 * i + 1], #[trigger] due[i]),
        forall|i: int|
            0 <= i < due.len() ==> if #[trigger] due[i] {
                auto_check_recorded(states[2 * i + 1], states[2 * i + 2], outcome)
            } else {
                states[2 * i + 2] == states[2 * i + 1]
            },
    ensures
        due[0],
        forall|i: int| 1 <= i < due.len() ==> !#[trigger] due[i],
        forall|k: int| 1 <= k < states.len() ==> (#[trigger] states[k]).auto_checked,
        states.last() == states[2],
        (match outcome {
            Ok(Some(t)) => {
                &&& states.last().update_status matches UpdateStatus::Available(u) && u@ == t@
                &&& states.last().pending_dialog matches Some(d) && d.action matches PendingAction::UpdateApp(
                    u,
                ) && u@ == t@
            },
            Ok(None) => states.last().update_status == UpdateStatus::UpToDate,
            Err(_) => states.last().update_status == UpdateStatus::Idle,
        }),
{
    lemma_frames_after_first(states, due, outcome, due.len() as int);
    assert(states.last() == states[2 * due.len() as int]);
}

/// A report is a cancellation exactly when it is `CANCELLED` or
/// `ERROR: Cancelled`; any other report starting with `ERROR: ` is an
/// error, whose message is the report after its `ERROR: ` prefixes: a
/// tail of the report that no longer starts with `ERROR: `.
pub proof fn lemma_report_kinds(result: Seq<char>)
    ensures
        is_cancel_report(result) <==> (result == "CANCELLED"@ || result == "ERROR: Cancelled"@),
        is_error_report(result) <==> (!(result == "CANCELLED"@ || result == "ERROR: Cancelled"@)
            && has_prefix(result, "ERROR: "@)),
        !has_prefix(report_message(result), "ERROR: "@),
        has_suffix(result, report_message(result)),
{
    reveal_strlit("ERROR: ");
    lemma_strip_prefixes_done(result, "ERROR: "@);
}

impl Session {
    /// On the first frame: whether the automatic update check is still to
    /// run. Marks it as run.
    pub fn begin_auto_check(&mut self) -> (r: bool)
        ensures
            auto_check_begun(*old(self), *final(self), r),
    {
        let r = !self.auto_checked;
        self.auto_checked = true;
        r
    }

    /// Records the outcome of the automatic update check: a newer release
    /// opens a dialog that offers it; a failure is kept quiet.
    pub fn record_auto_check(&mut self, outcome: Result<Option<String>, String>)
        ensures
            auto_check_recorded(*old(self), *final(self), outcome),
    {
        match outcome {
            Ok(Some(latest)) => {
                let mut message = "CoreScribe ".to_owned();
                message.append(latest.as_str());
                message.append(" is available.\n\nDownload and install?");
                self.pending_dialog = Some(
                    AppDialog {
                        title: "Update Available".to_owned(),
                        message,
                        is_warning: false,
                        action: PendingAction::UpdateApp(latest.clone()),
                    },
                );
                self.update_status = UpdateStatus::Available(latest);
            },
            Ok(None) => {
                self.update_status = UpdateStatus::UpToDate;
            },
            Err(_) => {
                self.update_status = UpdateStatus::Idle;
            },
        }
    }

    /// Records the outcome of an update check asked for in the settings.
    pub fn record_manual_check(&mut self, outcome: Result<Option<String>, String>)
        ensures
            (match outcome {
                Ok(Some(latest)) => final(self).update_status matches UpdateStatus::Available(t)
                    && t@ == latest@,
                Ok(None) => final(self).update_status == UpdateStatus::UpToDate,
                Err(e) => final(self).update_status matches UpdateStatus::Error(m) && m@ == e@,
            }),
            *final(self) == (Session { update_status: final(self).update_status, ..*old(self) }),
    {
        match outcome {
            Ok(Some(latest)) => {
                self.update_status = UpdateStatus::Available(latest);
            },
            Ok(None) => {
                self.update_status = UpdateStatus::UpToDate;
            },
            Err(e) => {
                self.update_status = UpdateStatus::Error(e);
            },
        }
    }

    /// Starts a transcription when none runs and a file is chosen; says
    /// whether it started.
    pub fn start_transcription(&mut self) -> (r: bool)
        ensures
            r == (!old(self).is_processing && old(self).file_path@.len() > 0),
            r ==> {
                &&& final(self).is_processing
                &&& final(self).stage == ProcessStage::Decoding
                &&& final(self).status@ == "Loading "@ + (match old(self).model_size {
                    ModelSize::Tiny => "tiny"@,
                    ModelSize::Base => "base"@,
                    ModelSize::Small => "small"@,
                }) + " model..."@
                &&& final(self).output_text@ == Seq::<char>::empty()
            },
            !r ==> *final(self) == *old(self),
            *final(self) == (Session {
                is_processing: final(self).is_processing,
                stage: final(self).stage,
                status: final(self).status,
                output_text: final(self).output_text,
                ..*old(self)
            }),
    {
        if self.is_processing || self.file_path.as_str().is_empty() {
            return false;
        }
        self.is_processing = true;
        self.stage = ProcessStage::Decoding;
        let mut status = "Loading ".to_owned();
        status.append(self.model_size.name());
        status.append(" model...");
        self.status = status;
        self.output_text = String::new();
        true
    }

    /// A file was chosen or dropped: remember its path and name it in the
    /// status line.
    pub fn select_file(&mut self, path: &str, name: &str)
        ensures
            final(self).file_path@ == path@,
            final(self).status@ == "Selected: "@ + name@,
            *final(self) == (Session {
                file_path: final(self).file_path,
                status: final(self).status,
                ..*old(self)
            }),
    {
        self.file_path = path.to_owned();
        let mut status = "Selected: ".to_owned();
        status.append(name);
        self.status = status;
    }

    /// The transcript was copied to the clipboard.
    pub fn note_copied(&mut self)
        ensures
            final(self).status@ == "Copied to clipboard!"@,
            *final(self) == (Session { status: final(self).status, ..*old(self) }),
    {
        self.status = "Copied to clipboard!".to_owned();
    }

    /// The user cancels the running transcription.
    pub fn cancel_transcription(&mut self)
        ensures
            !final(self).is_processing,
            final(self).stage == ProcessStage::Idle,
            final(self).status@ == "Cancelled"@,
            *final(self) == (Session {
                is_processing: final(self).is_processing,
                stage: final(self).stage,
                status: final(self).status,
                ..*old(self)
            }),
    {
        self.is_processing = false;
        self.stage = ProcessStage::Idle;
        self.status = "Cancelled".to_owned();
    }

    /// Takes in the report of a finished run: a cancellation goes back to
    /// idle; an error clears the output and opens a dialog classified by
    /// its message; a transcript is shown, without timestamp lines when
    /// they are hidden, and queued for saving when auto-save is on.
    pub fn apply_result(&mut self, result: &str)
        ensures
            !final(self).is_processing,
            is_cancel_report(result@) ==> {
                &&& final(self).stage == ProcessStage::Idle
                &&& final(self).status@ == "Cancelled"@
                &&& final(self).output_text == old(self).output_text
                &&& final(self).pending_dialog == old(self).pending_dialog
                &&& final(self).save_pending == old(self).save_pending
            },
            is_error_report(result@) ==> {
                let msg = report_message(result@);
                let class = error_class(lowercase(msg));
                &&& final(self).stage == ProcessStage::Error
                &&& final(self).status@ == "Error: "@ + msg
                &&& final(self).output_text@ == Seq::<char>::empty()
                &&& shows_dialog(final(self).pending_dialog, class.0, msg, class.1)
                &&& final(self).pending_dialog->Some_0.action == PendingAction::Nothing
                &&& final(self).save_pending == old(self).save_pending
            },
            !is_cancel_report(result@) && !is_error_report(result@) ==> {
                &&& final(self).stage == ProcessStage::Done
                &&& final(self).status@ == if old(self).auto_save {
                    "Done! Saving..."@
                } else {
                    "Done!"@
                }
                &&& final(self).output_text@ == if old(self).show_timestamps {
                    result@
                } else {
                    filtered_transcript(result@)
                }
                &&& final(self).pending_dialog == old(self).pending_dialog
                &&& final(self).save_pending == (old(self).save_pending || old(self).auto_save)
            },
            *final(self) == (Session {
                is_processing: final(self).is_processing,
                stage: final(self).stage,
                status: final(self).status,
                output_text: final(self).output_text,
                pending_dialog: final(self).pending_dialog,
                save_pending: final(self).save_pending,
                ..*old(self)
            }),
    {
        if same_text(result, "CANCELLED") || same_text(result, "ERROR: Cancelled") {
            self.stage = ProcessStage::Idle;
            self.status = "Cancelled".to_owned();
        } else if starts_with(result, "ERROR: ") {
            self.stage = ProcessStage::Error;
            let msg = strip_prefixes_str(result, "ERROR: ");
            let mut status = "Error: ".to_owned();
            status.append(msg.as_str());
            self.status = status;
            self.output_text = String::new();
            let (title, is_warning) = classify_error(msg.as_str());
            self.pending_dialog = Some(
                AppDialog {
                    title: title.to_owned(),
                    message: msg,
                    is_warning,
                    action: PendingAction::Nothing,
                },
            );
        } else {
            self.stage = ProcessStage::Done;
            self.status = if self.auto_save {
                "Done! Saving...".to_owned()
            } else {
                "Done!".to_owned()
            };
            let shown = if self.show_timestamps {
                result.to_owned()
            } else {
                filter_timestamps(result)
            };
            self.output_text = shown;
            if self.auto_save {
                self.save_pending = true;
            }
        }
        self.is_processing = false;
    }

    /// Whether the finished transcript is to be saved now; clears the
    /// request when it is.
    pub fn take_save_request(&mut self) -> (r: bool)
        ensures
            r == (old(self).save_pending && old(self).output_text@.len() > 0),
            *final(self) == (Session {
                save_pending: if r {
                    false
                } else {
                    old(self).save_pending
                },
                ..*old(self)
            }),
    {
        if self.save_pending && !self.output_text.as_str().is_empty() {
            self.save_pending = false;
            true
        } else {
            false
        }
    }

    /// Reports in the status line how saving the transcript went; a save
    /// dialog closed after a finished run says the run is done.
    pub fn record_save(&mut self, outcome: SaveOutcome, automatic: bool)
        ensures
            (match outcome {
                SaveOutcome::Saved(name) => final(self).status@ == "Saved: "@ + name@,
                SaveOutcome::Failed(e) => final(self).status@ == "Save failed: "@ + e@,
                SaveOutcome::Dismissed => if automatic {
                    final(self).status@ == "Done!"@
                } else {
                    final(self).status == old(self).status
                },
            }),
            *final(self) == (Session { status: final(self).status, ..*old(self) }),
    {
        match outcome {
            SaveOutcome::Saved(name) => {
                let mut status = "Saved: ".to_owned();
                status.append(name.as_str());
                self.status = status;
            },
            SaveOutcome::Failed(e) => {
                let mut status = "Save failed: ".to_owned();
                status.append(e.as_str());
                self.status = status;
            },
            SaveOutcome::Dismissed => {
                if automatic {
                    self.status = "Done!".to_owned();
                }
            },
        }
    }

    /// Opens the dialog that asks before deleting all downloaded data.
    pub fn request_cache_deletion(&mut self)
        ensures
            shows_dialog(
                final(self).pending_dialog,
                "Delete All Downloaded Data"@,
                "This will delete all downloaded models and the Whisper binary.\nThe app will close afterwards.\n\nAre you sure?"@,
                true,
            ),
            final(self).pending_dialog->Some_0.action == PendingAction::DeleteCache,
            *final(self) == (Session { pending_dialog: final(self).pending_dialog, ..*old(self) }),
    {
        self.pending_dialog = Some(
            AppDialog {
                title: "Delete All Downloaded Data".to_owned(),
                message: "This will delete all downloaded models and the Whisper binary.\nThe app will close afterwards.\n\nAre you sure?".to_owned(),
                is_warning: true,
                action: PendingAction::DeleteCache,
            },
        );
    }

    /// Opens the dialog that asks before installing release `tag`.
    pub fn request_update(&mut self, tag: &str)
        ensures
            shows_dialog(
                final(self).pending_dialog,
                "Update CoreScribe"@,
                "A new version ("@ + tag@
                    + ") is available.\n\nThe app will download and restart.\n\nProceed?"@,
                false,
            ),
            final(self).pending_dialog->Some_0.action matches PendingAction::UpdateApp(t) && t@
                == tag@,
            *final(self) == (Session { pending_dialog: final(self).pending_dialog, ..*old(self) }),
    {
        let mut message = "A new version (".to_owned();
        message.append(tag);
        message.append(") is available.\n\nThe app will download and restart.\n\nProceed?");
        self.pending_dialog = Some(
            AppDialog {
                title: "Update CoreScribe".to_owned(),
                message,
                is_warning: false,
                action: PendingAction::UpdateApp(tag.to_owned()),
            },
        );
    }

    /// Closes the open dialog; when it was confirmed, hands back what it
    /// asked to do.
    pub fn close_dialog(&mut self, confirmed: bool) -> (r: PendingAction)
        ensures
            final(self).pending_dialog is None,
            r == if confirmed && old(self).pending_dialog is Some {
                old(self).pending_dialog->Some_0.action
            } else {
                PendingAction::Nothing
            },
            *final(self) == (Session { pending_dialog: None, ..*old(self) }),
    {
        let dialog = self.pending_dialog.take();
        match dialog {
            Some(d) => {
                if confirmed {
                    d.action
                } else {
                    PendingAction::Nothing
                }
            },
            None => PendingAction::Nothing,
        }
    }

    /// Opens the dialog that reports a failed update.
    pub fn report_update_failure(&mut self, error: &str)
        ensures
            shows_dialog(
                final(self).pending_dialog,
                "Update Failed"@,
                "Failed to update: "@ + error@,
                true,
            ),
            final(self).pending_dialog->Some_0.action == PendingAction::Nothing,
            *final(self) == (Session { pending_dialog: final(self).pending_dialog, ..*old(self) }),
    {
        let mut message = "Failed to update: ".to_owned();
        message.append(error);
        self.pending_dialog = Some(
            AppDialog {
                title: "Update Failed".to_owned(),
                message,
                is_warning: true,
                action: PendingAction::Nothing,
            },
        );
    }
}

} // verus!
