use corescribe::session::{
    stage_mark, status_tone, transcript_file_name, AppDialog, Language, PendingAction,
    ProcessStage, SaveOutcome, Session, StageMark, StatusTone, Tab, UpdateStatus,
};
use corescribe::ModelSize;

fn running() -> Session {
    let mut s = Session::default();
    s.file_path = "lecture.wav".to_string();
    assert!(s.start_transcription());
    s
}

#[test]
fn language_codes_and_names() {
    assert_eq!(Language::German.code(), "de");
    assert_eq!(Language::English.code(), "en");
    assert_eq!(Language::French.code(), "fr");
    assert_eq!(Language::Spanish.code(), "es");
    assert_eq!(Language::French.name(), "Français");
    assert_eq!(Language::Spanish.name(), "Español");
    assert_eq!(Language::German.name(), "Deutsch");
}

#[test]
fn initial_session() {
    let s = Session::default();
    assert_eq!(s.active_tab, Tab::Transcriber);
    assert_eq!(s.status, "Ready to transcribe");
    assert_eq!(s.stage, ProcessStage::Idle);
    assert_eq!(s.model_size, ModelSize::Tiny);
    assert_eq!(s.language, Language::German);
    assert!(s.show_timestamps && !s.auto_save && !s.is_processing);
    assert!(s.pending_dialog.is_none());
    assert_eq!(s.update_status, UpdateStatus::Idle);
}

#[test]
fn start_needs_a_file_and_no_running_job() {
    let mut s = Session::default();
    assert!(!s.start_transcription());
    assert_eq!(s.status, "Ready to transcribe");
    let mut s = running();
    assert_eq!(s.stage, ProcessStage::Decoding);
    assert_eq!(s.status, "Loading tiny model...");
    assert!(!s.start_transcription());
}

#[test]
fn cancelled_reports() {
    for report in ["CANCELLED", "ERROR: Cancelled"] {
        let mut s = running();
        s.output_text = "kept".to_string();
        s.apply_result(report);
        assert_eq!(s.stage, ProcessStage::Idle);
        assert_eq!(s.status, "Cancelled");
        assert_eq!(s.output_text, "kept");
        assert!(!s.is_processing);
        assert!(s.pending_dialog.is_none());
    }
}

#[test]
fn error_report_opens_classified_dialog() {
    let mut s = running();
    s.apply_result("ERROR: Unsupported bit depth: 8");
    assert_eq!(s.stage, ProcessStage::Error);
    assert_eq!(s.status, "Error: Unsupported bit depth: 8");
    assert_eq!(s.output_text, "");
    assert_eq!(
        s.pending_dialog,
        Some(AppDialog {
            title: "Unsupported Format".to_string(),
            message: "Unsupported bit depth: 8".to_string(),
            is_warning: true,
            action: PendingAction::Nothing,
        })
    );
    let mut s = running();
    s.apply_result("ERROR: ERROR: Whisper failed with code: 2");
    assert_eq!(s.status, "Error: Whisper failed with code: 2");
    assert_eq!(s.pending_dialog.unwrap().title, "Whisper Error");
}

#[test]
fn transcript_report() {
    let mut s = running();
    s.apply_result("[00:00] hi\nthere");
    assert_eq!(s.stage, ProcessStage::Done);
    assert_eq!(s.status, "Done!");
    assert_eq!(s.output_text, "[00:00] hi\nthere");
    assert!(!s.save_pending);

    let mut s = running();
    s.show_timestamps = false;
    s.auto_save = true;
    s.apply_result("[00:00] hi\n there ");
    assert_eq!(s.status, "Done! Saving...");
    assert_eq!(s.output_text, "there");
    assert!(s.save_pending);
    assert!(s.take_save_request());
    assert!(!s.save_pending);
    assert!(!s.take_save_request());
}

#[test]
fn saving_reports() {
    let mut s = Session::default();
    s.record_save(SaveOutcome::Saved("a_transcript.txt".to_string()), true);
    assert_eq!(s.status, "Saved: a_transcript.txt");
    s.record_save(SaveOutcome::Failed("denied".to_string()), false);
    assert_eq!(s.status, "Save failed: denied");
    s.record_save(SaveOutcome::Dismissed, false);
    assert_eq!(s.status, "Save failed: denied");
    s.record_save(SaveOutcome::Dismissed, true);
    assert_eq!(s.status, "Done!");
    assert_eq!(transcript_file_name("lecture"), "lecture_transcript.txt");
}

#[test]
fn cancel_button() {
    let mut s = running();
    s.cancel_transcription();
    assert!(!s.is_processing);
    assert_eq!(s.stage, ProcessStage::Idle);
    assert_eq!(s.status, "Cancelled");
}

#[test]
fn update_checks() {
    let mut s = Session::default();
    assert!(s.begin_auto_check());
    assert!(!s.begin_auto_check());
    s.record_auto_check(Ok(Some("v9.0.0".to_string())));
    assert_eq!(s.update_status, UpdateStatus::Available("v9.0.0".to_string()));
    let d = s.pending_dialog.clone().unwrap();
    assert_eq!(d.title, "Update Available");
    assert_eq!(d.message, "CoreScribe v9.0.0 is available.\n\nDownload and install?");
    assert_eq!(d.action, PendingAction::UpdateApp("v9.0.0".to_string()));

    let mut s = Session::default();
    s.record_auto_check(Err("offline".to_string()));
    assert_eq!(s.update_status, UpdateStatus::Idle);
    s.record_manual_check(Err("offline".to_string()));
    assert_eq!(s.update_status, UpdateStatus::Error("offline".to_string()));
    s.record_manual_check(Ok(None));
    assert_eq!(s.update_status, UpdateStatus::UpToDate);
}

#[test]
fn dialogs() {
    let mut s = Session::default();
    s.request_update("v2.0.0");
    assert_eq!(
        s.pending_dialog.as_ref().unwrap().message,
        "A new version (v2.0.0) is available.\n\nThe app will download and restart.\n\nProceed?"
    );
    assert_eq!(s.close_dialog(true), PendingAction::UpdateApp("v2.0.0".to_string()));
    assert!(s.pending_dialog.is_none());

    s.request_cache_deletion();
    assert!(s.pending_dialog.as_ref().unwrap().is_warning);
    assert_eq!(s.close_dialog(false), PendingAction::Nothing);
    assert!(s.pending_dialog.is_none());
    assert_eq!(s.close_dialog(true), PendingAction::Nothing);

    s.report_update_failure("disk full");
    let d = s.pending_dialog.clone().unwrap();
    assert_eq!(d.title, "Update Failed");
    assert_eq!(d.message, "Failed to update: disk full");
}

#[test]
fn stage_marks_form_a_prefix() {
    assert_eq!(stage_mark(ProcessStage::Error, ProcessStage::Decoding), StageMark::Failed);
    assert_eq!(stage_mark(ProcessStage::Done, ProcessStage::Transcribing), StageMark::Reached);
    assert_eq!(stage_mark(ProcessStage::Resampling, ProcessStage::Decoding), StageMark::Reached);
    assert_eq!(stage_mark(ProcessStage::Resampling, ProcessStage::Resampling), StageMark::Reached);
    assert_eq!(stage_mark(ProcessStage::Resampling, ProcessStage::Transcribing), StageMark::Pending);
    assert_eq!(stage_mark(ProcessStage::Idle, ProcessStage::Decoding), StageMark::Pending);
    let row = [ProcessStage::Decoding, ProcessStage::Resampling, ProcessStage::Transcribing];
    for cur in [ProcessStage::Idle, ProcessStage::Decoding, ProcessStage::Resampling, ProcessStage::Transcribing, ProcessStage::Done, ProcessStage::Error] {
        let marks: Vec<StageMark> = row.iter().map(|&st| stage_mark(cur, st)).collect();
        let mut seen_pending = false;
        for m in marks {
            if m == StageMark::Pending {
                seen_pending = true;
            } else if m == StageMark::Reached {
                assert!(!seen_pending);
            }
        }
    }
}

#[test]
fn status_tones() {
    assert_eq!(status_tone("Copied to clipboard!"), StatusTone::Success);
    assert_eq!(status_tone("Saved: x"), StatusTone::Success);
    assert_eq!(status_tone("Done! Saving..."), StatusTone::Success);
    assert_eq!(status_tone("Cancelled"), StatusTone::Problem);
    assert_eq!(status_tone("Error: x"), StatusTone::Problem);
    assert_eq!(status_tone("Ready to transcribe"), StatusTone::Neutral);
}

#[test]
fn automatic_check_runs_once_over_frames() {
    for outcome in [
        Ok(Some("v3.0.0".to_string())),
        Ok(None),
        Err("offline".to_string()),
    ] {
        let mut s = Session::default();
        let mut runs = 0;
        for _frame in 0..5 {
            if s.begin_auto_check() {
                runs += 1;
                s.record_auto_check(outcome.clone());
            }
            assert!(s.auto_checked);
        }
        assert_eq!(runs, 1);
        match outcome {
            Ok(Some(t)) => {
                assert_eq!(s.update_status, UpdateStatus::Available(t.clone()));
                assert_eq!(s.pending_dialog.unwrap().action, PendingAction::UpdateApp(t));
            }
            Ok(None) => assert_eq!(s.update_status, UpdateStatus::UpToDate),
            Err(_) => assert_eq!(s.update_status, UpdateStatus::Idle),
        }
    }
}
