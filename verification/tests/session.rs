use handy::output::ProcessedTranscription;
use handy::preview::PreviewCandidate;
use handy::session::{
    action_for, after_recording_attempt, complete_unless_cancelled, plan_start,
    recording_error_kind, recording_file_name, wants_post_process, BoundAction, OpeningAction,
    PollAction, PollEvent, RecordingErrorKind, StartFollowUp, StartOverlay, StopAction, StopEvent,
    StopPhase, StopSession, VadPolicy, CANCELLATION_POLL_MILLIS,
};
use handy::settings::{AppSettings, OverlayStyle, PostProcessProvider, ProviderMap};

fn settings(overlay_style: OverlayStyle) -> AppSettings {
    let mut post_process_models = ProviderMap::new();
    post_process_models.insert("custom".to_string(), "gemma2:2b".to_string());
    AppSettings {
        context_aware_enabled: false,
        context_tone_rules: Vec::new(),
        tone_presets: Vec::new(),
        post_process_providers: vec![PostProcessProvider {
            id: "custom".to_string(),
            base_url: "http://localhost:11434/v1".to_string(),
            supports_structured_output: false,
        }],
        post_process_provider_id: "custom".to_string(),
        post_process_models,
        post_process_api_keys: ProviderMap::new(),
        post_process_prompts: Vec::new(),
        post_process_selected_prompt_id: None,
        always_post_process: false,
        always_on_microphone: false,
        vad_enabled: true,
        preview_model_enabled: false,
        overlay_style,
        selected_model: String::new(),
        selected_language: String::new(),
    }
}

fn streaming_model() -> Vec<PreviewCandidate> {
    vec![PreviewCandidate {
        id: "nemotron".to_string(),
        is_downloaded: true,
        supports_streaming: true,
        accuracy: Some(1),
    }]
}

fn begin(post_process: bool) -> StopSession {
    StopSession::begin(&settings(OverlayStyle::Live), post_process, false, true)
}

/// Runs the events, none of them cancelled, and writes down what is done.
fn run(session: StopSession, events: Vec<StopEvent>) -> (StopSession, Vec<String>) {
    let mut session = session;
    let mut done = Vec::new();
    for event in events {
        let (next, actions) = session.step(event, false);
        session = next;
        done.extend(actions.iter().map(|a| format!("{a:?}")));
    }
    (session, done)
}

fn recorded(samples: Option<usize>) -> StopEvent {
    StopEvent::Recorded { samples }
}

fn streamed(text: Option<&str>) -> StopEvent {
    StopEvent::StreamFinalized { text: Ok(text.map(str::to_string)) }
}

fn transcribed(text: &str) -> StopEvent {
    StopEvent::Transcribed { text: Ok(text.to_string()) }
}

fn output(text: &str) -> StopEvent {
    StopEvent::OutputReady {
        processed: Some(ProcessedTranscription {
            final_text: text.to_string(),
            post_processed_text: None,
            post_process_prompt: None,
        }),
    }
}

#[test]
fn hotkeys_are_bound_to_actions() {
    assert_eq!(action_for("transcribe"), Some(BoundAction::Transcribe { post_process: false }));
    assert_eq!(
        action_for("transcribe_with_post_process"),
        Some(BoundAction::Transcribe { post_process: true })
    );
    assert_eq!(action_for("cancel"), Some(BoundAction::Cancel));
    assert_eq!(action_for("test"), Some(BoundAction::Test));
    assert_eq!(action_for("Transcribe"), None);
}

#[test]
fn cleanup_is_wanted_by_hotkey_or_always() {
    let mut s = settings(OverlayStyle::Live);
    assert!(!wants_post_process(false, &s));
    assert!(wants_post_process(true, &s));
    s.always_post_process = true;
    assert!(wants_post_process(false, &s));
}

#[test]
fn streaming_models_stream_into_the_live_overlay() {
    let plan = plan_start(&settings(OverlayStyle::Live), false, Some(true), &Vec::new());
    assert!(plan.start_stream);
    assert_eq!(plan.vad_policy, VadPolicy::Streaming);
    assert_eq!(plan.overlay, StartOverlay::Streaming);
    assert!(!plan.chunked_preview);
    assert_eq!(plan.preview_model, None);
    assert!(!plan.capture_context);
    assert!(plan.warm_up.is_none());
    assert!(!plan.sound_first);
}

#[test]
fn other_models_are_previewed_by_chunks_or_by_a_second_model() {
    let mut s = settings(OverlayStyle::Live);
    let plan = plan_start(&s, false, Some(false), &streaming_model());
    assert!(plan.chunked_preview);
    assert_eq!(plan.vad_policy, VadPolicy::Offline);
    assert_eq!(plan.overlay, StartOverlay::Streaming);
    s.preview_model_enabled = true;
    let plan = plan_start(&s, false, None, &streaming_model());
    assert_eq!(plan.preview_model.as_deref(), Some("nemotron"));
    assert!(!plan.chunked_preview);
    assert!(!plan.start_stream);
    let plan = plan_start(&s, false, None, &Vec::new());
    assert_eq!(plan.preview_model, None);
    assert!(plan.chunked_preview);
    let plan = plan_start(&s, false, Some(true), &streaming_model());
    assert_eq!(plan.preview_model, None);
}

#[test]
fn the_overlay_follows_its_style() {
    let plan = plan_start(&settings(OverlayStyle::Minimal), false, Some(false), &Vec::new());
    assert_eq!(plan.overlay, StartOverlay::Recording);
    assert!(!plan.chunked_preview);
    let mut s = settings(OverlayStyle::Off);
    s.vad_enabled = false;
    s.always_on_microphone = true;
    let plan = plan_start(&s, false, Some(true), &Vec::new());
    assert_eq!(plan.overlay, StartOverlay::Nothing);
    assert_eq!(plan.vad_policy, VadPolicy::Disabled);
    assert!(plan.sound_first);
}

#[test]
fn a_dictation_to_clean_up_captures_and_warms_up() {
    let mut s = settings(OverlayStyle::Live);
    let plan = plan_start(&s, true, None, &Vec::new());
    assert!(plan.capture_context);
    let warm_up = plan.warm_up.unwrap();
    assert_eq!(warm_up.base_url, "http://localhost:11434/v1");
    assert_eq!(warm_up.model, "gemma2:2b");
    s.post_process_provider_id = "gone".to_string();
    let plan = plan_start(&s, true, None, &Vec::new());
    assert!(plan.capture_context);
    assert!(plan.warm_up.is_none());
}

#[test]
fn a_recording_that_starts_can_be_cancelled() {
    let steps = after_recording_attempt(None, true, false, false);
    assert_eq!(steps.len(), 1);
    assert!(matches!(steps[0], StartFollowUp::RegisterCancelShortcut));
    let steps = after_recording_attempt(None, false, false, false);
    assert_eq!(steps.len(), 2);
    assert!(matches!(steps[0], StartFollowUp::PlayStartSound { delay_millis: 100 }));
    assert!(matches!(steps[1], StartFollowUp::RegisterCancelShortcut));
}

#[test]
fn a_recording_that_does_not_start_is_undone_and_reported() {
    let steps = after_recording_attempt(Some("denied".to_string()), false, true, true);
    assert_eq!(steps.len(), 6);
    assert!(matches!(steps[0], StartFollowUp::StopChunkedPreview));
    assert!(matches!(steps[1], StartFollowUp::CancelPreviewStream));
    assert!(matches!(steps[2], StartFollowUp::CancelStream));
    assert!(matches!(steps[3], StartFollowUp::HideOverlay));
    assert!(matches!(steps[4], StartFollowUp::TrayIdle));
    match &steps[5] {
        StartFollowUp::ReportError { kind, detail } => {
            assert_eq!(*kind, RecordingErrorKind::PermissionDenied);
            assert_eq!(detail, "denied");
        }
        other => panic!("{other:?}"),
    }
}

#[test]
fn recording_errors_are_named_for_the_interface() {
    assert_eq!(recording_error_kind(true, false).name(), "microphone_permission_denied");
    assert_eq!(recording_error_kind(false, true).name(), "no_input_device");
    assert_eq!(recording_error_kind(false, false).name(), "unknown");
}

#[test]
fn stopping_shows_work_at_once() {
    let session = begin(true);
    assert_eq!(
        session.opening(),
        [
            OpeningAction::UnregisterCancelShortcut,
            OpeningAction::StopChunkedPreview,
            OpeningAction::CancelPreviewStream,
            OpeningAction::CaptureContext,
            OpeningAction::TrayTranscribing,
            OpeningAction::ShowTranscribing { streaming: true },
            OpeningAction::RemoveMute,
            OpeningAction::PlayStopSound,
        ]
    );
    let compact = StopSession::begin(&settings(OverlayStyle::Minimal), false, true, true);
    let actions = compact.opening();
    assert_eq!(actions.len(), 7);
    assert!(!actions.contains(&OpeningAction::CaptureContext));
    assert!(actions.contains(&OpeningAction::ShowTranscribing { streaming: false }));
}

#[test]
fn a_dictation_is_transcribed_saved_and_pasted() {
    let events = vec![
        recorded(Some(5)),
        streamed(None),
        transcribed("hello"),
        StopEvent::WavSaved { ok: true },
        output("Hello."),
        StopEvent::OnMainThread { reached: true },
        StopEvent::Pasted { ok: true },
    ];
    let (session, done) = run(begin(true), events);
    assert!(matches!(session.phase, StopPhase::Ended));
    assert_eq!(
        done,
        [
            "SaveWav",
            "FinalizeStream",
            "TranscribeSamples",
            "JoinWav",
            "ShowPolishing { streaming: true }",
            "ProcessOutput { transcription: \"hello\", post_process: true }",
            "SaveHistory { transcription: \"hello\", post_process: true, post_processed_text: None, post_process_prompt: None }",
            "RunOnMainThread",
            "Paste { text: \"Hello.\" }",
            "HideOverlay",
            "TrayIdle",
        ]
    );
}

#[test]
fn the_text_of_a_live_stream_is_used_unless_blank() {
    let (session, done) = run(begin(false), vec![recorded(Some(5)), streamed(Some("live"))]);
    assert!(matches!(session.phase, StopPhase::AwaitWav { result: Ok(t) } if t == "live"));
    assert_eq!(done.last().unwrap(), "JoinWav");
    let (session, _) = run(begin(false), vec![recorded(Some(5)), streamed(Some(" \n"))]);
    assert!(matches!(session.phase, StopPhase::AwaitBatch));
}

#[test]
fn a_stream_that_fails_to_end_is_an_error() {
    let events = vec![
        recorded(Some(5)),
        StopEvent::StreamFinalized { text: Err("timeout".to_string()) },
        StopEvent::WavSaved { ok: true },
    ];
    let (session, done) = run(begin(true), events);
    assert!(matches!(session.phase, StopPhase::Ended));
    assert_eq!(
        done[3..],
        [
            "ReportTranscriptionError { error: \"timeout\" }",
            "SaveForRetry { post_process: true }",
            "HideOverlay",
            "TrayIdle",
        ]
    );
}

#[test]
fn a_failed_transcription_without_a_recording_leaves_no_entry() {
    let events = vec![
        recorded(Some(5)),
        streamed(None),
        StopEvent::Transcribed { text: Err("engine".to_string()) },
        StopEvent::WavSaved { ok: false },
    ];
    let (_, done) = run(begin(false), events);
    assert_eq!(
        done[4..],
        ["ReportTranscriptionError { error: \"engine\" }", "HideOverlay", "TrayIdle"]
    );
}

#[test]
fn nothing_recorded_ends_the_dictation() {
    for samples in [None, Some(0)] {
        let (session, done) = run(begin(true), vec![recorded(samples)]);
        assert!(matches!(session.phase, StopPhase::Ended));
        assert_eq!(done, ["CancelStream", "HideOverlay", "TrayIdle"]);
    }
}

#[test]
fn empty_output_is_kept_but_not_pasted() {
    let events = vec![
        recorded(Some(5)),
        streamed(Some("live")),
        StopEvent::WavSaved { ok: true },
        output(""),
    ];
    let (session, done) = run(begin(false), events);
    assert!(matches!(session.phase, StopPhase::Ended));
    assert!(done.iter().any(|a| a.starts_with("SaveHistory")));
    assert!(!done.iter().any(|a| a.starts_with("Paste")));
    assert!(!done.iter().any(|a| a.starts_with("ShowPolishing")));
}

#[test]
fn history_needs_the_recording() {
    let events = vec![
        recorded(Some(5)),
        streamed(Some("live")),
        StopEvent::WavSaved { ok: false },
        output("x"),
        StopEvent::OnMainThread { reached: true },
        StopEvent::Pasted { ok: false },
    ];
    let (_, done) = run(begin(false), events);
    assert!(!done.iter().any(|a| a.starts_with("SaveHistory")));
    assert_eq!(done[done.len() - 3..], ["ReportPasteError", "HideOverlay", "TrayIdle"]);
}

#[test]
fn a_cancelled_dictation_leaves_no_trace() {
    let all = || {
        vec![
            recorded(Some(5)),
            streamed(None),
            transcribed("hello"),
            StopEvent::WavSaved { ok: true },
            output("Hello."),
            StopEvent::OnMainThread { reached: true },
        ]
    };
    for (from, traces) in [(0, 0), (3, 0), (4, 0), (5, 1)] {
        let mut session = begin(true);
        let mut done = Vec::new();
        for (i, event) in all().into_iter().enumerate() {
            let (next, actions) = session.step(event, i >= from);
            session = next;
            done.extend(actions);
        }
        assert!(matches!(session.phase, StopPhase::Ended));
        let kept = done.iter().filter(|a| matches!(a, StopAction::SaveHistory { .. })).count();
        assert_eq!(kept, traces);
        assert!(!done.iter().any(|a| matches!(a, StopAction::Paste { .. })));
    }
}

#[test]
fn output_cancelled_on_the_way_ends_the_dictation() {
    let events = vec![
        recorded(Some(5)),
        streamed(Some("live")),
        StopEvent::WavSaved { ok: true },
        StopEvent::OutputReady { processed: None },
    ];
    let (session, done) = run(begin(false), events);
    assert!(matches!(session.phase, StopPhase::Ended));
    assert_eq!(done[done.len() - 2..], ["HideOverlay", "TrayIdle"]);
}

#[test]
fn nothing_is_pasted_without_the_main_thread() {
    let session = StopSession {
        post_process: false,
        streaming_overlay: false,
        phase: StopPhase::AwaitMainThread { text: "x".to_string() },
    };
    let (session, done) = run(session, vec![StopEvent::OnMainThread { reached: false }]);
    assert!(matches!(session.phase, StopPhase::Ended));
    assert_eq!(done, ["HideOverlay", "TrayIdle"]);
}

#[test]
fn an_ended_dictation_rests() {
    let session = StopSession {
        post_process: false,
        streaming_overlay: false,
        phase: StopPhase::Ended,
    };
    let (session, done) = run(session, vec![recorded(Some(5)), output("x")]);
    assert!(matches!(session.phase, StopPhase::Ended));
    assert!(done.is_empty());
}

#[test]
fn completed_operation_returns_its_output() {
    let first = complete_unless_cancelled::<&str>(PollEvent::Checked { cancelled: false });
    assert!(matches!(first, PollAction::Wait { millis: CANCELLATION_POLL_MILLIS }));
    let result = match complete_unless_cancelled(PollEvent::Completed { output: "done" }) {
        PollAction::Finish { output } => output,
        _ => panic!(),
    };

    assert_eq!(result, Some("done"));
}

#[test]
fn pending_operation_stops_after_cancellation() {
    let mut waited = 0;
    let mut action = PollAction::Check;
    let result = loop {
        action = match action {
            PollAction::Check => {
                complete_unless_cancelled::<()>(PollEvent::Checked { cancelled: waited >= 10 })
            }
            PollAction::Wait { millis } => {
                waited += millis;
                complete_unless_cancelled(PollEvent::TimedOut)
            }
            PollAction::Finish { output } => break output,
        };
    };

    assert_eq!(waited, 25);
    assert_eq!(result, None);
}

#[test]
fn recordings_are_named_by_their_time() {
    for timestamp in [0, 7, 10, 1_700_000_000, -1, -12, i64::MAX, i64::MIN] {
        assert_eq!(recording_file_name(timestamp), format!("handy-{timestamp}.wav"));
    }
}
