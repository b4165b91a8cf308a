//! A dictation from the hotkey to the pasted text: what is set up when it starts,
//! and what happens, step by step, once it stops.

use crate::cleanup;
use crate::output::ProcessedTranscription;
use crate::preview;
use crate::settings;
use crate::settings::{AppSettings, OverlayStyle};
use crate::text;
use vstd::prelude::*;

verus! {

/// What a hotkey does.
#[derive(Clone, Copy, Debug, PartialEq, Eq, Structural)]
pub enum BoundAction {
    /// Dictate; with or without asking for the cleanup pass.
    Transcribe { post_process: bool },
    /// Cancel what is going on.
    Cancel,
    /// Log the key press.
    Test,
}

/// What the hotkey with a binding id does.
pub open spec fn action_of(binding_id: Seq<char>) -> Option<BoundAction> {
    if binding_id == "transcribe"@ {
        Some(BoundAction::Transcribe { post_process: false })
    } else if binding_id == "transcribe_with_post_process"@ {
        Some(BoundAction::Transcribe { post_process: true })
    } else if binding_id == "cancel"@ {
        Some(BoundAction::Cancel)
    } else if binding_id == "test"@ {
        Some(BoundAction::Test)
    } else {
        None
    }
}

/// What the hotkey with a binding id does.
pub fn action_for(binding_id: &str) -> (r: Option<BoundAction>)
    ensures
        r == action_of(binding_id@),
{
    if text::same_text(binding_id, "transcribe") {
        Some(BoundAction::Transcribe { post_process: false })
    } else if text::same_text(binding_id, "transcribe_with_post_process") {
        Some(BoundAction::Transcribe { post_process: true })
    } else if text::same_text(binding_id, "cancel") {
        Some(BoundAction::Cancel)
    } else if text::same_text(binding_id, "test") {
        Some(BoundAction::Test)
    } else {
        None
    }
}

/// Whether a dictation is cleaned up: its hotkey asks for it, or the user wants it
/// always.
pub fn wants_post_process(post_process: bool, settings: &AppSettings) -> (r: bool)
    ensures
        r == (post_process || settings.always_post_process),
{
    post_process || settings.always_post_process
}

/// How silence is detected while recording.
#[derive(Clone, Copy, Debug, PartialEq, Eq, Structural)]
pub enum VadPolicy {
    Disabled,
    Streaming,
    Offline,
}

/// The overlay that a dictation starts with.
#[derive(Clone, Copy, Debug, PartialEq, Eq, Structural)]
pub enum StartOverlay {
    Streaming,
    Recording,
    Nothing,
}

/// The local model to load ahead of the cleanup pass.
#[derive(Debug)]
pub struct WarmUp {
    pub base_url: String,
    pub model: String,
}

/// What a dictation sets up before it records.
#[derive(Debug)]
pub struct StartPlan {
    /// Capture the destination.
    pub capture_context: bool,
    pub warm_up: Option<WarmUp>,
    pub vad_policy: VadPolicy,
    /// Stream the selected model.
    pub start_stream: bool,
    /// Stream this model into the preview.
    pub preview_model: Option<String>,
    /// Feed the preview by chunks.
    pub chunked_preview: bool,
    pub overlay: StartOverlay,
    /// Play the start sound before the recording has begun, not after.
    pub sound_first: bool,
}

/// The silence detection that fits the selected model.
pub open spec fn vad_for(vad_enabled: bool, streams: bool) -> VadPolicy {
    if !vad_enabled {
        VadPolicy::Disabled
    } else if streams {
        VadPolicy::Streaming
    } else {
        VadPolicy::Offline
    }
}

/// The warm-up that a cleanup pass calls for.
pub open spec fn warm_up_wanted(settings: AppSettings, post_process: bool) -> bool {
    post_process && settings.active_provider() is Some
}

/// The place of the model that streams into the preview, where one does.
pub open spec fn preview_model_place(
    settings: AppSettings,
    streams: bool,
    models: Seq<preview::PreviewCandidate>,
) -> Option<int> {
    if settings.preview_model_enabled && !streams {
        preview::preview_choice(models)
    } else {
        None
    }
}

/// Plans the start of a dictation. `model_streams` says whether the selected
/// model streams, as far as that is known; `models` are the models at hand. The live
/// overlay always has one source of text: the stream of the selected model, that of
/// the preview model, or chunks.
pub fn plan_start(
    settings: &AppSettings,
    post_process: bool,
    model_streams: Option<bool>,
    models: &Vec<preview::PreviewCandidate>,
) -> (r: StartPlan)
    ensures
        ({
            let streams = model_streams == Some(true);
            let wanted = post_process || settings.always_post_process;
            let place = preview_model_place(*settings, streams, models@);
            let live = settings.overlay_style == OverlayStyle::Live;
            &&& r.capture_context == wanted
            &&& r.warm_up is Some <==> warm_up_wanted(*settings, wanted)
            &&& r.warm_up matches Some(w) ==> {
                let provider = settings.active_provider()->0;
                w.base_url == provider.base_url && w.model@ == settings::value_for(
                    settings.post_process_models@,
                    provider.id@,
                )
            }
            &&& r.vad_policy == vad_for(settings.vad_enabled, streams)
            &&& r.start_stream == streams
            &&& r.preview_model is Some <==> place is Some
            &&& r.preview_model matches Some(id) ==> id == models@[place->0].id
            &&& r.chunked_preview == (live && !streams && place is None)
            &&& r.overlay == (match settings.overlay_style {
                OverlayStyle::Live => StartOverlay::Streaming,
                OverlayStyle::Minimal => StartOverlay::Recording,
                OverlayStyle::Off => StartOverlay::Nothing,
            })
            &&& r.sound_first == settings.always_on_microphone
            &&& live ==> (r.start_stream || r.preview_model is Some || r.chunked_preview)
            &&& !(r.start_stream && r.preview_model is Some)
            &&& !(r.chunked_preview && (r.start_stream || r.preview_model is Some))
        }),
{
    let wanted = wants_post_process(post_process, settings);
    let warm_up = if wanted {
        match settings.active_post_process_provider() {
            Some(provider) => Some(
                WarmUp {
                    base_url: provider.base_url.clone(),
                    model: settings.post_process_models.value(provider.id.as_str()),
                },
            ),
            None => None,
        }
    } else {
        None
    };
    let streams = match model_streams {
        Some(b) => b,
        None => false,
    };
    let vad_policy = if !settings.vad_enabled {
        VadPolicy::Disabled
    } else if streams {
        VadPolicy::Streaming
    } else {
        VadPolicy::Offline
    };
    let preview_model = if settings.preview_model_enabled && !streams {
        preview::pick_preview_streaming_model(models)
    } else {
        None
    };
    let live = settings.overlay_style == OverlayStyle::Live;
    let chunked_preview = live && !streams && preview_model.is_none();
    let text_flows = streams || preview_model.is_some() || chunked_preview;
    let overlay = match settings.overlay_style {
        OverlayStyle::Live => if text_flows {
            StartOverlay::Streaming
        } else {
            StartOverlay::Recording
        },
        OverlayStyle::Minimal => StartOverlay::Recording,
        OverlayStyle::Off => StartOverlay::Nothing,
    };
    StartPlan {
        capture_context: wanted,
        warm_up,
        vad_policy,
        start_stream: streams,
        preview_model,
        chunked_preview,
        overlay,
        sound_first: settings.always_on_microphone,
    }
}

/// Why a recording did not start.
#[derive(Clone, Copy, Debug, PartialEq, Eq, Structural)]
pub enum RecordingErrorKind {
    PermissionDenied,
    NoInputDevice,
    Unknown,
}

impl RecordingErrorKind {
    /// The name of the error in events.
    pub open spec fn name_of(self) -> Seq<char> {
        match self {
            RecordingErrorKind::PermissionDenied => "microphone_permission_denied"@,
            RecordingErrorKind::NoInputDevice => "no_input_device"@,
            RecordingErrorKind::Unknown => "unknown"@,
        }
    }

    /// The name of the error in events.
    pub fn name(&self) -> (r: &'static str)
        ensures
            r@ == self.name_of(),
    {
        match self {
            RecordingErrorKind::PermissionDenied => "microphone_permission_denied",
            RecordingErrorKind::NoInputDevice => "no_input_device",
            RecordingErrorKind::Unknown => "unknown",
        }
    }
}

/// The kind of a recording error, of which it is known whether it is a denied
/// permission and whether it is a missing device.
pub fn recording_error_kind(access_denied: bool, no_device: bool) -> (r: RecordingErrorKind)
    ensures
        r == (if access_denied {
            RecordingErrorKind::PermissionDenied
        } else if no_device {
            RecordingErrorKind::NoInputDevice
        } else {
            RecordingErrorKind::Unknown
        }),
{
    if access_denied {
        RecordingErrorKind::PermissionDenied
    } else if no_device {
        RecordingErrorKind::NoInputDevice
    } else {
        RecordingErrorKind::Unknown
    }
}

/// What follows the attempt to record.
#[derive(Debug)]
pub enum StartFollowUp {
    /// Play the start sound after some milliseconds, then mute.
    PlayStartSound { delay_millis: u64 },
    /// Let the user cancel by hotkey.
    RegisterCancelShortcut,
    StopChunkedPreview,
    CancelPreviewStream,
    CancelStream,
    HideOverlay,
    TrayIdle,
    /// Tell the user why nothing is recorded.
    ReportError { kind: RecordingErrorKind, detail: String },
}

/// How long the microphone gets before the start sound is played, in milliseconds.
pub const SOUND_DELAY_MILLIS: u64 = 100;

/// What follows the attempt to record, which may have failed with `error`. The start
/// sound follows a recording that has begun, unless it was played first.
pub fn after_recording_attempt(
    error: Option<String>,
    sound_first: bool,
    access_denied: bool,
    no_device: bool,
) -> (r: Vec<StartFollowUp>)
    ensures
        r@ == (match error {
            None => if sound_first {
                seq![StartFollowUp::RegisterCancelShortcut]
            } else {
                seq![
                    StartFollowUp::PlayStartSound { delay_millis: 100 },
                    StartFollowUp::RegisterCancelShortcut,
                ]
            },
            Some(detail) => seq![
                StartFollowUp::StopChunkedPreview,
                StartFollowUp::CancelPreviewStream,
                StartFollowUp::CancelStream,
                StartFollowUp::HideOverlay,
                StartFollowUp::TrayIdle,
                StartFollowUp::ReportError {
                    kind: if access_denied {
                        RecordingErrorKind::PermissionDenied
                    } else if no_device {
                        RecordingErrorKind::NoInputDevice
                    } else {
                        RecordingErrorKind::Unknown
                    },
                    detail,
                },
            ],
        }),
{
    match error {
        None => if sound_first {
            vec![StartFollowUp::RegisterCancelShortcut]
        } else {
            vec![
                StartFollowUp::PlayStartSound { delay_millis: SOUND_DELAY_MILLIS },
                StartFollowUp::RegisterCancelShortcut,
            ]
        },
        Some(detail) => {
            let kind = recording_error_kind(access_denied, no_device);
            vec![
                StartFollowUp::StopChunkedPreview,
                StartFollowUp::CancelPreviewStream,
                StartFollowUp::CancelStream,
                StartFollowUp::HideOverlay,
                StartFollowUp::TrayIdle,
                StartFollowUp::ReportError { kind, detail },
            ]
        },
    }
}

/// What stopping a dictation does at once.
#[derive(Clone, Copy, Debug, PartialEq, Eq, Structural)]
pub enum OpeningAction {
    UnregisterCancelShortcut,
    StopChunkedPreview,
    CancelPreviewStream,
    /// Capture the destination anew: focus may have moved.
    CaptureContext,
    TrayTranscribing,
    /// Show that the recording is being transcribed.
    ShowTranscribing { streaming: bool },
    RemoveMute,
    PlayStopSound,
}

/// What a stopped dictation waits for.
#[derive(Debug)]
pub enum StopPhase {
    /// The recorded samples.
    AwaitSamples,
    /// The text of the live stream.
    AwaitStream,
    /// The transcription of the samples.
    AwaitBatch,
    /// The recording to be on disk; the transcription, or why it failed, is known.
    AwaitWav { result: Result<String, String> },
    /// The text to paste.
    AwaitOutput { transcription: String, wav_saved: bool },
    /// The main thread, to paste from.
    AwaitMainThread { text: String },
    /// The paste to be done.
    AwaitPaste,
    /// Nothing: it is over.
    Ended,
}

/// A dictation that has been stopped.
#[derive(Debug)]
pub struct StopSession {
    /// Clean up the transcription.
    pub post_process: bool,
    /// Show the work in the large streaming panel.
    pub streaming_overlay: bool,
    pub phase: StopPhase,
}

/// What a stopped dictation learns.
#[derive(Debug)]
pub enum StopEvent {
    /// How many samples were recorded; none where the recording was not running.
    Recorded { samples: Option<usize> },
    /// What the live stream ended with: its text, nothing, or an error.
    StreamFinalized { text: Result<Option<String>, String> },
    /// The transcription of the samples, or why it failed.
    Transcribed { text: Result<String, String> },
    /// Whether the recording is on disk and complete.
    WavSaved { ok: bool },
    /// The text to paste; none where it was cancelled on the way.
    OutputReady { processed: Option<ProcessedTranscription> },
    /// Whether the main thread could be reached.
    OnMainThread { reached: bool },
    /// Whether the paste went through.
    Pasted { ok: bool },
}

/// What a stopped dictation does next.
#[derive(Debug)]
pub enum StopAction {
    CancelStream,
    HideOverlay,
    TrayIdle,
    /// Write the samples to disk, in the background.
    SaveWav,
    FinalizeStream,
    TranscribeSamples,
    /// Wait for the recording to be on disk.
    JoinWav,
    /// Show that the text is being cleaned up.
    ShowPolishing { streaming: bool },
    /// Make the text to paste.
    ProcessOutput { transcription: String, post_process: bool },
    /// Keep the dictation in the history.
    SaveHistory {
        transcription: String,
        post_process: bool,
        post_processed_text: Option<String>,
        post_process_prompt: Option<String>,
    },
    /// Keep the dictation in the history without a text, to be retried.
    SaveForRetry { post_process: bool },
    RunOnMainThread,
    Paste { text: String },
    ReportPasteError,
    ReportTranscriptionError { error: String },
}

/// The end of a dictation: the overlay goes, the tray icon rests.
pub open spec fn wind_down() -> Seq<StopAction> {
    seq![StopAction::HideOverlay, StopAction::TrayIdle]
}

impl StopSession {
    /// The session in another phase.
    pub open spec fn into_phase(self, phase: StopPhase) -> StopSession {
        StopSession { phase, ..self }
    }

    /// The session and what it does after an event, at which the user may have
    /// cancelled. An event that the phase does not wait for changes nothing.
    pub open spec fn after(self, event: StopEvent, cancelled: bool) -> (StopSession, Seq<StopAction>) {
        match (self.phase, event) {
            (StopPhase::AwaitSamples, StopEvent::Recorded { samples }) => match samples {
                Some(n) => if cancelled || n == 0 {
                    (self.into_phase(StopPhase::Ended), seq![StopAction::CancelStream] + wind_down())
                } else {
                    (
                        self.into_phase(StopPhase::AwaitStream),
                        seq![StopAction::SaveWav, StopAction::FinalizeStream],
                    )
                },
                None => (
                    self.into_phase(StopPhase::Ended),
                    seq![StopAction::CancelStream] + wind_down(),
                ),
            },
            (StopPhase::AwaitStream, StopEvent::StreamFinalized { text }) => match text {
                Ok(Some(t)) => if text::blank(t@) {
                    (self.into_phase(StopPhase::AwaitBatch), seq![StopAction::TranscribeSamples])
                } else {
                    (
                        self.into_phase(StopPhase::AwaitWav { result: Ok(t) }),
                        seq![StopAction::JoinWav],
                    )
                },
                Ok(None) => (
                    self.into_phase(StopPhase::AwaitBatch),
                    seq![StopAction::TranscribeSamples],
                ),
                Err(e) => (
                    self.into_phase(StopPhase::AwaitWav { result: Err(e) }),
                    seq![StopAction::JoinWav],
                ),
            },
            (StopPhase::AwaitBatch, StopEvent::Transcribed { text }) => (
                self.into_phase(StopPhase::AwaitWav { result: text }),
                seq![StopAction::JoinWav],
            ),
            (StopPhase::AwaitWav { result }, StopEvent::WavSaved { ok }) => if cancelled {
                (self.into_phase(StopPhase::Ended), wind_down())
            } else {
                match result {
                    Ok(t) => (
                        self.into_phase(
                            StopPhase::AwaitOutput { transcription: t, wav_saved: ok },
                        ),
                        (if self.post_process {
                            seq![StopAction::ShowPolishing { streaming: self.streaming_overlay }]
                        } else {
                            Seq::empty()
                        }) + seq![
                            StopAction::ProcessOutput {
                                transcription: t,
                                post_process: self.post_process,
                            },
                        ],
                    ),
                    Err(e) => (
                        self.into_phase(StopPhase::Ended),
                        seq![StopAction::ReportTranscriptionError { error: e }] + (if ok {
                            seq![StopAction::SaveForRetry { post_process: self.post_process }]
                        } else {
                            Seq::empty()
                        }) + wind_down(),
                    ),
                }
            },
            (
                StopPhase::AwaitOutput { transcription, wav_saved },
                StopEvent::OutputReady { processed },
            ) => match processed {
                Some(p) => if cancelled {
                    (self.into_phase(StopPhase::Ended), wind_down())
                } else {
                    let saved = if wav_saved {
                        seq![
                            StopAction::SaveHistory {
                                transcription,
                                post_process: self.post_process,
                                post_processed_text: p.post_processed_text,
                                post_process_prompt: p.post_process_prompt,
                            },
                        ]
                    } else {
                        Seq::empty()
                    };
                    if p.final_text@.len() == 0 {
                        (self.into_phase(StopPhase::Ended), saved + wind_down())
                    } else {
                        (
                            self.into_phase(StopPhase::AwaitMainThread { text: p.final_text }),
                            saved + seq![StopAction::RunOnMainThread],
                        )
                    }
                },
                None => (self.into_phase(StopPhase::Ended), wind_down()),
            },
            (StopPhase::AwaitMainThread { text }, StopEvent::OnMainThread { reached }) => if !reached
                || cancelled {
                (self.into_phase(StopPhase::Ended), wind_down())
            } else {
                (self.into_phase(StopPhase::AwaitPaste), seq![StopAction::Paste { text }])
            },
            (StopPhase::AwaitPaste, StopEvent::Pasted { ok }) => (
                self.into_phase(StopPhase::Ended),
                (if ok {
                    Seq::empty()
                } else {
                    seq![StopAction::ReportPasteError]
                }) + wind_down(),
            ),
            _ => (self, Seq::empty()),
        }
    }

    /// A dictation that is being stopped. `stream_active` says whether a live
    /// stream runs, `preview_was_active` whether a preview did.
    pub fn begin(
        settings: &AppSettings,
        post_process: bool,
        stream_active: bool,
        preview_was_active: bool,
    ) -> (r: StopSession)
        ensures
            r.post_process == (post_process || settings.always_post_process),
            r.streaming_overlay == (settings.overlay_style == OverlayStyle::Live && (stream_active
                || preview_was_active)),
            r.phase == StopPhase::AwaitSamples,
    {
        StopSession {
            post_process: wants_post_process(post_process, settings),
            streaming_overlay: preview::should_use_streaming_overlay(
                settings.overlay_style,
                stream_active || preview_was_active,
            ),
            phase: StopPhase::AwaitSamples,
        }
    }

    /// What stopping does at once, before the samples are asked for.
    pub open spec fn opening_actions(self) -> Seq<OpeningAction> {
        seq![
            OpeningAction::UnregisterCancelShortcut,
            OpeningAction::StopChunkedPreview,
            OpeningAction::CancelPreviewStream,
        ] + (if self.post_process {
            seq![OpeningAction::CaptureContext]
        } else {
            Seq::empty()
        }) + seq![
            OpeningAction::TrayTranscribing,
            OpeningAction::ShowTranscribing { streaming: self.streaming_overlay },
            OpeningAction::RemoveMute,
            OpeningAction::PlayStopSound,
        ]
    }

    /// What stopping does at once, before the samples are asked for.
    pub fn opening(&self) -> (r: Vec<OpeningAction>)
        ensures
            r@ == self.opening_actions(),
    {
        let mut actions = vec![
            OpeningAction::UnregisterCancelShortcut,
            OpeningAction::StopChunkedPreview,
            OpeningAction::CancelPreviewStream,
        ];
        if self.post_process {
            actions.push(OpeningAction::CaptureContext);
        }
        actions.push(OpeningAction::TrayTranscribing);
        actions.push(OpeningAction::ShowTranscribing { streaming: self.streaming_overlay });
        actions.push(OpeningAction::RemoveMute);
        actions.push(OpeningAction::PlayStopSound);
        assert(actions@ =~= self.opening_actions());
        actions
    }

    /// Takes an event, at which the user may have cancelled, and says what to do.
    pub fn step(self, event: StopEvent, cancelled: bool) -> (r: (StopSession, Vec<StopAction>))
        ensures
            r.0 == self.after(event, cancelled).0,
            r.1@ == self.after(event, cancelled).1,
    {
        let post_process = self.post_process;
        let streaming_overlay = self.streaming_overlay;
        let mut actions: Vec<StopAction> = Vec::new();
        let phase = match (self.phase, event) {
            (StopPhase::AwaitSamples, StopEvent::Recorded { samples }) => {
                let count: usize = match samples {
                    Some(n) => n,
                    None => 0,
                };
                if cancelled || count == 0 {
                    actions.push(StopAction::CancelStream);
                    actions.push(StopAction::HideOverlay);
                    actions.push(StopAction::TrayIdle);
                    StopPhase::Ended
                } else {
                    actions.push(StopAction::SaveWav);
                    actions.push(StopAction::FinalizeStream);
                    StopPhase::AwaitStream
                }
            },
            (StopPhase::AwaitStream, StopEvent::StreamFinalized { text }) => match text {
                Ok(Some(t)) => if text::is_blank(t.as_str()) {
                    actions.push(StopAction::TranscribeSamples);
                    StopPhase::AwaitBatch
                } else {
                    actions.push(StopAction::JoinWav);
                    StopPhase::AwaitWav { result: Ok(t) }
                },
                Ok(None) => {
                    actions.push(StopAction::TranscribeSamples);
                    StopPhase::AwaitBatch
                },
                Err(e) => {
                    actions.push(StopAction::JoinWav);
                    StopPhase::AwaitWav { result: Err(e) }
                },
            },
            (StopPhase::AwaitBatch, StopEvent::Transcribed { text }) => {
                actions.push(StopAction::JoinWav);
                StopPhase::AwaitWav { result: text }
            },
            (StopPhase::AwaitWav { result }, StopEvent::WavSaved { ok }) => {
                if cancelled {
                    actions.push(StopAction::HideOverlay);
                    actions.push(StopAction::TrayIdle);
                    StopPhase::Ended
                } else {
                    match result {
                        Ok(t) => {
                            if post_process {
                                actions.push(
                                    StopAction::ShowPolishing { streaming: streaming_overlay },
                                );
                            }
                            actions.push(
                                StopAction::ProcessOutput {
                                    transcription: t.clone(),
                                    post_process,
                                },
                            );
                            StopPhase::AwaitOutput { transcription: t, wav_saved: ok }
                        },
                        Err(e) => {
                            actions.push(StopAction::ReportTranscriptionError { error: e });
                            if ok {
                                actions.push(StopAction::SaveForRetry { post_process });
                            }
                            actions.push(StopAction::HideOverlay);
                            actions.push(StopAction::TrayIdle);
                            StopPhase::Ended
                        },
                    }
                }
            },
            (
                StopPhase::AwaitOutput { transcription, wav_saved },
                StopEvent::OutputReady { processed },
            ) => match processed {
                Some(p) => if cancelled {
                    actions.push(StopAction::HideOverlay);
                    actions.push(StopAction::TrayIdle);
                    StopPhase::Ended
                } else {
                    if wav_saved {
                        actions.push(
                            StopAction::SaveHistory {
                                transcription,
                                post_process,
                                post_processed_text: p.post_processed_text,
                                post_process_prompt: p.post_process_prompt,
                            },
                        );
                    }
                    if p.final_text.as_str().is_empty() {
                        actions.push(StopAction::HideOverlay);
                        actions.push(StopAction::TrayIdle);
                        StopPhase::Ended
                    } else {
                        actions.push(StopAction::RunOnMainThread);
                        StopPhase::AwaitMainThread { text: p.final_text }
                    }
                },
                None => {
                    actions.push(StopAction::HideOverlay);
                    actions.push(StopAction::TrayIdle);
                    StopPhase::Ended
                },
            },
            (StopPhase::AwaitMainThread { text }, StopEvent::OnMainThread { reached }) => {
                if !reached || cancelled {
                    actions.push(StopAction::HideOverlay);
                    actions.push(StopAction::TrayIdle);
                    StopPhase::Ended
                } else {
                    actions.push(StopAction::Paste { text });
                    StopPhase::AwaitPaste
                }
            },
            (StopPhase::AwaitPaste, StopEvent::Pasted { ok }) => {
                if !ok {
                    actions.push(StopAction::ReportPasteError);
                }
                actions.push(StopAction::HideOverlay);
                actions.push(StopAction::TrayIdle);
                StopPhase::Ended
            },
            (phase, _) => phase,
        };
        assert(actions@ =~= self.after(event, cancelled).1);
        (StopSession { post_process, streaming_overlay, phase }, actions)
    }
}

/// Whether an action changes something that outlasts the dictation: the
/// destination, the history, or what the user is told.
pub open spec fn leaves_trace(action: StopAction) -> bool {
    ||| action is Paste
    ||| action is SaveHistory
    ||| action is SaveForRetry
    ||| action is ReportTranscriptionError
}

/// Whether some action leaves a trace.
pub open spec fn any_trace(actions: Seq<StopAction>) -> bool {
    exists|i: int| 0 <= i < actions.len() && leaves_trace(#[trigger] actions[i])
}

/// Whether some action writes to the history.
pub open spec fn any_history(actions: Seq<StopAction>) -> bool {
    exists|i: int|
        0 <= i < actions.len() && ((#[trigger] actions[i]) is SaveHistory
            || actions[i] is SaveForRetry)
}

/// How many of the actions paste.
pub open spec fn pastes(actions: Seq<StopAction>) -> nat
    decreases actions.len(),
{
    if actions.len() == 0 {
        0
    } else {
        pastes(actions.drop_last()) + (if actions.last() is Paste {
            1nat
        } else {
            0nat
        })
    }
}

impl StopSession {
    /// The session after a list of events, each with whether the user had
    /// cancelled by then, and everything it did on the way.
    pub open spec fn run(self, inputs: Seq<(StopEvent, bool)>) -> (StopSession, Seq<StopAction>)
        decreases inputs.len(),
    {
        if inputs.len() == 0 {
            (self, Seq::empty())
        } else {
            let (next, done) = self.after(inputs[0].0, inputs[0].1);
            let (last, more) = next.run(inputs.drop_first());
            (last, done + more)
        }
    }

    /// Whether the session may still paste.
    pub open spec fn before_paste(self) -> bool {
        !(self.phase is AwaitPaste) && !(self.phase is Ended)
    }

    /// What holds of every session that began with `begin`: the text that it is
    /// about to paste is not empty.
    pub open spec fn wf(self) -> bool {
        self.phase matches StopPhase::AwaitMainThread { text } ==> text@.len() > 0
    }
}

/// Once the user has cancelled, a stopped dictation pastes nothing, writes nothing
/// to the history and reports no failed transcription.
pub proof fn law_cancelled_dictations_leave_no_trace(
    session: StopSession,
    inputs: Seq<(StopEvent, bool)>,
)
    requires
        forall|i: int| 0 <= i < inputs.len() ==> (#[trigger] inputs[i]).1,
    ensures
        !any_trace(session.run(inputs).1),
    decreases inputs.len(),
{
    if inputs.len() > 0 {
        let (next, done) = session.after(inputs[0].0, inputs[0].1);
        let rest = inputs.drop_first();
        assert forall|i: int| 0 <= i < rest.len() implies (#[trigger] rest[i]).1 by {
            assert(rest[i] == inputs[i + 1]);
        }
        law_cancelled_dictations_leave_no_trace(next, rest);
        let more = next.run(rest).1;
        assert forall|i: int| 0 <= i < (done + more).len() implies !leaves_trace(
            #[trigger] (done + more)[i],
        ) by {
            if i >= done.len() {
                assert((done + more)[i] == more[i - done.len()]);
            }
        }
    }
}

/// However a dictation ends, the last things it does are to hide the overlay and
/// to let the tray icon rest; and it ends nowhere else.
pub proof fn law_every_end_winds_down(session: StopSession, event: StopEvent, cancelled: bool)
    ensures
        ({
            let (next, done) = session.after(event, cancelled);
            &&& !(session.phase is Ended) && next.phase is Ended ==> done.len() >= 2 && done.skip(
                done.len() - 2,
            ) == wind_down()
            &&& next.phase !is Ended ==> forall|i: int|
                0 <= i < done.len() ==> (#[trigger] done[i]) !is HideOverlay && done[i] !is TrayIdle
        }),
{
    let (next, done) = session.after(event, cancelled);
    if !(session.phase is Ended) && next.phase is Ended {
        assert(done.skip(done.len() - 2) =~= wind_down());
    }
}

/// A dictation that has ended does nothing more.
pub proof fn law_ended_dictations_rest(session: StopSession, inputs: Seq<(StopEvent, bool)>)
    requires
        session.phase is Ended,
    ensures
        session.run(inputs) == (session, Seq::<StopAction>::empty()),
    decreases inputs.len(),
{
    if inputs.len() > 0 {
        law_ended_dictations_rest(session, inputs.drop_first());
        assert(Seq::<StopAction>::empty() + Seq::<StopAction>::empty() =~= Seq::<
            StopAction,
        >::empty());
    }
}

proof fn lemma_pastes_add(a: Seq<StopAction>, b: Seq<StopAction>)
    ensures
        pastes(a + b) == pastes(a) + pastes(b),
    decreases b.len(),
{
    if b.len() == 0 {
        assert(a + b =~= a);
    } else {
        lemma_pastes_add(a, b.drop_last());
        assert((a + b).drop_last() =~= a + b.drop_last());
    }
}

proof fn lemma_step_pastes(session: StopSession, event: StopEvent, cancelled: bool)
    ensures
        ({
            let (next, done) = session.after(event, cancelled);
            &&& pastes(done) <= 1
            &&& pastes(done) == 1 ==> session.before_paste() && !next.before_paste()
            &&& next.before_paste() ==> session.before_paste()
        }),
{
    reveal_with_fuel(pastes, 5);
    let done = session.after(event, cancelled).1;
    assert(done.len() <= 4);
    if done.len() > 0 {
        assert(done.drop_last().len() == done.len() - 1);
    }
}

/// A dictation pastes at most once.
pub proof fn law_at_most_one_paste(session: StopSession, inputs: Seq<(StopEvent, bool)>)
    ensures
        pastes(session.run(inputs).1) <= 1,
        !session.before_paste() ==> pastes(session.run(inputs).1) == 0,
    decreases inputs.len(),
{
    if inputs.len() > 0 {
        let (next, done) = session.after(inputs[0].0, inputs[0].1);
        law_at_most_one_paste(next, inputs.drop_first());
        lemma_step_pastes(session, inputs[0].0, inputs[0].1);
        lemma_pastes_add(done, next.run(inputs.drop_first()).1);
    }
}

/// What is pasted is never empty.
pub proof fn law_pasted_text_is_not_empty(session: StopSession, inputs: Seq<(StopEvent, bool)>)
    requires
        session.wf(),
    ensures
        session.run(inputs).0.wf(),
        forall|i: int|
            0 <= i < session.run(inputs).1.len() && (#[trigger] session.run(inputs).1[i]) is Paste
                ==> session.run(inputs).1[i]->Paste_text@.len() > 0,
    decreases inputs.len(),
{
    if inputs.len() > 0 {
        let (next, done) = session.after(inputs[0].0, inputs[0].1);
        law_pasted_text_is_not_empty(next, inputs.drop_first());
        let more = next.run(inputs.drop_first()).1;
        assert forall|i: int|
            0 <= i < (done + more).len() && (#[trigger] (done + more)[i]) is Paste implies (done
            + more)[i]->Paste_text@.len() > 0 by {
            if i >= done.len() {
                assert((done + more)[i] == more[i - done.len()]);
            }
        }
    }
}

/// Nothing is written to the history unless the recording is on disk.
pub proof fn law_history_needs_the_recording(session: StopSession, inputs: Seq<(StopEvent, bool)>)
    requires
        !(session.phase is AwaitOutput && session.phase->wav_saved),
        forall|i: int|
            0 <= i < inputs.len() ==> (#[trigger] inputs[i]).0 != (StopEvent::WavSaved {
                ok: true,
            }),
    ensures
        !any_history(session.run(inputs).1),
    decreases inputs.len(),
{
    if inputs.len() > 0 {
        let (next, done) = session.after(inputs[0].0, inputs[0].1);
        let rest = inputs.drop_first();
        assert forall|i: int| 0 <= i < rest.len() implies (#[trigger] rest[i]).0 != (
        StopEvent::WavSaved { ok: true }) by {
            assert(rest[i] == inputs[i + 1]);
        }
        assert(inputs[0].0 != (StopEvent::WavSaved { ok: true }));
        law_history_needs_the_recording(next, rest);
        let more = next.run(rest).1;
        assert forall|i: int| 0 <= i < (done + more).len() implies (#[trigger] (done + more)[i])
            !is SaveHistory && (done + more)[i] !is SaveForRetry by {
            if i >= done.len() {
                assert((done + more)[i] == more[i - done.len()]);
            }
        }
    }
}

/// Whether the selected model gave a text, by its live stream or from the samples.
pub open spec fn heard(inputs: Seq<(StopEvent, bool)>, text: String) -> bool {
    exists|i: int|
        0 <= i < inputs.len() && ((#[trigger] inputs[i]).0 == (StopEvent::StreamFinalized {
            text: Ok(Some(text)),
        }) || inputs[i].0 == (StopEvent::Transcribed { text: Ok(text) }))
}

/// Whether a text is what an output was made to be.
pub open spec fn made(inputs: Seq<(StopEvent, bool)>, text: String) -> bool {
    exists|i: int|
        0 <= i < inputs.len() && (#[trigger] inputs[i]).0 is OutputReady && (
        inputs[i].0->processed matches Some(p) && p.final_text == text)
}

/// Whether a session carries only texts that it was given.
spec fn carries(session: StopSession, past: Seq<(StopEvent, bool)>) -> bool {
    &&& session.phase matches StopPhase::AwaitWav { result: Ok(t) } ==> heard(past, t)
    &&& session.phase matches StopPhase::AwaitMainThread { text } ==> made(past, text)
}

/// Whether an action uses only texts that were given.
pub open spec fn uses_given(action: StopAction, inputs: Seq<(StopEvent, bool)>) -> bool {
    match action {
        StopAction::ProcessOutput { transcription, .. } => heard(inputs, transcription),
        StopAction::Paste { text } => made(inputs, text),
        _ => true,
    }
}

proof fn lemma_given_before(
    past: Seq<(StopEvent, bool)>,
    more: Seq<(StopEvent, bool)>,
    text: String,
)
    ensures
        heard(past, text) ==> heard(past + more, text),
        made(past, text) ==> made(past + more, text),
{
    let all = past + more;
    if heard(past, text) {
        let i = choose|i: int|
            0 <= i < past.len() && ((#[trigger] past[i]).0 == (StopEvent::StreamFinalized {
                text: Ok(Some(text)),
            }) || past[i].0 == (StopEvent::Transcribed { text: Ok(text) }));
        assert(all[i] == past[i]);
    }
    if made(past, text) {
        let i = choose|i: int|
            0 <= i < past.len() && (#[trigger] past[i]).0 is OutputReady && (
            past[i].0->processed matches Some(p) && p.final_text == text);
        assert(all[i] == past[i]);
    }
}

proof fn lemma_step_uses_given(
    session: StopSession,
    past: Seq<(StopEvent, bool)>,
    event: StopEvent,
    cancelled: bool,
)
    requires
        carries(session, past),
    ensures
        ({
            let now = past + seq![(event, cancelled)];
            let (next, done) = session.after(event, cancelled);
            &&& carries(next, now)
            &&& forall|i: int| 0 <= i < done.len() ==> uses_given(#[trigger] done[i], now)
        }),
{
    let now = past + seq![(event, cancelled)];
    let (next, done) = session.after(event, cancelled);
    assert(now[past.len() as int] == (event, cancelled));
    match session.phase {
        StopPhase::AwaitWav { result: Ok(t) } => {
            lemma_given_before(past, seq![(event, cancelled)], t);
        },
        StopPhase::AwaitMainThread { text } => {
            lemma_given_before(past, seq![(event, cancelled)], text);
        },
        _ => {},
    }
}

proof fn lemma_run_uses_given(
    session: StopSession,
    past: Seq<(StopEvent, bool)>,
    inputs: Seq<(StopEvent, bool)>,
)
    requires
        carries(session, past),
    ensures
        forall|i: int|
            0 <= i < session.run(inputs).1.len() ==> uses_given(
                #[trigger] session.run(inputs).1[i],
                past + inputs,
            ),
    decreases inputs.len(),
{
    if inputs.len() > 0 {
        let (event, cancelled) = inputs[0];
        let now = past + seq![(event, cancelled)];
        let rest = inputs.drop_first();
        let all = past + inputs;
        assert(now + rest =~= all);
        let (next, done) = session.after(event, cancelled);
        lemma_step_uses_given(session, past, event, cancelled);
        lemma_run_uses_given(next, now, rest);
        let more = next.run(rest).1;
        assert forall|i: int| 0 <= i < (done + more).len() implies uses_given(
            #[trigger] (done + more)[i],
            all,
        ) by {
            if i < done.len() {
                assert(uses_given(done[i], now));
                match done[i] {
                    StopAction::ProcessOutput { transcription, .. } => {
                        lemma_given_before(now, rest, transcription);
                    },
                    StopAction::Paste { text } => {
                        lemma_given_before(now, rest, text);
                    },
                    _ => {},
                }
            } else {
                assert((done + more)[i] == more[i - done.len()]);
            }
        }
    }
}

/// What a dictation makes its output from is what the selected model transcribed,
/// and what it pastes is that output: no other text, such as that of the preview,
/// gets there.
pub proof fn law_only_the_transcription_is_pasted(
    session: StopSession,
    inputs: Seq<(StopEvent, bool)>,
)
    requires
        session.phase == StopPhase::AwaitSamples,
    ensures
        forall|i: int|
            0 <= i < session.run(inputs).1.len() ==> uses_given(
                #[trigger] session.run(inputs).1[i],
                inputs,
            ),
{
    let nothing = Seq::<(StopEvent, bool)>::empty();
    lemma_run_uses_given(session, nothing, inputs);
    assert(nothing + inputs =~= inputs);
}

/// How long an operation is waited for before it is asked again whether it was
/// cancelled, in milliseconds.
pub const CANCELLATION_POLL_MILLIS: u64 = 25;

/// What is learned while waiting for an operation.
pub enum PollEvent<T> {
    /// Whether the operation was cancelled.
    Checked { cancelled: bool },
    /// The operation is done.
    Completed { output: T },
    /// The operation is not done yet.
    TimedOut,
}

/// What to do next while waiting for an operation.
pub enum PollAction<T> {
    /// Ask whether the operation was cancelled.
    Check,
    /// Wait for the operation for so many milliseconds.
    Wait { millis: u64 },
    /// Stop waiting; there is no output where the operation was cancelled.
    Finish { output: Option<T> },
}

/// What follows an event while waiting for an operation. The wait starts with a
/// check.
pub open spec fn poll_next<T>(event: PollEvent<T>) -> PollAction<T> {
    match event {
        PollEvent::Checked { cancelled } => if cancelled {
            PollAction::Finish { output: None }
        } else {
            PollAction::Wait { millis: CANCELLATION_POLL_MILLIS }
        },
        PollEvent::Completed { output } => PollAction::Finish { output: Some(output) },
        PollEvent::TimedOut => PollAction::Check,
    }
}

/// Waits for an operation unless it is cancelled: says what follows an event. The
/// wait starts with a check.
pub fn complete_unless_cancelled<T>(event: PollEvent<T>) -> (r: PollAction<T>)
    ensures
        r == poll_next(event),
{
    match event {
        PollEvent::Checked { cancelled } => if cancelled {
            PollAction::Finish { output: None }
        } else {
            PollAction::Wait { millis: CANCELLATION_POLL_MILLIS }
        },
        PollEvent::Completed { output } => PollAction::Finish { output: Some(output) },
        PollEvent::TimedOut => PollAction::Check,
    }
}

/// What waiting for an operation comes to, given for each round whether it was
/// found cancelled and what the wait then brought: nothing while it goes on.
pub open spec fn poll_result<T>(rounds: Seq<(bool, Option<T>)>) -> Option<Option<T>>
    decreases rounds.len(),
{
    if rounds.len() == 0 {
        None
    } else {
        let (cancelled, waited) = rounds[0];
        match poll_next::<T>(PollEvent::Checked { cancelled }) {
            PollAction::Finish { output } => Some(output),
            _ => {
                let event = match waited {
                    Some(output) => PollEvent::Completed { output },
                    None => PollEvent::TimedOut,
                };
                match poll_next(event) {
                    PollAction::Finish { output } => Some(output),
                    _ => poll_result(rounds.drop_first()),
                }
            },
        }
    }
}

/// Waiting goes on through rounds in which nothing happens, ends without an output
/// at the first that finds the operation cancelled, and else with the output of
/// the first in which it is done.
pub proof fn law_waiting_ends_with_the_first_news<T>(rounds: Seq<(bool, Option<T>)>, n: int)
    requires
        0 <= n < rounds.len(),
        forall|i: int|
            0 <= i < n ==> !(#[trigger] rounds[i]).0 && rounds[i].1 is None,
    ensures
        poll_result(rounds.take(n)) is None,
        rounds[n].0 ==> poll_result(rounds) == Some(None::<T>),
        !rounds[n].0 && rounds[n].1 is Some ==> poll_result(rounds) == Some(rounds[n].1),
    decreases n,
{
    if n > 0 {
        let rest = rounds.drop_first();
        assert forall|i: int| 0 <= i < n - 1 implies !(#[trigger] rest[i]).0 && rest[i].1 is None by {
            assert(rest[i] == rounds[i + 1]);
        }
        assert(rest[n - 1] == rounds[n]);
        assert(!rounds[0].0 && rounds[0].1 is None);
        law_waiting_ends_with_the_first_news(rest, n - 1);
        assert(rounds.take(n)[0] == rounds[0]);
        assert(rounds.take(n).drop_first() =~= rest.take(n - 1));
    }
}

/// The decimal digits of a number.
pub open spec fn digits(n: nat) -> Seq<char>
    decreases n,
{
    let last = ('0' as nat + n % 10) as char;
    if n < 10 {
        seq![last]
    } else {
        digits(n / 10).push(last)
    }
}

/// A number in decimal notation.
pub open spec fn decimal_text(n: int) -> Seq<char> {
    if n < 0 {
        seq!['-'] + digits((-n) as nat)
    } else {
        digits(n as nat)
    }
}

fn digit_chars(n: u64) -> (r: Vec<char>)
    ensures
        r@ == digits(n as nat),
    decreases n,
{
    let last = (48u8 + (n % 10) as u8) as char;
    if n < 10 {
        let mut out: Vec<char> = Vec::new();
        out.push(last);
        assert(out@ =~= digits(n as nat));
        out
    } else {
        let mut out = digit_chars(n / 10);
        out.push(last);
        out
    }
}

/// The name of the file that a recording is kept in, given when it was made, in
/// seconds of Unix time.
pub fn recording_file_name(timestamp: i64) -> (r: String)
    ensures
        r@ == "handy-"@ + decimal_text(timestamp as int) + ".wav"@,
{
    let mut name = "handy-".to_string();
    let size: u64 = if timestamp >= 0 {
        timestamp as u64
    } else {
        name.push('-');
        (-(timestamp + 1)) as u64 + 1
    };
    let chars = digit_chars(size);
    name.append(text::string_of(chars.as_slice()).as_str());
    name.append(".wav");
    assert(name@ =~= "handy-"@ + decimal_text(timestamp as int) + ".wav"@);
    name
}

proof fn lemma_digits_apart(a: nat, b: nat)
    requires
        digits(a) == digits(b),
    ensures
        a == b,
    decreases a,
{
    assert(digits(a).last() == ('0' as nat + a % 10) as char);
    assert(digits(b).last() == ('0' as nat + b % 10) as char);
    assert(a % 10 == b % 10);
    if a >= 10 && b >= 10 {
        assert(digits(a).drop_last() =~= digits(a / 10));
        assert(digits(b).drop_last() =~= digits(b / 10));
        lemma_digits_apart(a / 10, b / 10);
    } else if a >= 10 {
        lemma_digits_some(a / 10);
    } else if b >= 10 {
        lemma_digits_some(b / 10);
    }
}

proof fn lemma_digits_some(n: nat)
    ensures
        digits(n).len() > 0,
        digits(n)[0] != '-',
    decreases n,
{
    if n >= 10 {
        lemma_digits_some(n / 10);
    }
}

/// Recordings made at different times are kept in different files.
pub proof fn law_recordings_have_their_own_files(a: int, b: int)
    requires
        a != b,
    ensures
        "handy-"@ + decimal_text(a) + ".wav"@ != "handy-"@ + decimal_text(b) + ".wav"@,
{
    let head = "handy-"@;
    let tail = ".wav"@;
    let x = head + decimal_text(a) + tail;
    let y = head + decimal_text(b) + tail;
    if x == y {
        assert(x.subrange(head.len() as int, x.len() - tail.len()) =~= decimal_text(a));
        assert(y.subrange(head.len() as int, y.len() - tail.len()) =~= decimal_text(b));
        if a < 0 {
            assert(decimal_text(a).drop_first() =~= digits((-a) as nat));
        } else {
            lemma_digits_some(a as nat);
        }
        if b < 0 {
            assert(decimal_text(b).drop_first() =~= digits((-b) as nat));
        } else {
            lemma_digits_some(b as nat);
        }
        if a < 0 && b < 0 {
            lemma_digits_apart((-a) as nat, (-b) as nat);
        } else if a >= 0 && b >= 0 {
            lemma_digits_apart(a as nat, b as nat);
        }
    }
}

/// The flags of a session reach everything that it does: whether the transcription is
/// cleaned up, shown as being polished, and kept as cleaned up, is decided by the flag
/// that `begin` set, and by nothing that comes later.
pub proof fn law_the_wish_to_clean_up_is_kept(session: StopSession, inputs: Seq<(StopEvent, bool)>)
    ensures
        session.run(inputs).0.post_process == session.post_process,
        session.run(inputs).0.streaming_overlay == session.streaming_overlay,
        forall|i: int|
            0 <= i < session.run(inputs).1.len() ==> match #[trigger] session.run(inputs).1[i] {
                StopAction::ProcessOutput { post_process, .. } => post_process
                    == session.post_process,
                StopAction::SaveHistory { post_process, .. } => post_process
                    == session.post_process,
                StopAction::SaveForRetry { post_process } => post_process == session.post_process,
                StopAction::ShowPolishing { streaming } => session.post_process && streaming
                    == session.streaming_overlay,
                _ => true,
            },
    decreases inputs.len(),
{
    if inputs.len() > 0 {
        let (next, done) = session.after(inputs[0].0, inputs[0].1);
        let rest = inputs.drop_first();
        law_the_wish_to_clean_up_is_kept(next, rest);
        let more = next.run(rest).1;
        assert forall|i: int| 0 <= i < (done + more).len() implies match #[trigger] (done
            + more)[i] {
            StopAction::ProcessOutput { post_process, .. } => post_process == session.post_process,
            StopAction::SaveHistory { post_process, .. } => post_process == session.post_process,
            StopAction::SaveForRetry { post_process } => post_process == session.post_process,
            StopAction::ShowPolishing { streaming } => session.post_process && streaming
                == session.streaming_overlay,
            _ => true,
        } by {
            if i >= done.len() {
                assert((done + more)[i] == more[i - done.len()]);
            }
        }
    }
}

/// The course of a dictation that is not cancelled and whose live stream gave no usable
/// text: the samples are transcribed, the transcription is made into the output with or
/// without cleanup as the session was begun, it is kept in the history where the
/// recording was saved, and the output is pasted.
pub proof fn law_a_dictation_is_transcribed_kept_and_pasted(
    session: StopSession,
    samples: usize,
    stream: Option<String>,
    transcription: String,
    saved: bool,
    processed: ProcessedTranscription,
    pasted: bool,
    unasked: bool,
)
    requires
        session.phase == StopPhase::AwaitSamples,
        samples > 0,
        stream matches Some(s) ==> text::blank(s@),
        processed.final_text@.len() > 0,
    ensures
        ({
            let (s1, a1) = session.after(StopEvent::Recorded { samples: Some(samples) }, false);
            let (s2, a2) = s1.after(StopEvent::StreamFinalized { text: Ok(stream) }, unasked);
            let (s3, a3) = s2.after(StopEvent::Transcribed { text: Ok(transcription) }, unasked);
            let (s4, a4) = s3.after(StopEvent::WavSaved { ok: saved }, false);
            let (s5, a5) = s4.after(StopEvent::OutputReady { processed: Some(processed) }, false);
            let (s6, a6) = s5.after(StopEvent::OnMainThread { reached: true }, false);
            let (s7, a7) = s6.after(StopEvent::Pasted { ok: pasted }, unasked);
            &&& a1 == seq![StopAction::SaveWav, StopAction::FinalizeStream]
            &&& a2 == seq![StopAction::TranscribeSamples]
            &&& a3 == seq![StopAction::JoinWav]
            &&& session.post_process ==> a4 == seq![
                StopAction::ShowPolishing { streaming: session.streaming_overlay },
                StopAction::ProcessOutput { transcription, post_process: true },
            ]
            &&& !session.post_process ==> a4 == seq![
                StopAction::ProcessOutput { transcription, post_process: false },
            ]
            &&& saved ==> a5 == seq![
                StopAction::SaveHistory {
                    transcription,
                    post_process: session.post_process,
                    post_processed_text: processed.post_processed_text,
                    post_process_prompt: processed.post_process_prompt,
                },
                StopAction::RunOnMainThread,
            ]
            &&& !saved ==> a5 == seq![StopAction::RunOnMainThread]
            &&& a6 == seq![StopAction::Paste { text: processed.final_text }]
            &&& pasted ==> a7 == seq![StopAction::HideOverlay, StopAction::TrayIdle]
            &&& !pasted ==> a7 == seq![
                StopAction::ReportPasteError,
                StopAction::HideOverlay,
                StopAction::TrayIdle,
            ]
            &&& s7.phase == StopPhase::Ended
        }),
{
}

/// A live stream that ended with a text that is not blank is the transcription: the
/// samples are not transcribed again, and the rest takes its course as with samples.
pub proof fn law_the_text_of_a_live_stream_is_used(
    session: StopSession,
    samples: usize,
    stream: String,
    unasked: bool,
)
    requires
        session.phase == StopPhase::AwaitSamples,
        samples > 0,
        !text::blank(stream@),
    ensures
        ({
            let (s1, a1) = session.after(StopEvent::Recorded { samples: Some(samples) }, false);
            let (live, a2) = s1.after(StopEvent::StreamFinalized { text: Ok(Some(stream)) }, unasked);
            let (s2, _) = s1.after(StopEvent::StreamFinalized { text: Ok(None) }, unasked);
            let (batch, _) = s2.after(StopEvent::Transcribed { text: Ok(stream) }, unasked);
            a2 == seq![StopAction::JoinWav] && live == batch
        }),
{
}

/// A transcription that failed, in the live stream or from the samples, is reported with
/// its error; the dictation is kept for a retry where the recording was saved, and
/// nothing is pasted.
pub proof fn law_failed_transcriptions_are_reported(
    session: StopSession,
    samples: usize,
    error: String,
    saved: bool,
    in_stream: bool,
    unasked: bool,
)
    requires
        session.phase == StopPhase::AwaitSamples,
        samples > 0,
    ensures
        ({
            let (s1, _) = session.after(StopEvent::Recorded { samples: Some(samples) }, false);
            let (s2, _) = s1.after(
                StopEvent::StreamFinalized {
                    text: if in_stream {
                        Err(error)
                    } else {
                        Ok(None)
                    },
                },
                unasked,
            );
            let s3 = if in_stream {
                s2
            } else {
                s2.after(StopEvent::Transcribed { text: Err(error) }, unasked).0
            };
            let (s4, a4) = s3.after(StopEvent::WavSaved { ok: saved }, false);
            &&& s4.phase == StopPhase::Ended
            &&& saved ==> a4 == seq![
                StopAction::ReportTranscriptionError { error },
                StopAction::SaveForRetry { post_process: session.post_process },
                StopAction::HideOverlay,
                StopAction::TrayIdle,
            ]
            &&& !saved ==> a4 == seq![
                StopAction::ReportTranscriptionError { error },
                StopAction::HideOverlay,
                StopAction::TrayIdle,
            ]
        }),
{
}

/// An empty output is kept in the history where the recording was saved, and is not
/// pasted.
pub proof fn law_empty_output_is_kept_but_not_pasted(
    session: StopSession,
    transcription: String,
    saved: bool,
    processed: ProcessedTranscription,
)
    requires
        session.phase == (StopPhase::AwaitOutput { transcription, wav_saved: saved }),
        processed.final_text@.len() == 0,
    ensures
        ({
            let (next, done) = session.after(
                StopEvent::OutputReady { processed: Some(processed) },
                false,
            );
            &&& next.phase == StopPhase::Ended
            &&& saved ==> done == seq![
                StopAction::SaveHistory {
                    transcription,
                    post_process: session.post_process,
                    post_processed_text: processed.post_processed_text,
                    post_process_prompt: processed.post_process_prompt,
                },
                StopAction::HideOverlay,
                StopAction::TrayIdle,
            ]
            &&& !saved ==> done == seq![StopAction::HideOverlay, StopAction::TrayIdle]
        }),
{
}

/// A dictation can be cancelled when the samples come, when the recording is saved, when
/// the output is there and before it is pasted: it then ends at once.
pub proof fn law_a_dictation_can_be_cancelled_on_the_way(
    session: StopSession,
    samples: Option<usize>,
    saved: bool,
    processed: Option<ProcessedTranscription>,
    reached: bool,
)
    ensures
        ({
            let away = seq![StopAction::HideOverlay, StopAction::TrayIdle];
            let ended = StopSession { phase: StopPhase::Ended, ..session };
            &&& session.phase is AwaitSamples ==> session.after(
                StopEvent::Recorded { samples },
                true,
            ) == (ended, seq![StopAction::CancelStream] + away)
            &&& session.phase is AwaitWav ==> session.after(
                StopEvent::WavSaved { ok: saved },
                true,
            ) == (ended, away)
            &&& session.phase is AwaitOutput ==> session.after(
                StopEvent::OutputReady { processed },
                true,
            ) == (ended, away)
            &&& session.phase is AwaitMainThread ==> session.after(
                StopEvent::OnMainThread { reached },
                true,
            ) == (ended, away)
        }),
{
}

/// A dictation of which nothing was recorded, whose output was cancelled, or for which
/// the main thread could not be reached, ends at once.
pub proof fn law_a_dictation_without_a_result_ends(session: StopSession, cancelled: bool)
    ensures
        ({
            let away = seq![StopAction::HideOverlay, StopAction::TrayIdle];
            let ended = StopSession { phase: StopPhase::Ended, ..session };
            &&& session.phase is AwaitSamples ==> {
                &&& session.after(StopEvent::Recorded { samples: None }, cancelled) == (
                    ended,
                    seq![StopAction::CancelStream] + away,
                )
                &&& session.after(StopEvent::Recorded { samples: Some(0) }, cancelled) == (
                    ended,
                    seq![StopAction::CancelStream] + away,
                )
            }
            &&& session.phase is AwaitOutput ==> session.after(
                StopEvent::OutputReady { processed: None },
                cancelled,
            ) == (ended, away)
            &&& session.phase is AwaitMainThread ==> session.after(
                StopEvent::OnMainThread { reached: false },
                cancelled,
            ) == (ended, away)
        }),
{
}

/// An event that a dictation does not wait for changes nothing.
pub proof fn law_events_out_of_turn_are_ignored(
    session: StopSession,
    event: StopEvent,
    cancelled: bool,
)
    requires
        !(session.phase is AwaitSamples && event is Recorded),
        !(session.phase is AwaitStream && event is StreamFinalized),
        !(session.phase is AwaitBatch && event is Transcribed),
        !(session.phase is AwaitWav && event is WavSaved),
        !(session.phase is AwaitOutput && event is OutputReady),
        !(session.phase is AwaitMainThread && event is OnMainThread),
        !(session.phase is AwaitPaste && event is Pasted),
    ensures
        session.after(event, cancelled) == (session, Seq::<StopAction>::empty()),
{
}

/// Stopping unregisters the cancel hotkey and ends the previews before anything is shown,
/// captures the destination exactly where the text is to be cleaned up, and unmutes
/// before the stop sound.
pub proof fn law_stopping_tears_down_before_it_shows(session: StopSession)
    ensures
        session.post_process ==> session.opening_actions() == seq![
            OpeningAction::UnregisterCancelShortcut,
            OpeningAction::StopChunkedPreview,
            OpeningAction::CancelPreviewStream,
            OpeningAction::CaptureContext,
            OpeningAction::TrayTranscribing,
            OpeningAction::ShowTranscribing { streaming: session.streaming_overlay },
            OpeningAction::RemoveMute,
            OpeningAction::PlayStopSound,
        ],
        !session.post_process ==> session.opening_actions() == seq![
            OpeningAction::UnregisterCancelShortcut,
            OpeningAction::StopChunkedPreview,
            OpeningAction::CancelPreviewStream,
            OpeningAction::TrayTranscribing,
            OpeningAction::ShowTranscribing { streaming: session.streaming_overlay },
            OpeningAction::RemoveMute,
            OpeningAction::PlayStopSound,
        ],
{
}

/// Four hotkeys are bound, and no other.
pub proof fn law_only_four_hotkeys_are_bound(binding_id: Seq<char>)
    ensures
        action_of(binding_id) is Some ==> binding_id == "transcribe"@ || binding_id
            == "transcribe_with_post_process"@ || binding_id == "cancel"@ || binding_id == "test"@,
        action_of("transcribe"@) == Some(BoundAction::Transcribe { post_process: false }),
        action_of("transcribe_with_post_process"@) == Some(
            BoundAction::Transcribe { post_process: true },
        ),
        action_of("cancel"@) == Some(BoundAction::Cancel),
        action_of("test"@) == Some(BoundAction::Test),
{
    reveal_strlit("transcribe");
    reveal_strlit("transcribe_with_post_process");
    reveal_strlit("cancel");
    reveal_strlit("test");
    assert("transcribe"@.len() == 10 && "transcribe_with_post_process"@.len() == 28);
    assert("cancel"@.len() == 6 && "test"@.len() == 4);
}

/// Silence is detected as the selected model needs it; a second model drives the preview
/// only where the user wants one and the selected model does not stream; and a model is
/// warmed up exactly where a cleanup pass will find a provider.
pub proof fn law_a_start_follows_the_settings(
    settings: AppSettings,
    post_process: bool,
    streams: bool,
    models: Seq<preview::PreviewCandidate>,
)
    ensures
        vad_for(false, streams) == VadPolicy::Disabled,
        vad_for(true, true) == VadPolicy::Streaming,
        vad_for(true, false) == VadPolicy::Offline,
        streams || !settings.preview_model_enabled ==> preview_model_place(
            settings,
            streams,
            models,
        ) is None,
        !streams && settings.preview_model_enabled ==> preview_model_place(
            settings,
            streams,
            models,
        ) == preview::preview_choice(models),
        warm_up_wanted(settings, post_process) <==> post_process && settings::provider_with_id(
            settings.post_process_providers@,
            settings.post_process_provider_id@,
        ) is Some,
{
}

proof fn lemma_digits_spell(n: nat)
    ensures
        cleanup::all_digits(digits(n)),
        cleanup::decimal(digits(n)) == n,
        digits(n).len() > 1 ==> digits(n)[0] != '0',
        n > 0 ==> digits(n)[0] != '0',
    decreases n,
{
    let last = ('0' as nat + n % 10) as char;
    if n < 10 {
        assert(digits(n).drop_last() =~= Seq::<char>::empty());
        assert(cleanup::decimal(digits(n).drop_last()) == 0);
        assert(cleanup::digit(last) == n);
    } else {
        let front = digits(n / 10);
        assert(cleanup::digit(last) == n % 10);
        lemma_digits_spell(n / 10);
        assert(digits(n).drop_last() =~= front);
        assert(digits(n).last() == last);
        assert(digits(n)[0] == front[0]);
        assert forall|i: int| 0 <= i < digits(n).len() implies '0' <= #[trigger] digits(n)[i]
            && digits(n)[i] <= '9' by {
            if i < front.len() {
                assert(digits(n)[i] == front[i]);
            }
        }
        assert(10 * (n / 10) + n % 10 == n);
    }
}

/// The name of a recording spells the time at which it was made: in decimal digits that
/// give back the number, with a sign where it is negative, and without leading zeros.
pub proof fn law_file_names_spell_the_time(n: int)
    ensures
        n >= 0 ==> cleanup::all_digits(decimal_text(n)) && cleanup::decimal(decimal_text(n)) == n,
        n > 0 ==> decimal_text(n)[0] != '0',
        n == 0 ==> decimal_text(n) == seq!['0'],
        n < 0 ==> decimal_text(n).len() > 1 && decimal_text(n)[0] == '-' && decimal_text(n)[1]
            != '0' && cleanup::all_digits(decimal_text(n).skip(1)) && cleanup::decimal(
            decimal_text(n).skip(1),
        ) == -n,
{
    if n >= 0 {
        lemma_digits_spell(n as nat);
    } else {
        lemma_digits_spell((-n) as nat);
        assert(decimal_text(n).skip(1) =~= digits((-n) as nat));
    }
}

/// While an operation is waited for, a check that finds it cancelled ends the wait without
/// an output, and else the next wait is of 25 milliseconds; one that passes leads to
/// another check, and an output is handed on as it is.
pub proof fn law_waiting_alternates_with_checks<T>(output: T)
    ensures
        poll_next::<T>(PollEvent::Checked { cancelled: true }) == (PollAction::Finish {
            output: None::<T>,
        }),
        poll_next::<T>(PollEvent::Checked { cancelled: false }) == (PollAction::<T>::Wait {
            millis: 25,
        }),
        poll_next::<T>(PollEvent::TimedOut) == PollAction::<T>::Check,
        poll_next(PollEvent::Completed { output }) == (PollAction::Finish { output: Some(output) }),
{
}

/// Every kind of recording error has its own name.
pub proof fn law_recording_errors_have_names(kind: RecordingErrorKind)
    ensures
        kind == RecordingErrorKind::PermissionDenied ==> kind.name_of()
            == "microphone_permission_denied"@,
        kind == RecordingErrorKind::NoInputDevice ==> kind.name_of() == "no_input_device"@,
        kind == RecordingErrorKind::Unknown ==> kind.name_of() == "unknown"@,
{
}

} // verus!
