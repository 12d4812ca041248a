use horchd::events::{AudioChunk, AudioStart, Detect};
use horchd::info::build_info;
use horchd::session::{Route, Session, SessionAction, SessionInput, WyomingMode};
use horchd::source::FormatError;

fn start(rate: u32) -> AudioStart {
    AudioStart { rate, width: 2, channels: 1, timestamp: None }
}

#[test]
fn new_session_subscribes_by_mode() {
    let s = Session::new(WyomingMode::LocalMic);
    assert!(s.live && !s.client && s.filter.is_none());
    assert!(!Session::new(WyomingMode::WyomingServer).live);
    assert!(Session::new(WyomingMode::Hybrid).live);
}

#[test]
fn local_mic_ignores_client_audio() {
    let s = Session::new(WyomingMode::LocalMic);
    assert_eq!(s.route("audio-start"), Route::Ignore);
    assert_eq!(s.route("audio-chunk"), Route::Ignore);
    assert_eq!(s.route("audio-stop"), Route::Ignore);
    assert_eq!(s.route("describe"), Route::Describe);
    assert_eq!(s.route("detect"), Route::Detect);
    assert_eq!(s.route("transcript"), Route::Ignore);
}

#[test]
fn server_mode_runs_a_client_pipeline() {
    let mut s = Session::new(WyomingMode::WyomingServer);
    assert_eq!(s.route("audio-start"), Route::AudioStart);
    // A chunk before any pipeline runs is ignored.
    assert_eq!(s.route("audio-chunk"), Route::Ignore);
    assert!(matches!(s.step(SessionInput::AudioStart(start(16_000))), SessionAction::StartClient));
    assert!(matches!(s.step(SessionInput::ClientStarted), SessionAction::Nothing));
    assert!(s.client);
    // A second audio-start does not start a second pipeline.
    assert!(matches!(s.step(SessionInput::AudioStart(start(16_000))), SessionAction::Nothing));
    assert_eq!(s.route("audio-chunk"), Route::AudioChunk);
    let chunk = AudioChunk { rate: 16_000, width: 2, channels: 1, timestamp: None, audio: vec![1, 0, 0xff, 0xff] };
    match s.step(SessionInput::AudioChunk(chunk)) {
        SessionAction::Forward(samples) => assert_eq!(samples, vec![1, -1]),
        other => panic!("unexpected {other:?}"),
    }
    assert!(matches!(s.step(SessionInput::AudioStop), SessionAction::StopClient));
    assert!(!s.client);
    assert!(matches!(s.step(SessionInput::AudioStop), SessionAction::Nothing));
}

#[test]
fn bad_format_is_rejected_and_session_stays_open() {
    let mut s = Session::new(WyomingMode::Hybrid);
    match s.step(SessionInput::AudioStart(start(48_000))) {
        SessionAction::RejectFormat(e) => assert_eq!(e, FormatError::Rate(48_000)),
        other => panic!("unexpected {other:?}"),
    }
    assert!(!s.client);
    assert!(matches!(s.step(SessionInput::AudioStart(start(16_000))), SessionAction::StartClient));
    assert!(matches!(s.step(SessionInput::ClientFailed), SessionAction::Nothing));
    assert!(!s.client);
}

#[test]
fn detect_sets_and_clears_the_filter() {
    let mut s = Session::new(WyomingMode::LocalMic);
    s.step(SessionInput::Detect(Detect { names: vec!["alexa".into()] }));
    assert!(matches!(s.step(SessionInput::LiveDetection("jarvis".into())), SessionAction::Nothing));
    match s.step(SessionInput::LiveDetection("alexa".into())) {
        SessionAction::Emit { name, from_client } => {
            assert_eq!(name, "alexa");
            assert!(!from_client);
        }
        other => panic!("unexpected {other:?}"),
    }
    s.step(SessionInput::Detect(Detect { names: vec![] }));
    assert!(s.filter.is_none());
    assert!(matches!(s.step(SessionInput::LiveDetection("jarvis".into())), SessionAction::Emit { .. }));
}

#[test]
fn client_detections_use_the_client_clock() {
    let mut s = Session::new(WyomingMode::WyomingServer);
    s.step(SessionInput::AudioStart(start(16_000)));
    s.step(SessionInput::ClientStarted);
    match s.step(SessionInput::ClientDetection("alexa".into())) {
        SessionAction::Emit { from_client, .. } => assert!(from_client),
        other => panic!("unexpected {other:?}"),
    }
    s.step(SessionInput::ClientClosed);
    assert!(!s.client);
}

#[test]
fn chunk_refused_drops_the_pipeline() {
    let mut s = Session::new(WyomingMode::WyomingServer);
    s.step(SessionInput::ClientStarted);
    s.step(SessionInput::ClientGone);
    assert!(!s.client);
}

#[test]
fn describe_eof_and_live_close() {
    let mut s = Session::new(WyomingMode::Hybrid);
    assert!(matches!(s.step(SessionInput::Describe), SessionAction::SendInfo));
    assert!(matches!(s.step(SessionInput::LiveLagged), SessionAction::Nothing));
    s.step(SessionInput::LiveClosed);
    assert!(!s.live);
    assert!(matches!(s.step(SessionInput::Eof), SessionAction::Close));
}

#[test]
fn info_advertises_one_wake_program() {
    let info = build_info(&vec!["alexa".into(), "jarvis".into()], "desc".into(), "0.2.0".into());
    assert_eq!(info.wake.len(), 1);
    let p = &info.wake[0];
    assert_eq!(p.name, "horchd");
    assert_eq!(p.attribution.name, "NewtTheWolf");
    assert_eq!(p.attribution.url, "https://horchd.xyz");
    assert_eq!(p.version.as_deref(), Some("0.2.0"));
    assert_eq!(p.models.iter().map(|m| m.name.as_str()).collect::<Vec<_>>(), vec!["alexa", "jarvis"]);
    assert!(p.models.iter().all(|m| m.installed && m.attribution.name == "openWakeWord"));
    assert!(info.asr.is_empty() && info.tts.is_empty() && info.satellite.is_none());
}
