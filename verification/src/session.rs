//! The per-connection Wyoming state machine.
//!
//! Three modes:
//!
//! - `LocalMic`: the daemon owns the audio source; detections of the live
//!   microphone pipeline go out to every client. Client audio events are
//!   tolerated but ignored.
//! - `WyomingServer`: each client streams its own audio; the connection
//!   gets its own isolated pipeline, started at the first accepted
//!   `audio-start`.
//! - `Hybrid`: both at once.
//!
//! The connection loop (reading frames, writing answers, running the
//! pipelines) lives at the edge. It asks [`Session::route`] which reader an
//! incoming event needs, hands the decoded event or any other happening to
//! [`Session::step`], and carries out the [`SessionAction`] it gets back.

use vstd::prelude::*;

use crate::events::{AudioChunk, AudioStart, Detect};
use crate::names::{filter_accepts, filter_match, names_view};
use crate::source::{decode_pcm_i16_le, format_verdict, le_i16, validate_format, FormatError};
use crate::text::str_eq;

verus! {

/// How a Wyoming server relates to the daemon's own microphone.
#[derive(Debug, Clone, Copy, PartialEq, Eq, Structural)]
pub enum WyomingMode {
    LocalMic,
    WyomingServer,
    Hybrid,
}

/// Whether connections in `mode` receive the live microphone's detections.
pub open spec fn subscribes_live(mode: WyomingMode) -> bool {
    mode == WyomingMode::LocalMic || mode == WyomingMode::Hybrid
}

/// Whether connections in `mode` may stream their own audio.
pub open spec fn accepts_client_audio(mode: WyomingMode) -> bool {
    mode == WyomingMode::WyomingServer || mode == WyomingMode::Hybrid
}

/// What to do with an incoming event, by its type.
#[derive(Debug, Clone, Copy, PartialEq, Eq, Structural)]
pub enum Route {
    /// Answer with `info`.
    Describe,
    /// Read it as `detect`.
    Detect,
    /// Read it as `audio-start`.
    AudioStart,
    /// Read it as `audio-chunk`.
    AudioChunk,
    /// End the client's audio stream.
    AudioStop,
    /// Nothing to read; the event is ignored.
    Ignore,
}

/// What the edge hands to [`Session::step`].
#[derive(Debug)]
pub enum SessionInput {
    /// The peer closed the stream between events.
    Eof,
    /// A `describe` event.
    Describe,
    /// A decoded `detect` event.
    Detect(Detect),
    /// A decoded `audio-start` event.
    AudioStart(AudioStart),
    /// A decoded `audio-chunk` event.
    AudioChunk(AudioChunk),
    /// An `audio-stop` event.
    AudioStop,
    /// An event routed to [`Route::Ignore`].
    Ignored,
    /// The connection's pipeline asked for by [`SessionAction::StartClient`] runs.
    ClientStarted,
    /// It could not be started.
    ClientFailed,
    /// The pipeline refused forwarded samples: it has gone away.
    ClientGone,
    /// The live microphone pipeline detected `name`.
    LiveDetection(String),
    /// The live broadcast skipped detections this connection was too slow for.
    LiveLagged,
    /// The live broadcast ended.
    LiveClosed,
    /// The connection's own pipeline detected `name`.
    ClientDetection(String),
    /// The connection's own pipeline ended.
    ClientClosed,
}

/// What the edge is asked to do.
#[derive(Debug)]
pub enum SessionAction {
    /// Nothing (the input is ignored or only worth a log line).
    Nothing,
    /// Write the daemon's `info`.
    SendInfo,
    /// Refuse the client's audio format; the session stays open so the
    /// client can send a corrected `audio-start`.
    RejectFormat(FormatError),
    /// Start the connection's own pipeline and report back with
    /// [`SessionInput::ClientStarted`] or [`SessionInput::ClientFailed`].
    StartClient,
    /// Send these samples to the connection's pipeline; report
    /// [`SessionInput::ClientGone`] if it refuses them.
    Forward(Vec<i16>),
    /// Stop the connection's pipeline.
    StopClient,
    /// Write a `detection` for `name`; its timestamp counts from the start
    /// of the connection's pipeline if `from_client`, else from the start
    /// of the session.
    Emit { name: String, from_client: bool },
    /// End the session.
    Close,
}

pub ghost enum ActionView {
    Nothing,
    SendInfo,
    RejectFormat(FormatError),
    StartClient,
    Forward(Seq<i16>),
    StopClient,
    Emit(Seq<char>, bool),
    Close,
}

impl View for SessionAction {
    type V = ActionView;

    open spec fn view(&self) -> ActionView {
        match self {
            SessionAction::Nothing => ActionView::Nothing,
            SessionAction::SendInfo => ActionView::SendInfo,
            SessionAction::RejectFormat(e) => ActionView::RejectFormat(*e),
            SessionAction::StartClient => ActionView::StartClient,
            SessionAction::Forward(v) => ActionView::Forward(v@),
            SessionAction::StopClient => ActionView::StopClient,
            SessionAction::Emit { name, from_client } => ActionView::Emit(name@, *from_client),
            SessionAction::Close => ActionView::Close,
        }
    }
}

/// Abstract state of a session.
pub struct SessionView {
    pub mode: WyomingMode,
    /// The client's wakeword filter; `None` lets every name through.
    pub filter: Option<Seq<Seq<char>>>,
    /// The connection's own pipeline runs.
    pub client: bool,
    /// The live broadcast is still subscribed.
    pub live: bool,
}

/// State of one Wyoming connection.
#[derive(Debug)]
pub struct Session {
    pub mode: WyomingMode,
    pub filter: Option<Vec<String>>,
    pub client: bool,
    pub live: bool,
}

pub open spec fn filter_view(f: Option<Vec<String>>) -> Option<Seq<Seq<char>>> {
    match f {
        Some(v) => Some(names_view(v@)),
        None => None,
    }
}

impl View for Session {
    type V = SessionView;

    open spec fn view(&self) -> SessionView {
        SessionView { mode: self.mode, filter: filter_view(self.filter), client: self.client, live: self.live }
    }
}

/// A session never runs a pipeline its mode does not allow, nor listens
/// to a broadcast it was never subscribed to.
pub open spec fn session_wf(s: SessionView) -> bool {
    &&& s.client ==> accepts_client_audio(s.mode)
    &&& s.live ==> subscribes_live(s.mode)
}

/// The session a new connection starts in.
pub open spec fn initial_session(mode: WyomingMode) -> SessionView {
    SessionView { mode, filter: None, client: false, live: subscribes_live(mode) }
}

/// Which reader an event of type `t` needs. Audio events are only read
/// when the mode accepts client audio, and a chunk only while the
/// connection's pipeline runs.
pub open spec fn route_of(s: SessionView, t: Seq<char>) -> Route {
    if t == "describe"@ {
        Route::Describe
    } else if t == "detect"@ {
        Route::Detect
    } else if t == "audio-start"@ && accepts_client_audio(s.mode) {
        Route::AudioStart
    } else if t == "audio-chunk"@ && accepts_client_audio(s.mode) {
        if s.client { Route::AudioChunk } else { Route::Ignore }
    } else if t == "audio-stop"@ && accepts_client_audio(s.mode) {
        Route::AudioStop
    } else {
        Route::Ignore
    }
}

/// The samples of a chunk's payload.
pub open spec fn decoded(audio: Seq<u8>) -> Seq<i16> {
    Seq::new(audio.len() / 2, |i: int| le_i16(audio[2 * i], audio[2 * i + 1]))
}

/// A detection of `name` is written when the filter accepts it.
pub open spec fn emit_if(s: SessionView, name: Seq<char>, from_client: bool) -> ActionView {
    if filter_accepts(s.filter, name) {
        ActionView::Emit(name, from_client)
    } else {
        ActionView::Nothing
    }
}

/// One transition: the next state and the action for `input`.
pub open spec fn session_next(s: SessionView, input: SessionInput) -> (SessionView, ActionView) {
    match input {
        SessionInput::Eof => (s, ActionView::Close),
        SessionInput::Describe => (s, ActionView::SendInfo),
        SessionInput::Detect(d) => {
            let f = if d.names@.len() == 0 { None } else { Some(names_view(d.names@)) };
            (SessionView { filter: f, ..s }, ActionView::Nothing)
        },
        SessionInput::AudioStart(a) => match format_verdict(a.rate, a.width, a.channels) {
            Err(e) => (s, ActionView::RejectFormat(e)),
            Ok(_) => if s.client { (s, ActionView::Nothing) } else { (s, ActionView::StartClient) },
        },
        SessionInput::AudioChunk(c) => (s, ActionView::Forward(decoded(c.audio@))),
        SessionInput::AudioStop => if s.client {
            (SessionView { client: false, ..s }, ActionView::StopClient)
        } else {
            (s, ActionView::Nothing)
        },
        SessionInput::Ignored => (s, ActionView::Nothing),
        SessionInput::ClientStarted => (SessionView { client: true, ..s }, ActionView::Nothing),
        SessionInput::ClientFailed => (s, ActionView::Nothing),
        SessionInput::ClientGone => (SessionView { client: false, ..s }, ActionView::Nothing),
        SessionInput::LiveDetection(n) => (s, emit_if(s, n@, false)),
        SessionInput::LiveLagged => (s, ActionView::Nothing),
        SessionInput::LiveClosed => (SessionView { live: false, ..s }, ActionView::Nothing),
        SessionInput::ClientDetection(n) => (s, emit_if(s, n@, true)),
        SessionInput::ClientClosed => (SessionView { client: false, ..s }, ActionView::Nothing),
    }
}

/// The inputs the edge may hand over in state `s`: decoded events only
/// as routed, pipeline outcomes only after asking for them, and only
/// the happenings of channels the session listens to.
pub open spec fn input_allowed(s: SessionView, input: SessionInput) -> bool {
    match input {
        SessionInput::AudioStart(_) => accepts_client_audio(s.mode),
        SessionInput::AudioChunk(_) => s.client,
        SessionInput::AudioStop => accepts_client_audio(s.mode),
        SessionInput::ClientStarted => accepts_client_audio(s.mode),
        SessionInput::ClientGone => s.client,
        SessionInput::LiveDetection(_) => s.live,
        SessionInput::LiveLagged => s.live,
        SessionInput::LiveClosed => s.live,
        SessionInput::ClientDetection(_) => s.client,
        SessionInput::ClientClosed => s.client,
        _ => true,
    }
}

impl Session {
    /// A fresh connection in `mode`.
    pub fn new(mode: WyomingMode) -> (s: Session)
        ensures
            s@ == initial_session(mode),
            session_wf(s@),
    {
        let live = match mode {
            WyomingMode::LocalMic => true,
            WyomingMode::WyomingServer => false,
            WyomingMode::Hybrid => true,
        };
        Session { mode, filter: None, client: false, live }
    }

    /// Whether the mode accepts audio streamed by the client.
    pub fn accepts_client_audio(&self) -> (b: bool)
        ensures
            b == accepts_client_audio(self.mode),
    {
        match self.mode {
            WyomingMode::LocalMic => false,
            _ => true,
        }
    }

    /// Which reader an incoming event of type `event_type` needs.
    pub fn route(&self, event_type: &str) -> (r: Route)
        ensures
            r == route_of(self@, event_type@),
            accepts_client_audio(self.mode) && event_type@ == "audio-stop"@ ==> r == Route::AudioStop,
    {
        proof {
            if accepts_client_audio(self.mode) {
                law_client_audio_routed(self@);
            }
        }
        let audio = self.accepts_client_audio();
        if str_eq(event_type, "describe") {
            Route::Describe
        } else if str_eq(event_type, "detect") {
            Route::Detect
        } else if audio && str_eq(event_type, "audio-start") {
            Route::AudioStart
        } else if audio && str_eq(event_type, "audio-chunk") {
            if self.client { Route::AudioChunk } else { Route::Ignore }
        } else if audio && str_eq(event_type, "audio-stop") {
            Route::AudioStop
        } else {
            Route::Ignore
        }
    }

    fn emit(&self, name: String, from_client: bool) -> (a: SessionAction)
        ensures
            a@ == emit_if(self@, name@, from_client),
    {
        let pass = match &self.filter {
            Some(v) => filter_match(Some(v), name.as_str()),
            None => filter_match(None, name.as_str()),
        };
        if pass {
            SessionAction::Emit { name, from_client }
        } else {
            SessionAction::Nothing
        }
    }

    /// Take one input; return the action the edge must carry out.
    pub fn step(&mut self, input: SessionInput) -> (a: SessionAction)
        ensures
            (final(self)@, a@) == session_next(old(self)@, input),
    {
        match input {
            SessionInput::Eof => SessionAction::Close,
            SessionInput::Describe => SessionAction::SendInfo,
            SessionInput::Detect(d) => {
                if d.names.len() == 0 {
                    self.filter = None;
                } else {
                    self.filter = Some(d.names);
                }
                SessionAction::Nothing
            },
            SessionInput::AudioStart(a) => match validate_format(&a) {
                Err(e) => SessionAction::RejectFormat(e),
                Ok(()) => if self.client {
                    SessionAction::Nothing
                } else {
                    SessionAction::StartClient
                },
            },
            SessionInput::AudioChunk(c) => {
                let samples = decode_pcm_i16_le(c.audio.as_slice());
                assert(samples@ =~= decoded(c.audio@));
                SessionAction::Forward(samples)
            },
            SessionInput::AudioStop => if self.client {
                self.client = false;
                SessionAction::StopClient
            } else {
                SessionAction::Nothing
            },
            SessionInput::Ignored => SessionAction::Nothing,
            SessionInput::ClientStarted => {
                self.client = true;
                SessionAction::Nothing
            },
            SessionInput::ClientFailed => SessionAction::Nothing,
            SessionInput::ClientGone => {
                self.client = false;
                SessionAction::Nothing
            },
            SessionInput::LiveDetection(n) => self.emit(n, false),
            SessionInput::LiveLagged => SessionAction::Nothing,
            SessionInput::LiveClosed => {
                self.live = false;
                SessionAction::Nothing
            },
            SessionInput::ClientDetection(n) => self.emit(n, true),
            SessionInput::ClientClosed => {
                self.client = false;
                SessionAction::Nothing
            },
        }
    }
}

/// The state after feeding `inputs` one by one from `s`.
pub open spec fn run_session(s: SessionView, inputs: Seq<SessionInput>) -> SessionView
    decreases inputs.len(),
{
    if inputs.len() == 0 {
        s
    } else {
        run_session(session_next(s, inputs[0]).0, inputs.drop_first())
    }
}

/// The actions produced by feeding `inputs` one by one from `s`.
pub open spec fn session_actions(s: SessionView, inputs: Seq<SessionInput>) -> Seq<ActionView>
    decreases inputs.len(),
{
    if inputs.len() == 0 {
        Seq::empty()
    } else {
        seq![session_next(s, inputs[0]).1] + session_actions(session_next(s, inputs[0]).0, inputs.drop_first())
    }
}

/// Every input of `inputs` is allowed in the state it meets.
pub open spec fn trace_allowed(s: SessionView, inputs: Seq<SessionInput>) -> bool
    decreases inputs.len(),
{
    inputs.len() == 0 || (input_allowed(s, inputs[0]) && trace_allowed(
        session_next(s, inputs[0]).0,
        inputs.drop_first(),
    ))
}

/// One allowed step keeps a session well formed.
pub proof fn law_step_keeps_wf(s: SessionView, input: SessionInput)
    requires
        session_wf(s),
        input_allowed(s, input),
    ensures
        session_wf(session_next(s, input).0),
        session_next(s, input).0.mode == s.mode,
{
}

/// Over any allowed run from a fresh connection the session stays well
/// formed: no pipeline of its own in local-mic mode, no live detections
/// in wyoming-server mode.
pub proof fn law_run_keeps_wf(mode: WyomingMode, inputs: Seq<SessionInput>)
    requires
        trace_allowed(initial_session(mode), inputs),
    ensures
        session_wf(run_session(initial_session(mode), inputs)),
        run_session(initial_session(mode), inputs).mode == mode,
{
    lemma_run_keeps_wf(initial_session(mode), inputs);
}

proof fn lemma_run_keeps_wf(s: SessionView, inputs: Seq<SessionInput>)
    requires
        session_wf(s),
        trace_allowed(s, inputs),
    ensures
        session_wf(run_session(s, inputs)),
        run_session(s, inputs).mode == s.mode,
    decreases inputs.len(),
{
    if inputs.len() > 0 {
        law_step_keeps_wf(s, inputs[0]);
        lemma_run_keeps_wf(session_next(s, inputs[0]).0, inputs.drop_first());
    }
}

/// In local-mic mode client audio is never read: every audio event is
/// routed to [`Route::Ignore`].
pub proof fn law_local_mic_ignores_client_audio(s: SessionView, t: Seq<char>)
    requires
        s.mode == WyomingMode::LocalMic,
    ensures
        t != "describe"@ && t != "detect"@ ==> route_of(s, t) == Route::Ignore,
{
}

/// In a mode that takes client audio, each client audio event reaches
/// its reader: `audio-start` always, `audio-chunk` while a pipeline runs,
/// and `audio-stop` always; an `audio-stop` while a pipeline runs stops
/// it and leaves the session without one.
pub proof fn law_client_audio_routed(s: SessionView)
    requires
        accepts_client_audio(s.mode),
    ensures
        route_of(s, "audio-start"@) == Route::AudioStart,
        s.client ==> route_of(s, "audio-chunk"@) == Route::AudioChunk,
        route_of(s, "audio-stop"@) == Route::AudioStop,
        s.client ==> session_next(s, SessionInput::AudioStop).1 == ActionView::StopClient,
        !session_next(s, SessionInput::AudioStop).0.client,
{
    reveal_strlit("audio-chunk");
    reveal_strlit("audio-start");
    reveal_strlit("audio-stop");
    reveal_strlit("describe");
    reveal_strlit("detect");
    assert("audio-start"@[0] != "describe"@[0] && "audio-start"@[0] != "detect"@[0]);
    assert("audio-chunk"@[0] != "describe"@[0] && "audio-chunk"@[0] != "detect"@[0]);
    assert("audio-stop"@[0] != "describe"@[0] && "audio-stop"@[0] != "detect"@[0]);
    assert("audio-chunk"@[6] != "audio-start"@[6]);
    assert("audio-stop"@.len() != "audio-start"@.len());
    assert("audio-stop"@.len() != "audio-chunk"@.len());
}

/// An `audio-chunk` that arrives while no pipeline runs (before an
/// accepted `audio-start`, or after `audio-stop`) is ignored.
pub proof fn law_chunk_without_pipeline_ignored(s: SessionView)
    requires
        !s.client,
    ensures
        route_of(s, "audio-chunk"@) == Route::Ignore,
{
    reveal_strlit("audio-chunk");
    reveal_strlit("audio-start");
    reveal_strlit("describe");
    reveal_strlit("detect");
    assert("audio-chunk"@[0] != "describe"@[0]);
    assert("audio-chunk"@[0] != "detect"@[0]);
    assert("audio-chunk"@[6] != "audio-start"@[6]);
}

/// A detection is written only for a name the client's filter accepts,
/// and then with the clock of the pipeline that produced it.
pub proof fn law_emits_pass_filter(s: SessionView, input: SessionInput)
    ensures
        session_next(s, input).1 matches ActionView::Emit(n, from_client) ==> {
            &&& filter_accepts(s.filter, n)
            &&& from_client <==> input is ClientDetection
        },
{
}

/// A `detect` naming no wakeword clears the filter: afterwards every
/// detection passes; one naming some passes exactly those names.
pub proof fn law_detect_sets_filter(s: SessionView, d: Detect, name: Seq<char>)
    ensures
        d.names@.len() == 0 ==> filter_accepts(session_next(s, SessionInput::Detect(d)).0.filter, name),
        d.names@.len() > 0 ==> (filter_accepts(session_next(s, SessionInput::Detect(d)).0.filter, name)
            <==> names_view(d.names@).contains(name)),
{
}

/// A refused `audio-start` leaves the session as it was (open, same
/// pipeline), and an accepted one starts a pipeline only if none runs.
pub proof fn law_audio_start(s: SessionView, a: AudioStart)
    ensures
        format_verdict(a.rate, a.width, a.channels) is Err ==> session_next(s, SessionInput::AudioStart(a)).0 == s,
        session_next(s, SessionInput::AudioStart(a)).0 == s,
        session_next(s, SessionInput::AudioStart(a)).1 == ActionView::StartClient
            <==> (format_verdict(a.rate, a.width, a.channels) is Ok && !s.client),
{
}

/// Whether a Wyoming server may start in `mode`: every mode is served
/// (local-mic fans out the microphone's detections, wyoming-server runs a
/// pipeline per streaming client, hybrid does both).
pub fn serve_mode_supported(mode: WyomingMode) -> (b: bool)
    ensures
        b == true,
{
    match mode {
        WyomingMode::LocalMic => true,
        WyomingMode::WyomingServer => true,
        WyomingMode::Hybrid => true,
    }
}

} // verus!
