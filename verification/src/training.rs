//! The rules behind the training front end: where training assets live,
//! which recorded samples are accepted and how they are named, how the
//! training helper is invoked and how its output lines are told apart.

use vstd::prelude::*;

use crate::names::{sanitize_name, sanitize_verdict, NameError};
use crate::paths::{join, joined};
use crate::text::{decimal, push_decimal, push_str, str_eq, trim, trim_spec};

verus! {

/// Largest training sample handed back for playback (50 MiB).
pub const MAX_TRAINING_SAMPLE_BYTES: u64 = 52428800;

/// A stored sample of `len` bytes is too large to hand back.
#[derive(Debug, Clone, Copy, PartialEq, Eq, Structural)]
pub struct SampleTooLarge {
    pub len: u64,
    pub cap: u64,
}

/// Whether a stored sample of `len` bytes may be read back for playback.
pub fn check_sample_read(len: u64) -> (r: Result<(), SampleTooLarge>)
    ensures
        r is Ok <==> len <= MAX_TRAINING_SAMPLE_BYTES,
        r matches Err(e) ==> e == (SampleTooLarge { len, cap: MAX_TRAINING_SAMPLE_BYTES }),
{
    if len > MAX_TRAINING_SAMPLE_BYTES {
        Err(SampleTooLarge { len, cap: MAX_TRAINING_SAMPLE_BYTES })
    } else {
        Ok(())
    }
}

/// Longest target phrase, in UTF-8 bytes.
pub const MAX_PHRASE_BYTES: usize = 256;

/// The two helper processes the front end runs.
#[derive(Debug, Clone, Copy, PartialEq, Eq, Structural)]
pub enum ProcessKind {
    Setup,
    Train,
}

impl ProcessKind {
    /// Short name, used in event channel names.
    pub fn label(self) -> (s: &'static str)
        ensures
            s@ == (match self {
                ProcessKind::Setup => "setup"@,
                ProcessKind::Train => "train"@,
            }),
    {
        match self {
            ProcessKind::Setup => "setup",
            ProcessKind::Train => "train",
        }
    }

    /// The channel the process's output is streamed to: `horchd://<label>`.
    pub fn channel(self) -> (s: String)
        ensures
            s@ == "horchd://"@ + (match self {
                ProcessKind::Setup => "setup"@,
                ProcessKind::Train => "train"@,
            }),
    {
        let mut s = String::new();
        push_str(&mut s, "horchd://");
        push_str(&mut s, self.label());
        s
    }
}

/// A recorded training sample on disk.
#[derive(Debug, Clone, PartialEq)]
pub struct TrainingSample {
    pub kind: String,
    pub path: String,
    pub ts_ms: u64,
    pub size: u64,
    pub duration_ms: u32,
    pub sample_rate: u32,
}

/// A wakeword being trained, with its sample counts.
#[derive(Debug, Clone, PartialEq)]
pub struct TrainingWord {
    pub name: String,
    pub positive: u32,
    pub negative: u32,
    pub target_phrase: Option<String>,
}

/// What is kept next to a wakeword's samples.
#[derive(Debug, Clone, PartialEq)]
pub struct WordMeta {
    pub target_phrase: Option<String>,
}

/// State of the training environment.
#[derive(Debug, Clone, PartialEq)]
pub struct TrainingEnvStatus {
    pub uv_version: Option<String>,
    pub python_env_dir: String,
    pub python_path: Option<String>,
    pub openwakeword_installed: bool,
    pub package_dir: Option<String>,
    pub negatives_features_path: String,
    pub negatives_present: bool,
}

/// Neither `$XDG_DATA_HOME` nor `$HOME` is set.
#[derive(Debug, Clone, Copy, PartialEq, Eq, Structural)]
pub struct NoHome;

/// The horchd data directory: `$XDG_DATA_HOME/horchd`, or
/// `$HOME/.local/share/horchd` when `XDG_DATA_HOME` is unset.
pub open spec fn data_dir_spec(xdg_data_home: Option<Seq<char>>, home: Option<Seq<char>>) -> Option<Seq<char>> {
    match xdg_data_home {
        Some(x) => Some(joined(x, "horchd"@)),
        None => match home {
            Some(h) => Some(joined(joined(joined(h, ".local"@), "share"@), "horchd"@)),
            None => None,
        },
    }
}

pub open spec fn opt_view(o: Option<&str>) -> Option<Seq<char>> {
    match o {
        Some(s) => Some(s@),
        None => None,
    }
}

/// The horchd data directory, from the values of `XDG_DATA_HOME` and `HOME`.
pub fn canonical_data_dir(xdg_data_home: Option<&str>, home: Option<&str>) -> (r: Result<String, NoHome>)
    ensures
        match r {
            Ok(d) => data_dir_spec(opt_view(xdg_data_home), opt_view(home)) == Some(d@),
            Err(_) => data_dir_spec(opt_view(xdg_data_home), opt_view(home)) is None,
        },
{
    match xdg_data_home {
        Some(x) => Ok(join(x, "horchd")),
        None => match home {
            Some(h) => {
                let local = join(h, ".local");
                let share = join(local.as_str(), "share");
                Ok(join(share.as_str(), "horchd"))
            },
            None => Err(NoHome),
        },
    }
}

/// A directory below the data directory.
pub open spec fn data_sub_spec(xdg: Option<Seq<char>>, home: Option<Seq<char>>, sub: Seq<char>) -> Option<Seq<char>> {
    match data_dir_spec(xdg, home) {
        Some(d) => Some(joined(d, sub)),
        None => None,
    }
}

fn data_sub(xdg_data_home: Option<&str>, home: Option<&str>, sub: &str) -> (r: Result<String, NoHome>)
    ensures
        match r {
            Ok(d) => data_sub_spec(opt_view(xdg_data_home), opt_view(home), sub@) == Some(d@),
            Err(_) => data_sub_spec(opt_view(xdg_data_home), opt_view(home), sub@) is None,
        },
{
    match canonical_data_dir(xdg_data_home, home) {
        Ok(d) => Ok(join(d.as_str(), sub)),
        Err(e) => Err(e),
    }
}

/// Where models are kept: `<data>/models`.
pub fn canonical_models_dir(xdg_data_home: Option<&str>, home: Option<&str>) -> (r: Result<String, NoHome>)
    ensures
        match r {
            Ok(d) => data_sub_spec(opt_view(xdg_data_home), opt_view(home), "models"@) == Some(d@),
            Err(_) => data_sub_spec(opt_view(xdg_data_home), opt_view(home), "models"@) is None,
        },
{
    data_sub(xdg_data_home, home, "models")
}

/// Where training samples are kept: `<data>/training`.
pub fn canonical_training_dir(xdg_data_home: Option<&str>, home: Option<&str>) -> (r: Result<String, NoHome>)
    ensures
        match r {
            Ok(d) => data_sub_spec(opt_view(xdg_data_home), opt_view(home), "training"@) == Some(d@),
            Err(_) => data_sub_spec(opt_view(xdg_data_home), opt_view(home), "training"@) is None,
        },
{
    data_sub(xdg_data_home, home, "training")
}

/// The training virtual environment: `<data>/python-env`.
pub fn canonical_python_env_dir(xdg_data_home: Option<&str>, home: Option<&str>) -> (r: Result<String, NoHome>)
    ensures
        match r {
            Ok(d) => data_sub_spec(opt_view(xdg_data_home), opt_view(home), "python-env"@) == Some(d@),
            Err(_) => data_sub_spec(opt_view(xdg_data_home), opt_view(home), "python-env"@) is None,
        },
{
    data_sub(xdg_data_home, home, "python-env")
}

/// The interpreter of that environment: `<data>/python-env/bin/python`.
pub fn canonical_python_path(xdg_data_home: Option<&str>, home: Option<&str>) -> (r: Result<String, NoHome>)
    ensures
        match r {
            Ok(p) => match data_sub_spec(opt_view(xdg_data_home), opt_view(home), "python-env"@) {
                Some(env) => p@ == joined(joined(env, "bin"@), "python"@),
                None => false,
            },
            Err(_) => data_dir_spec(opt_view(xdg_data_home), opt_view(home)) is None,
        },
{
    match canonical_python_env_dir(xdg_data_home, home) {
        Ok(env) => {
            let bin = join(env.as_str(), "bin");
            Ok(join(bin.as_str(), "python"))
        },
        Err(e) => Err(e),
    }
}

/// The precomputed negative features:
/// `<data>/negatives/openwakeword_features_ACAV100M_2000_hrs_16bit.npy`.
pub fn canonical_negatives_path(xdg_data_home: Option<&str>, home: Option<&str>) -> (r: Result<String, NoHome>)
    ensures
        match r {
            Ok(p) => match data_sub_spec(opt_view(xdg_data_home), opt_view(home), "negatives"@) {
                Some(dir) => p@ == joined(dir, "openwakeword_features_ACAV100M_2000_hrs_16bit.npy"@),
                None => false,
            },
            Err(_) => data_dir_spec(opt_view(xdg_data_home), opt_view(home)) is None,
        },
{
    match data_sub(xdg_data_home, home, "negatives") {
        Ok(dir) => Ok(join(dir.as_str(), "openwakeword_features_ACAV100M_2000_hrs_16bit.npy")),
        Err(e) => Err(e),
    }
}

/// Why a recorded sample was refused.
#[derive(Debug, Clone, PartialEq, Eq)]
pub enum SampleError {
    Name(NameError),
    /// Neither `positive` nor `negative`.
    UnknownKind(String),
    /// Outside 8000..=48000 Hz.
    SampleRate(u32),
    NoSamples,
}

pub ghost enum SampleFault {
    Name(NameError),
    UnknownKind(Seq<char>),
    SampleRate(u32),
    NoSamples,
}

impl View for SampleError {
    type V = SampleFault;

    open spec fn view(&self) -> SampleFault {
        match self {
            SampleError::Name(e) => SampleFault::Name(*e),
            SampleError::UnknownKind(k) => SampleFault::UnknownKind(k@),
            SampleError::SampleRate(r) => SampleFault::SampleRate(*r),
            SampleError::NoSamples => SampleFault::NoSamples,
        }
    }
}

/// The checks on a recorded sample, in order: the name (as
/// [`sanitize_verdict`]), the kind, the rate, then that it is not empty.
/// Success gives the trimmed name.
pub open spec fn sample_verdict(name: Seq<char>, kind: Seq<char>, rate: u32, n_samples: nat) -> Result<Seq<char>, SampleFault> {
    match sanitize_verdict(name) {
        Err(e) => Err(SampleFault::Name(e)),
        Ok(t) => if kind != "positive"@ && kind != "negative"@ {
            Err(SampleFault::UnknownKind(kind))
        } else if rate < 8000 || rate > 48000 {
            Err(SampleFault::SampleRate(rate))
        } else if n_samples == 0 {
            Err(SampleFault::NoSamples)
        } else {
            Ok(t)
        },
    }
}

/// Check a sample the front end wants to save; returns the trimmed name.
pub fn check_training_sample(name: &str, kind: &str, sample_rate: u32, n_samples: usize) -> (r: Result<String, SampleError>)
    ensures
        match r {
            Ok(t) => sample_verdict(name@, kind@, sample_rate, n_samples as nat) == Ok::<Seq<char>, SampleFault>(t@),
            Err(e) => sample_verdict(name@, kind@, sample_rate, n_samples as nat) == Err::<Seq<char>, SampleFault>(e@),
        },
{
    let name = match sanitize_name(name) {
        Ok(t) => t,
        Err(e) => {
            return Err(SampleError::Name(e));
        },
    };
    if !str_eq(kind, "positive") && !str_eq(kind, "negative") {
        return Err(SampleError::UnknownKind(kind.to_owned()));
    }
    if sample_rate < 8000 || sample_rate > 48000 {
        return Err(SampleError::SampleRate(sample_rate));
    }
    if n_samples == 0 {
        return Err(SampleError::NoSamples);
    }
    Ok(name)
}

/// `u32::try_from(x).unwrap_or(0)`.
pub open spec fn u32_or_zero(x: int) -> u32 {
    if 0 <= x <= u32::MAX { x as u32 } else { 0 }
}

/// Length in milliseconds of `n_samples` mono samples at `rate`.
pub fn sample_duration_ms(n_samples: u64, rate: u32) -> (ms: u32)
    requires
        rate > 0,
        n_samples * 1000 <= u64::MAX,
    ensures
        ms == u32_or_zero((n_samples * 1000) / (rate as int)),
{
    let total = n_samples * 1000;
    let q = total / (rate as u64);
    if q > u32::MAX as u64 {
        0
    } else {
        q as u32
    }
}

/// Duration and rate of a WAV file with `frames` frames at `rate`; none
/// for a zero rate.
pub fn wav_duration(frames: u32, rate: u32) -> (r: Option<(u32, u32)>)
    ensures
        rate == 0 ==> r is None,
        rate > 0 ==> r == Some((u32_or_zero((frames * 1000) / (rate as int)), rate)),
{
    if rate == 0 {
        return None;
    }
    assert(frames * 1000 <= u64::MAX);
    Some((sample_duration_ms(frames as u64, rate), rate))
}

/// Where a sample recorded at `ts_ms` goes:
/// `<training>/<name>/<kind>/<ts_ms>.wav`.
pub open spec fn sample_path_spec(training: Seq<char>, name: Seq<char>, kind: Seq<char>, ts_ms: u64) -> Seq<char> {
    joined(joined(joined(training, name), kind), decimal(ts_ms as nat) + ".wav"@)
}

pub fn training_sample_path(training_dir: &str, name: &str, kind: &str, ts_ms: u64) -> (p: String)
    ensures
        p@ == sample_path_spec(training_dir@, name@, kind@, ts_ms),
{
    let word = join(training_dir, name);
    let dir = join(word.as_str(), kind);
    let mut file = String::new();
    push_decimal(&mut file, ts_ms);
    push_str(&mut file, ".wav");
    join(dir.as_str(), file.as_str())
}

/// Timestamp of a sample from its file stem; zero when the stem is not a
/// decimal number.
pub fn sample_ts(stem: Option<&str>) -> (ts: u64)
    ensures
        ts == match opt_view(stem) {
            Some(s) => match crate::text::parse_u64_spec(s) {
                Some(v) => v,
                None => 0,
            },
            None => 0,
        },
{
    match stem {
        Some(s) => match crate::text::parse_u64(s) {
            Some(v) => v,
            None => 0,
        },
        None => 0,
    }
}

/// Why a target phrase was refused.
#[derive(Debug, Clone, Copy, PartialEq, Eq, Structural)]
pub enum PhraseError {
    Empty,
    LineBreak,
    TooLong,
}

/// The checks on a target phrase after trimming: not empty, no line
/// break, at most [`MAX_PHRASE_BYTES`] bytes.
pub open spec fn phrase_verdict(p: Seq<char>) -> Result<Seq<char>, PhraseError> {
    let t = trim_spec(p);
    if t.len() == 0 {
        Err(PhraseError::Empty)
    } else if t.contains('\n') || t.contains('\r') {
        Err(PhraseError::LineBreak)
    } else if vstd::utf8::encode_utf8(t).len() > MAX_PHRASE_BYTES {
        Err(PhraseError::TooLong)
    } else {
        Ok(t)
    }
}

fn has_line_break(s: &str) -> (b: bool)
    ensures
        b == (s@.contains('\n') || s@.contains('\r')),
{
    let n = s.unicode_len();
    let mut i: usize = 0;
    while i < n
        invariant
            n == s@.len(),
            i <= n,
            forall|j: int| 0 <= j < i ==> s@[j] != '\n' && s@[j] != '\r',
        decreases n - i,
    {
        let c = s.get_char(i);
        if c == '\n' || c == '\r' {
            assert(s@[i as int] == c);
            return true;
        }
        i += 1;
    }
    false
}

/// Check the phrase the wakeword is trained on; returns it trimmed.
pub fn check_phrase(target_phrase: &str) -> (r: Result<&str, PhraseError>)
    ensures
        match r {
            Ok(t) => phrase_verdict(target_phrase@) == Ok::<Seq<char>, PhraseError>(t@),
            Err(e) => phrase_verdict(target_phrase@) == Err::<Seq<char>, PhraseError>(e),
        },
{
    let t = trim(target_phrase);
    if t.unicode_len() == 0 {
        return Err(PhraseError::Empty);
    }
    if has_line_break(t) {
        return Err(PhraseError::LineBreak);
    }
    if t.as_bytes().len() > MAX_PHRASE_BYTES {
        return Err(PhraseError::TooLong);
    }
    Ok(t)
}

/// The arguments the training helper is run with.
pub open spec fn train_args_spec(name: Seq<char>, phrase: Seq<char>, augment: Option<u32>, steps: Option<u32>) -> Seq<Seq<char>> {
    let base = seq!["-m"@, "horchd_train"@, "--name"@, name, "--target-phrase"@, phrase];
    let with_aug = match augment {
        Some(n) => base + seq!["--augment-per-recording"@, decimal(n as nat)],
        None => base,
    };
    match steps {
        Some(s) => with_aug + seq!["--steps"@, decimal(s as nat)],
        None => with_aug,
    }
}

fn owned(s: &str) -> (r: String)
    ensures
        r@ == s@,
{
    s.to_owned()
}

fn decimal_string(n: u32) -> (r: String)
    ensures
        r@ == decimal(n as nat),
{
    let mut s = String::new();
    push_decimal(&mut s, n as u64);
    assert(s@ =~= decimal(n as nat));
    s
}

/// Arguments for the training helper (`python -m horchd_train ...`).
pub fn train_args(name: &str, phrase: &str, augment_per_recording: Option<u32>, steps: Option<u32>) -> (args: Vec<String>)
    ensures
        args@.map_values(|a: String| a@) == train_args_spec(name@, phrase@, augment_per_recording, steps),
{
    let mut args: Vec<String> = Vec::new();
    args.push(owned("-m"));
    args.push(owned("horchd_train"));
    args.push(owned("--name"));
    args.push(owned(name));
    args.push(owned("--target-phrase"));
    args.push(owned(phrase));
    if let Some(n) = augment_per_recording {
        args.push(owned("--augment-per-recording"));
        args.push(decimal_string(n));
    }
    if let Some(s) = steps {
        args.push(owned("--steps"));
        args.push(decimal_string(s));
    }
    assert(args@.map_values(|a: String| a@) =~= train_args_spec(name@, phrase@, augment_per_recording, steps));
    args
}

/// Why training could not be started.
#[derive(Debug, Clone, Copy, PartialEq, Eq, Structural)]
pub enum TrainError {
    Name(NameError),
    Phrase(PhraseError),
}

/// What a training request checks before anything runs: the name, then
/// the phrase. Success gives the helper's arguments.
pub fn prepare_training(name: &str, target_phrase: &str, augment_per_recording: Option<u32>, steps: Option<u32>) -> (r: Result<(String, Vec<String>), TrainError>)
    ensures
        match r {
            Ok((n, args)) => sanitize_verdict(name@) == Ok::<Seq<char>, NameError>(n@)
                && phrase_verdict(target_phrase@) is Ok
                && args@.map_values(|a: String| a@) == train_args_spec(n@, phrase_verdict(target_phrase@)->Ok_0, augment_per_recording, steps),
            Err(TrainError::Name(e)) => sanitize_verdict(name@) == Err::<Seq<char>, NameError>(e),
            Err(TrainError::Phrase(e)) => sanitize_verdict(name@) is Ok
                && phrase_verdict(target_phrase@) == Err::<Seq<char>, PhraseError>(e),
        },
{
    let n = match sanitize_name(name) {
        Ok(n) => n,
        Err(e) => {
            return Err(TrainError::Name(e));
        },
    };
    let phrase = match check_phrase(target_phrase) {
        Ok(p) => p,
        Err(e) => {
            return Err(TrainError::Phrase(e));
        },
    };
    let args = train_args(n.as_str(), phrase, augment_per_recording, steps);
    Ok((n, args))
}

/// The model a finished training run leaves behind: `<models>/<name>.onnx`.
pub fn trained_model_path(models_dir: &str, name: &str) -> (p: String)
    ensures
        p@ == joined(models_dir@, name@ + ".onnx"@),
{
    let mut file = String::new();
    push_str(&mut file, name);
    push_str(&mut file, ".onnx");
    join(models_dir, file.as_str())
}

/// Whether `text` is one JSON value, as `serde_json` reads it.
pub uninterp spec fn is_json(text: Seq<char>) -> bool;

/// `serde_json::from_str::<serde_json::Value>(text).is_ok()`.
#[verifier::external_body]
fn parses_as_json(text: &str) -> (ok: bool)
    ensures
        ok == is_json(text@),
{
    serde_json::from_str::<serde_json::Value>(text).is_ok()
}

/// A line of helper output: a structured status report or a plain log line.
#[derive(Debug, Clone, PartialEq, Eq)]
pub enum TrainLine {
    /// The JSON text after the `##HORCHD ` marker.
    Status(String),
    Log(String),
}

/// The marker that introduces a status report.
pub open spec fn status_marker() -> Seq<char> {
    "##HORCHD "@
}

/// How a line is told apart, given whether the text after the marker is
/// JSON: a marked line with a JSON rest is a status report, anything else
/// a log line.
pub open spec fn line_kind(line: Seq<char>, rest_is_json: bool) -> (bool, Seq<char>) {
    if crate::text::has_prefix(line, status_marker()) && rest_is_json {
        (true, line.subrange(status_marker().len() as int, line.len() as int))
    } else {
        (false, line)
    }
}

pub open spec fn train_line_view(t: TrainLine) -> (bool, Seq<char>) {
    match t {
        TrainLine::Status(p) => (true, p@),
        TrainLine::Log(l) => (false, l@),
    }
}

/// Tell a line apart once it is known whether the text after the marker
/// (if any) parses as JSON.
pub fn line_event(line: &str, rest_is_json: bool) -> (t: TrainLine)
    ensures
        train_line_view(t) == line_kind(line@, rest_is_json),
{
    if rest_is_json && crate::text::starts_with(line, "##HORCHD ") {
        let n = line.unicode_len();
        proof {
            reveal_strlit("##HORCHD ");
        }
        TrainLine::Status(line.substring_char(9, n).to_owned())
    } else {
        TrainLine::Log(line.to_owned())
    }
}

/// Tell a line of helper output apart: `##HORCHD <json>` is a status
/// report, anything else is logged as is.
pub fn classify_line(line: &str) -> (t: TrainLine)
    ensures
        ({
            let marked = crate::text::has_prefix(line@, status_marker());
            let rest = line@.subrange(status_marker().len() as int, line@.len() as int);
            train_line_view(t) == line_kind(line@, marked && is_json(rest))
        }),
{
    proof {
        reveal_strlit("##HORCHD ");
    }
    if crate::text::starts_with(line, "##HORCHD ") {
        let n = line.unicode_len();
        let rest = line.substring_char(9, n);
        let ok = parses_as_json(rest);
        line_event(line, ok)
    } else {
        line_event(line, false)
    }
}

/// Arguments creating the training environment: `venv --python 3.12 <env>`.
pub fn venv_args(env_dir: &str) -> (args: Vec<String>)
    ensures
        args@.map_values(|a: String| a@) == seq!["venv"@, "--python"@, "3.12"@, env_dir@],
{
    let mut args: Vec<String> = Vec::new();
    args.push(owned("venv"));
    args.push(owned("--python"));
    args.push(owned("3.12"));
    args.push(owned(env_dir));
    assert(args@.map_values(|a: String| a@) =~= seq!["venv"@, "--python"@, "3.12"@, env_dir@]);
    args
}

/// Arguments installing the training helper into that environment:
/// `pip install --python <env> -e <package>`.
pub fn install_args(env_dir: &str, package_dir: &str) -> (args: Vec<String>)
    ensures
        args@.map_values(|a: String| a@) == seq!["pip"@, "install"@, "--python"@, env_dir@, "-e"@, package_dir@],
{
    let mut args: Vec<String> = Vec::new();
    args.push(owned("pip"));
    args.push(owned("install"));
    args.push(owned("--python"));
    args.push(owned(env_dir));
    args.push(owned("-e"));
    args.push(owned(package_dir));
    assert(args@.map_values(|a: String| a@) =~= seq!["pip"@, "install"@, "--python"@, env_dir@, "-e"@, package_dir@]);
    args
}

/// Why a model file picked in the front end cannot be imported.
#[derive(Debug, Clone, Copy, PartialEq, Eq, Structural)]
pub enum ImportSourceError {
    NotAbsolute,
    NotFound,
    NotOnnx,
}

/// The checks on a picked model file, in order: absolute, present, an
/// `.onnx` extension.
pub open spec fn import_source_verdict(path: Seq<char>, exists: bool) -> Result<(), ImportSourceError> {
    if !(path.len() > 0 && path[0] == '/') {
        Err(ImportSourceError::NotAbsolute)
    } else if !exists {
        Err(ImportSourceError::NotFound)
    } else if crate::paths::extension_spec(path) != Some("onnx"@) {
        Err(ImportSourceError::NotOnnx)
    } else {
        Ok(())
    }
}

/// Check a picked model file; `exists` says whether it is on disk.
pub fn check_import_source(path: &str, exists: bool) -> (r: Result<(), ImportSourceError>)
    ensures
        r == import_source_verdict(path@, exists),
{
    if !(path.unicode_len() > 0 && path.get_char(0) == '/') {
        return Err(ImportSourceError::NotAbsolute);
    }
    if !exists {
        return Err(ImportSourceError::NotFound);
    }
    if !crate::paths::has_extension(path, "onnx") {
        return Err(ImportSourceError::NotOnnx);
    }
    Ok(())
}

/// Samples stamped `k`.
pub open spec fn stamped(k: u64) -> spec_fn(TrainingSample) -> bool {
    |s: TrainingSample| s.ts_ms == k
}

/// Newest first.
pub open spec fn newest_first(s: Seq<TrainingSample>) -> bool {
    forall|i: int, j: int| 0 <= i < j < s.len() ==> (#[trigger] s[i]).ts_ms >= (#[trigger] s[j]).ts_ms
}

proof fn lemma_filter_none(s: Seq<TrainingSample>, k: u64)
    requires
        forall|i: int| 0 <= i < s.len() ==> (#[trigger] s[i]).ts_ms != k,
    ensures
        s.filter(stamped(k)) == Seq::<TrainingSample>::empty(),
    decreases s.len(),
{
    reveal(Seq::filter);
    if s.len() > 0 {
        lemma_filter_none(s.drop_last(), k);
        assert(s.last() == s[s.len() - 1]);
    }
}

proof fn lemma_filter_push(s: Seq<TrainingSample>, x: TrainingSample, k: u64)
    ensures
        s.push(x).filter(stamped(k)) == if x.ts_ms == k { s.filter(stamped(k)).push(x) } else { s.filter(stamped(k)) },
{
    reveal(Seq::filter);
    assert(s.push(x).drop_last() =~= s);
}

/// Order samples newest first; samples with the same timestamp keep
/// their order (`sort_by_key` with `Reverse(ts_ms)`, a stable sort).
pub fn sort_newest_first(v: Vec<TrainingSample>) -> (r: Vec<TrainingSample>)
    ensures
        newest_first(r@),
        forall|k: u64| #[trigger] r@.filter(stamped(k)) == v@.filter(stamped(k)),
{
    let mut r: Vec<TrainingSample> = Vec::new();
    let mut rest = v;
    let ghost orig = rest@;
    let ghost mut done: Seq<TrainingSample> = Seq::empty();
    assert(orig =~= done + rest@);
    while rest.len() > 0
        invariant
            orig == done + rest@,
            newest_first(r@),
            forall|k: u64| #[trigger] r@.filter(stamped(k)) == done.filter(stamped(k)),
        decreases rest@.len(),
    {
        let x = rest.remove(0);
        let mut p: usize = 0;
        while p < r.len() && r[p].ts_ms >= x.ts_ms
            invariant
                p <= r@.len(),
                forall|i: int| 0 <= i < p ==> (#[trigger] r@[i]).ts_ms >= x.ts_ms,
            decreases r@.len() - p,
        {
            p += 1;
        }
        let ghost before = r@;
        proof {
            assert forall|i: int| p <= i < before.len() implies (#[trigger] before[i]).ts_ms < x.ts_ms by {
                assert(before[p as int].ts_ms < x.ts_ms);
                if i > p {
                    assert(before[p as int].ts_ms >= before[i].ts_ms);
                }
            }
        }
        r.insert(p, x);
        proof {
            let a = before.subrange(0, p as int);
            let b = before.subrange(p as int, before.len() as int);
            assert(before =~= a + b);
            assert(r@ =~= a.push(x) + b);
            assert forall|i: int, j: int| 0 <= i < j < r@.len() implies (#[trigger] r@[i]).ts_ms >= (#[trigger] r@[j]).ts_ms by {
                if j < p {
                } else if j == p {
                    assert(r@[i] == before[i]);
                } else if i < p {
                    assert(r@[i] == before[i]);
                    assert(r@[j] == before[j - 1]);
                } else if i == p {
                    assert(r@[j] == before[j - 1]);
                } else {
                    assert(r@[i] == before[i - 1]);
                    assert(r@[j] == before[j - 1]);
                }
            }
            assert forall|k: u64| #[trigger] r@.filter(stamped(k)) == done.push(x).filter(stamped(k)) by {
                Seq::filter_distributes_over_add(a, b, stamped(k));
                Seq::filter_distributes_over_add(a.push(x), b, stamped(k));
                lemma_filter_push(a, x, k);
                lemma_filter_push(done, x, k);
                if x.ts_ms == k {
                    assert forall|i: int| 0 <= i < b.len() implies (#[trigger] b[i]).ts_ms != k by {
                        assert(b[i] == before[p + i]);
                    }
                    lemma_filter_none(b, k);
                    assert(b.filter(stamped(k)) + Seq::<TrainingSample>::empty() =~= b.filter(stamped(k)));
                    assert(a.filter(stamped(k)) + Seq::<TrainingSample>::empty() =~= a.filter(stamped(k)));
                    assert(a.filter(stamped(k)).push(x) + Seq::<TrainingSample>::empty() =~= a.filter(stamped(k)).push(x));
                }
                assert(before.filter(stamped(k)) == done.filter(stamped(k)));
            }
            assert(orig =~= done.push(x) + rest@);
            done = done.push(x);
        }
    }
    assert(done =~= orig);
    r
}

/// `a` sorts before or equal to `b`: character by character, a prefix
/// first (the order of `str`, since UTF-8 keeps code point order).
pub open spec fn name_le(a: Seq<char>, b: Seq<char>) -> bool
    decreases a.len(),
{
    if a.len() == 0 {
        true
    } else if b.len() == 0 {
        false
    } else if a[0] != b[0] {
        a[0] < b[0]
    } else {
        name_le(a.drop_first(), b.drop_first())
    }
}

proof fn lemma_name_le_total(a: Seq<char>, b: Seq<char>)
    ensures
        name_le(a, b) || name_le(b, a),
    decreases a.len(),
{
    if a.len() > 0 && b.len() > 0 && a[0] == b[0] {
        lemma_name_le_total(a.drop_first(), b.drop_first());
    }
}

proof fn lemma_name_le_trans(a: Seq<char>, b: Seq<char>, c: Seq<char>)
    requires
        name_le(a, b),
        name_le(b, c),
    ensures
        name_le(a, c),
    decreases a.len(),
{
    if a.len() > 0 && b.len() > 0 && c.len() > 0 && a[0] == b[0] && b[0] == c[0] {
        lemma_name_le_trans(a.drop_first(), b.drop_first(), c.drop_first());
    }
}

fn name_le_exec(a: &str, b: &str) -> (r: bool)
    ensures
        r == name_le(a@, b@),
{
    let n = a.unicode_len();
    let m = b.unicode_len();
    let mut i: usize = 0;
    assert(a@.subrange(0, n as int) =~= a@);
    assert(b@.subrange(0, m as int) =~= b@);
    while i < n && i < m && a.get_char(i) == b.get_char(i)
        invariant
            n == a@.len(),
            m == b@.len(),
            i <= n,
            i <= m,
            name_le(a@, b@) == name_le(a@.subrange(i as int, n as int), b@.subrange(i as int, m as int)),
        decreases n - i,
    {
        assert(a@.subrange(i as int, n as int).drop_first() =~= a@.subrange(i + 1, n as int));
        assert(b@.subrange(i as int, m as int).drop_first() =~= b@.subrange(i + 1, m as int));
        i += 1;
    }
    if i == n {
        return true;
    }
    if i == m {
        return false;
    }
    let ca = a.get_char(i);
    let cb = b.get_char(i);
    assert(a@.subrange(i as int, n as int)[0] == ca);
    assert(b@.subrange(i as int, m as int)[0] == cb);
    ca < cb
}

/// Words named `n`.
pub open spec fn named_word(n: Seq<char>) -> spec_fn(TrainingWord) -> bool {
    |w: TrainingWord| w.name@ == n
}

/// Ordered by name.
pub open spec fn by_name(s: Seq<TrainingWord>) -> bool {
    forall|i: int, j: int| 0 <= i < j < s.len() ==> name_le((#[trigger] s[i]).name@, (#[trigger] s[j]).name@)
}

proof fn lemma_word_filter_none(s: Seq<TrainingWord>, n: Seq<char>)
    requires
        forall|i: int| 0 <= i < s.len() ==> (#[trigger] s[i]).name@ != n,
    ensures
        s.filter(named_word(n)) == Seq::<TrainingWord>::empty(),
    decreases s.len(),
{
    reveal(Seq::filter);
    if s.len() > 0 {
        lemma_word_filter_none(s.drop_last(), n);
        assert(s.last() == s[s.len() - 1]);
    }
}

proof fn lemma_word_filter_push(s: Seq<TrainingWord>, x: TrainingWord, n: Seq<char>)
    ensures
        s.push(x).filter(named_word(n)) == if x.name@ == n { s.filter(named_word(n)).push(x) } else { s.filter(named_word(n)) },
{
    reveal(Seq::filter);
    assert(s.push(x).drop_last() =~= s);
}

/// Order words by name; words of the same name keep their order (a
/// stable sort by name).
pub fn sort_by_name(v: Vec<TrainingWord>) -> (r: Vec<TrainingWord>)
    ensures
        by_name(r@),
        forall|n: Seq<char>| #[trigger] r@.filter(named_word(n)) == v@.filter(named_word(n)),
{
    let mut r: Vec<TrainingWord> = Vec::new();
    let mut rest = v;
    let ghost orig = rest@;
    let ghost mut done: Seq<TrainingWord> = Seq::empty();
    assert(orig =~= done + rest@);
    while rest.len() > 0
        invariant
            orig == done + rest@,
            by_name(r@),
            forall|n: Seq<char>| #[trigger] r@.filter(named_word(n)) == done.filter(named_word(n)),
        decreases rest@.len(),
    {
        let x = rest.remove(0);
        let mut p: usize = 0;
        while p < r.len() && name_le_exec(r[p].name.as_str(), x.name.as_str())
            invariant
                p <= r@.len(),
                forall|i: int| 0 <= i < p ==> name_le((#[trigger] r@[i]).name@, x.name@),
            decreases r@.len() - p,
        {
            p += 1;
        }
        let ghost before = r@;
        proof {
            assert forall|i: int| p <= i < before.len() implies !name_le((#[trigger] before[i]).name@, x.name@) by {
                assert(!name_le(before[p as int].name@, x.name@));
                if i > p && name_le(before[i].name@, x.name@) {
                    assert(name_le(before[p as int].name@, before[i].name@));
                    lemma_name_le_trans(before[p as int].name@, before[i].name@, x.name@);
                }
            }
        }
        r.insert(p, x);
        proof {
            let a = before.subrange(0, p as int);
            let b = before.subrange(p as int, before.len() as int);
            assert(before =~= a + b);
            assert(r@ =~= a.push(x) + b);
            assert forall|i: int, j: int| 0 <= i < j < r@.len() implies name_le((#[trigger] r@[i]).name@, (#[trigger] r@[j]).name@) by {
                if j < p {
                } else if j == p {
                    assert(r@[i] == before[i]);
                } else if i < p {
                    assert(r@[i] == before[i]);
                    assert(r@[j] == before[j - 1]);
                } else if i == p {
                    assert(r@[j] == before[j - 1]);
                    lemma_name_le_total(x.name@, before[j - 1].name@);
                } else {
                    assert(r@[i] == before[i - 1]);
                    assert(r@[j] == before[j - 1]);
                }
            }
            assert forall|n: Seq<char>| #[trigger] r@.filter(named_word(n)) == done.push(x).filter(named_word(n)) by {
                Seq::filter_distributes_over_add(a, b, named_word(n));
                Seq::filter_distributes_over_add(a.push(x), b, named_word(n));
                lemma_word_filter_push(a, x, n);
                lemma_word_filter_push(done, x, n);
                if x.name@ == n {
                    assert forall|i: int| 0 <= i < b.len() implies (#[trigger] b[i]).name@ != n by {
                        assert(b[i] == before[p + i]);
                        lemma_name_le_total(x.name@, x.name@);
                    }
                    lemma_word_filter_none(b, n);
                    assert(a.filter(named_word(n)) + Seq::<TrainingWord>::empty() =~= a.filter(named_word(n)));
                    assert(a.filter(named_word(n)).push(x) + Seq::<TrainingWord>::empty() =~= a.filter(named_word(n)).push(x));
                }
                assert(before.filter(named_word(n)) == done.filter(named_word(n)));
            }
            assert(orig =~= done.push(x) + rest@);
            done = done.push(x);
        }
    }
    assert(done =~= orig);
    r
}

} // verus!
