//! Configuration data and the rules a configuration must satisfy.
//!
//! Reading the TOML file and expanding `~` in paths is the caller's part;
//! the threshold (a float) is carried as an opaque `Th`, and whether it
//! lies in `(0, 1]` is handed in by the caller.

use vstd::prelude::*;

use crate::framing::TARGET_SAMPLE_RATE;
use crate::paths::{join, joined};

verus! {

/// Longest cooldown a wakeword may have (60 s).
pub const MAX_COOLDOWN_MS: u32 = 60000;

/// Cooldown a wakeword gets when the configuration names none.
pub const DEFAULT_COOLDOWN_MS: u32 = 1500;

/// Whether a wakeword is enabled when the configuration does not say.
pub const DEFAULT_ENABLED: bool = true;

/// Paths of the two models every wakeword shares.
#[derive(Debug, Clone)]
pub struct SharedModels {
    pub melspectrogram: String,
    pub embedding: String,
}

/// The `[engine]` table.
#[derive(Debug, Clone)]
pub struct Engine {
    pub device: String,
    pub sample_rate: u32,
    pub log_level: String,
    pub shared_models: SharedModels,
}

impl Engine {
    /// The only sample rate the pipeline runs at.
    pub const DEFAULT_SAMPLE_RATE: u32 = 16000;

    /// Capture device when none is configured: the host default.
    pub fn default_device() -> (s: String)
        ensures
            s@ == "default"@,
    {
        "default".to_owned()
    }

    pub fn default_sample_rate() -> (r: u32)
        ensures
            r == TARGET_SAMPLE_RATE,
    {
        Self::DEFAULT_SAMPLE_RATE
    }

    /// Log filter when none is configured.
    pub fn default_log_level() -> (s: String)
        ensures
            s@ == "info"@,
    {
        "info".to_owned()
    }
}

/// One `[[wakeword]]` entry; the threshold type is left to the caller.
#[derive(Debug, Clone)]
pub struct Wakeword<Th> {
    pub name: String,
    pub model: String,
    pub threshold: Th,
    pub cooldown_ms: u32,
    pub enabled: bool,
}

/// A whole configuration.
#[derive(Debug, Clone)]
pub struct Config<Th> {
    pub engine: Engine,
    pub wakewords: Vec<Wakeword<Th>>,
}

/// What validation reads of one wakeword entry.
#[derive(Debug, Clone)]
pub struct WakewordCheck {
    pub name: String,
    /// The threshold lies in `(0, 1]` (a NaN does not).
    pub threshold_in_range: bool,
    pub cooldown_ms: u32,
    /// The model path is valid UTF-8.
    pub model_is_utf8: bool,
}

/// Why a configuration was refused.
#[derive(Debug, Clone, PartialEq, Eq)]
pub enum ConfigError {
    InvalidSampleRate { got: u32 },
    EmptyWakewordName,
    DuplicateWakeword(String),
    InvalidThreshold { name: String },
    InvalidCooldownMs { name: String, got: u32, max: u32 },
    NonUtf8ModelPath { name: String },
}

/// The abstract form of [`ConfigError`], names as character sequences.
pub ghost enum ConfigFault {
    InvalidSampleRate { got: u32 },
    EmptyWakewordName,
    DuplicateWakeword(Seq<char>),
    InvalidThreshold { name: Seq<char> },
    InvalidCooldownMs { name: Seq<char>, got: u32, max: u32 },
    NonUtf8ModelPath { name: Seq<char> },
}

impl View for ConfigError {
    type V = ConfigFault;

    open spec fn view(&self) -> ConfigFault {
        match self {
            ConfigError::InvalidSampleRate { got } => ConfigFault::InvalidSampleRate { got: *got },
            ConfigError::EmptyWakewordName => ConfigFault::EmptyWakewordName,
            ConfigError::DuplicateWakeword(n) => ConfigFault::DuplicateWakeword(n@),
            ConfigError::InvalidThreshold { name } => ConfigFault::InvalidThreshold { name: name@ },
            ConfigError::InvalidCooldownMs { name, got, max } => ConfigFault::InvalidCooldownMs {
                name: name@,
                got: *got,
                max: *max,
            },
            ConfigError::NonUtf8ModelPath { name } => ConfigFault::NonUtf8ModelPath { name: name@ },
        }
    }
}

/// Some entry before index `i` has the name `name`.
pub open spec fn name_seen_before(ws: Seq<WakewordCheck>, i: int, name: Seq<char>) -> bool {
    exists|j: int| 0 <= j < i && (#[trigger] ws[j]).name@ == name
}

/// Verdict on the entries from index `i` on: each entry is checked in
/// order for an empty name, a name already used, the threshold range,
/// the cooldown cap and the model path encoding; the first failure wins.
pub open spec fn wakewords_verdict(ws: Seq<WakewordCheck>, i: int) -> Option<ConfigFault>
    decreases ws.len() - i,
{
    if i < 0 || i >= ws.len() {
        None
    } else {
        let w = ws[i];
        if w.name@.len() == 0 {
            Some(ConfigFault::EmptyWakewordName)
        } else if name_seen_before(ws, i, w.name@) {
            Some(ConfigFault::DuplicateWakeword(w.name@))
        } else if !w.threshold_in_range {
            Some(ConfigFault::InvalidThreshold { name: w.name@ })
        } else if w.cooldown_ms > MAX_COOLDOWN_MS {
            Some(ConfigFault::InvalidCooldownMs { name: w.name@, got: w.cooldown_ms, max: MAX_COOLDOWN_MS })
        } else if !w.model_is_utf8 {
            Some(ConfigFault::NonUtf8ModelPath { name: w.name@ })
        } else {
            wakewords_verdict(ws, i + 1)
        }
    }
}

/// Verdict on a whole configuration: the sample rate first, then the
/// wakeword entries.
pub open spec fn config_verdict(sample_rate: u32, ws: Seq<WakewordCheck>) -> Option<ConfigFault> {
    if sample_rate != TARGET_SAMPLE_RATE {
        Some(ConfigFault::InvalidSampleRate { got: sample_rate })
    } else {
        wakewords_verdict(ws, 0)
    }
}

/// Validate a configuration.
pub fn validate_config(sample_rate: u32, wakewords: &Vec<WakewordCheck>) -> (r: Result<(), ConfigError>)
    ensures
        match r {
            Ok(()) => config_verdict(sample_rate, wakewords@) is None,
            Err(e) => config_verdict(sample_rate, wakewords@) == Some(e@),
        },
        r is Ok ==> sample_rate == 16000,
        sample_rate != 16000 ==> r == Err::<(), ConfigError>(ConfigError::InvalidSampleRate { got: sample_rate }),
{
    if sample_rate != TARGET_SAMPLE_RATE {
        return Err(ConfigError::InvalidSampleRate { got: sample_rate });
    }
    let mut i: usize = 0;
    while i < wakewords.len()
        invariant
            sample_rate == TARGET_SAMPLE_RATE,
            i <= wakewords@.len(),
            wakewords_verdict(wakewords@, 0) == wakewords_verdict(wakewords@, i as int),
        decreases wakewords@.len() - i,
    {
        let w = &wakewords[i];
        if w.name.as_str().is_empty() {
            return Err(ConfigError::EmptyWakewordName);
        }
        let mut j: usize = 0;
        while j < i
            invariant
                sample_rate == TARGET_SAMPLE_RATE,
                wakewords_verdict(wakewords@, 0) == wakewords_verdict(wakewords@, i as int),
                i < wakewords@.len(),
                j <= i,
                w == wakewords@[i as int],
                w.name@.len() > 0,
                forall|k: int| 0 <= k < j ==> wakewords@[k].name@ != w.name@,
            decreases i - j,
        {
            if wakewords[j].name == w.name {
                assert(name_seen_before(wakewords@, i as int, w.name@));
                return Err(ConfigError::DuplicateWakeword(w.name.clone()));
            }
            j += 1;
        }
        if !w.threshold_in_range {
            return Err(ConfigError::InvalidThreshold { name: w.name.clone() });
        }
        if w.cooldown_ms > MAX_COOLDOWN_MS {
            return Err(ConfigError::InvalidCooldownMs {
                name: w.name.clone(),
                got: w.cooldown_ms,
                max: MAX_COOLDOWN_MS,
            });
        }
        if !w.model_is_utf8 {
            return Err(ConfigError::NonUtf8ModelPath { name: w.name.clone() });
        }
        i += 1;
    }
    Ok(())
}

/// A cooldown above the cap.
#[derive(Debug, Clone, Copy, PartialEq, Eq, Structural)]
pub struct CooldownTooLong {
    pub got: u32,
    pub max: u32,
}

/// Refuse a cooldown above [`MAX_COOLDOWN_MS`].
pub fn validate_cooldown(ms: u32) -> (r: Result<(), CooldownTooLong>)
    ensures
        r is Ok <==> ms <= MAX_COOLDOWN_MS,
        r is Err ==> r == Err::<(), CooldownTooLong>(CooldownTooLong { got: ms, max: MAX_COOLDOWN_MS }),
{
    if ms > MAX_COOLDOWN_MS {
        return Err(CooldownTooLong { got: ms, max: MAX_COOLDOWN_MS });
    }
    Ok(())
}

/// The pipeline runs at 16 kHz only: a configuration passes validation
/// only at that rate, and any other rate is refused as such, before any
/// wakeword entry is looked at.
pub proof fn law_config_needs_pipeline_rate(sample_rate: u32, ws: Seq<WakewordCheck>)
    ensures
        config_verdict(sample_rate, ws) is None ==> sample_rate == 16000,
        sample_rate != 16000 ==> config_verdict(sample_rate, ws) == Some(ConfigFault::InvalidSampleRate { got: sample_rate }),
{
}

/// A configuration that passes validation has no two wakewords with the
/// same name and no empty name.
pub proof fn law_valid_config_names_unique(sample_rate: u32, ws: Seq<WakewordCheck>)
    requires
        config_verdict(sample_rate, ws) is None,
    ensures
        forall|i: int, j: int| 0 <= i < j < ws.len() ==> ws[i].name@ != ws[j].name@,
        forall|i: int| 0 <= i < ws.len() ==> ws[i].name@.len() > 0,
        forall|i: int| 0 <= i < ws.len() ==> ws[i].cooldown_ms <= MAX_COOLDOWN_MS && ws[i].threshold_in_range,
{
    assert forall|k: int| 0 <= k <= ws.len() implies wakewords_verdict(ws, k) is None by {
        lemma_verdict_none_suffix(ws, k);
    }
    assert forall|i: int, j: int| 0 <= i < j < ws.len() implies ws[i].name@ != ws[j].name@ by {
        lemma_verdict_none_suffix(ws, j);
        if ws[i].name@ == ws[j].name@ {
            assert(name_seen_before(ws, j, ws[j].name@));
        }
    }
    assert forall|i: int| 0 <= i < ws.len() implies ws[i].name@.len() > 0 by {
        lemma_verdict_none_suffix(ws, i);
    }
    assert forall|i: int| 0 <= i < ws.len() implies ws[i].cooldown_ms <= MAX_COOLDOWN_MS && ws[i].threshold_in_range by {
        lemma_verdict_none_suffix(ws, i);
    }
}

proof fn lemma_verdict_none_suffix(ws: Seq<WakewordCheck>, k: int)
    requires
        wakewords_verdict(ws, 0) is None,
        0 <= k <= ws.len(),
    ensures
        wakewords_verdict(ws, k) is None,
    decreases k,
{
    if k > 0 {
        lemma_verdict_none_suffix(ws, k - 1);
    }
}

/// Where the configuration lives by default:
/// `$XDG_CONFIG_HOME/horchd/config.toml`, else
/// `$HOME/.config/horchd/config.toml` (an unset `HOME` counting as empty).
pub fn default_config_path(xdg_config_home: Option<&str>, home: Option<&str>) -> (p: String)
    ensures
        p@ == joined(joined(
            match xdg_config_home {
                Some(x) => x@,
                None => joined(
                    match home {
                        Some(h) => h@,
                        None => Seq::empty(),
                    },
                    ".config"@,
                ),
            },
            "horchd"@,
        ), "config.toml"@),
{
    let base = match xdg_config_home {
        Some(x) => x.to_owned(),
        None => {
            let h = match home {
                Some(h) => h,
                None => "",
            };
            proof {
                reveal_strlit("");
            }
            join(h, ".config")
        },
    };
    let dir = join(base.as_str(), "horchd");
    join(dir.as_str(), "config.toml")
}

/// `shellexpand::tilde_with_context` on Unix: a path that is `~` or
/// starts with `~/` gets the home directory in place of the `~` when one
/// is known; any other path, or any path when none is known, is kept.
pub open spec fn tilde_with(s: Seq<char>, home: Option<Seq<char>>) -> Seq<char> {
    if crate::service::tilde_form(s) {
        match home {
            Some(h) => h + s.drop_first(),
            None => s,
        }
    } else {
        s
    }
}

pub open spec fn opt_str_view(o: Option<&str>) -> Option<Seq<char>> {
    match o {
        Some(s) => Some(s@),
        None => None,
    }
}

/// `shellexpand::tilde_with_context(s, || home)`.
#[verifier::external_body]
pub(crate) fn tilde_with_home(s: &str, home: Option<&str>) -> (r: String)
    ensures
        r@ == tilde_with(s@, opt_str_view(home)),
{
    shellexpand::tilde_with_context(s, || home).into_owned()
}

/// `shellexpand::tilde("~")`: the home directory the process sees, or
/// `~` itself when none is known. It comes from the environment, so
/// nothing is stated of it.
#[verifier::external_body]
pub(crate) fn tilde_home() -> (r: String) {
    shellexpand::tilde("~").into_owned()
}

/// `c1` is `c0` with every model path (the shared models and each
/// wakeword's model) expanded against `home`, and nothing else changed.
pub open spec fn paths_expanded<Th>(c0: Config<Th>, c1: Config<Th>, home: Option<Seq<char>>) -> bool {
    &&& c1.engine.shared_models.melspectrogram@ == tilde_with(c0.engine.shared_models.melspectrogram@, home)
    &&& c1.engine.shared_models.embedding@ == tilde_with(c0.engine.shared_models.embedding@, home)
    &&& c1.engine.device == c0.engine.device
    &&& c1.engine.sample_rate == c0.engine.sample_rate
    &&& c1.engine.log_level == c0.engine.log_level
    &&& c1.wakewords@.len() == c0.wakewords@.len()
    &&& forall|i: int| 0 <= i < c0.wakewords@.len() ==> {
        let w0 = #[trigger] c0.wakewords@[i];
        let w1 = c1.wakewords@[i];
        &&& w1.model@ == tilde_with(w0.model@, home)
        &&& w1.name == w0.name
        &&& w1.threshold == w0.threshold
        &&& w1.cooldown_ms == w0.cooldown_ms
        &&& w1.enabled == w0.enabled
    }
}

impl<Th> Config<Th> {
    /// Expand `~` in the model paths against the home directory `home`
    /// (`None`: none is known, nothing changes); only `~` is expanded,
    /// never `$VAR`.
    pub fn expand_paths_with(&mut self, home: Option<&str>)
        ensures
            paths_expanded(*old(self), *final(self), opt_str_view(home)),
    {
        self.engine.shared_models.melspectrogram = tilde_with_home(self.engine.shared_models.melspectrogram.as_str(), home);
        self.engine.shared_models.embedding = tilde_with_home(self.engine.shared_models.embedding.as_str(), home);
        let n = self.wakewords.len();
        let ghost orig = self.wakewords@;
        let ghost engine = self.engine;
        let ghost hv = opt_str_view(home);
        let mut i: usize = 0;
        while i < n
            invariant
                self.engine == engine,
                hv == opt_str_view(home),
                n == orig.len(),
                i <= n,
                self.wakewords@.len() == n,
                forall|k: int| i <= k < n ==> self.wakewords@[k] == orig[k],
                forall|k: int| 0 <= k < i ==> {
                    let w0 = #[trigger] orig[k];
                    let w1 = self.wakewords@[k];
                    &&& w1.model@ == tilde_with(w0.model@, hv)
                    &&& w1.name == w0.name
                    &&& w1.threshold == w0.threshold
                    &&& w1.cooldown_ms == w0.cooldown_ms
                    &&& w1.enabled == w0.enabled
                },
            decreases n - i,
        {
            let mut w = self.wakewords.remove(i);
            w.model = tilde_with_home(w.model.as_str(), home);
            self.wakewords.insert(i, w);
            i += 1;
        }
    }

    /// Expand `~` in the model paths (the shared models and every
    /// wakeword's model) against the home directory the process sees;
    /// only `~` is expanded, never `$VAR`. All paths are expanded against
    /// the same directory; when none is known, `~` itself stands for it,
    /// which leaves every path as it was.
    pub fn expand_paths(&mut self)
        ensures
            exists|home: Seq<char>| paths_expanded(*old(self), *final(self), Some(home)),
    {
        let h = tilde_home();
        self.expand_paths_with(Some(h.as_str()));
    }
}

} // verus!
