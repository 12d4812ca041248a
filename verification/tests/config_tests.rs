use horchd::config::{validate_config, ConfigError, Engine, Wakeword, WakewordCheck, MAX_COOLDOWN_MS};
use horchd::detector::Detector;
use horchd::inference::{
    check_classifier_shape, dim_matches, embedding_start, mel_frame_count, History, CLASSIFIER_WINDOW, EMBEDDING_DIM,
    EMBEDDING_WINDOW, MEL_BUFFER_FRAMES, MEL_HOP_SAMPLES, MEL_OVERLAP_SAMPLES, RAW_BUFFER_SAMPLES,
};
use horchd::framing::FRAME_SAMPLES;
use horchd::persist::{remove_wakeword, PersistError};
use horchd::reload::{apply_reload_plan, build_reload_plan, Named};

fn check(name: &str, threshold: f64, cooldown_ms: u32) -> WakewordCheck {
    WakewordCheck {
        name: name.into(),
        threshold_in_range: threshold > 0.0 && threshold <= 1.0,
        cooldown_ms,
        model_is_utf8: true,
    }
}

#[test]
fn config_parses_full_config_with_defaults() {
    assert_eq!(Engine::default_device(), "default");
    assert_eq!(Engine::default_sample_rate(), 16_000);
    assert_eq!(Engine::default_log_level(), "info");
    let ws = vec![check("alexa", 0.45, 1200), check("jarvis", 0.5, 1500)];
    assert!(validate_config(16_000, &ws).is_ok());
}

#[test]
fn config_rejects_duplicate_wakeword_names() {
    let ws = vec![check("alexa", 0.45, 1200), check("jarvis", 0.5, 1500), check("alexa", 0.5, 1500)];
    let err = validate_config(16_000, &ws).unwrap_err();
    assert!(matches!(err, ConfigError::DuplicateWakeword(name) if name == "alexa"));
}

#[test]
fn config_rejects_empty_wakeword_name() {
    let err = validate_config(16_000, &vec![check("", 0.5, 1500)]).unwrap_err();
    assert!(matches!(err, ConfigError::EmptyWakewordName));
}

#[test]
fn rejects_non_16k_sample_rate() {
    let err = validate_config(48_000, &vec![]).unwrap_err();
    assert!(matches!(err, ConfigError::InvalidSampleRate { got: 48000 }));
}

#[test]
fn rejects_threshold_out_of_range() {
    for bad_value in [1.5, 0.0, -0.1, f64::NAN] {
        let err = validate_config(16_000, &vec![check("x", bad_value, 1500)]).unwrap_err();
        assert!(matches!(err, ConfigError::InvalidThreshold { .. }), "expected InvalidThreshold for {bad_value}, got {err:?}");
    }
}

#[test]
fn rejects_cooldown_above_cap() {
    let err = validate_config(16_000, &vec![check("x", 0.5, 600_000)]).unwrap_err();
    assert!(matches!(err, ConfigError::InvalidCooldownMs { got: 600_000, .. }));
    assert!(validate_config(16_000, &vec![check("x", 0.5, MAX_COOLDOWN_MS)]).is_ok());
}

#[test]
fn accepts_threshold_at_upper_bound() {
    assert!(validate_config(16_000, &vec![check("x", 1.0, 1500)]).is_ok());
}

#[test]
fn rejects_non_utf8_model_path() {
    let mut w = check("x", 0.5, 1500);
    w.model_is_utf8 = false;
    assert!(matches!(validate_config(16_000, &vec![w]).unwrap_err(), ConfigError::NonUtf8ModelPath { .. }));
}

#[test]
fn constants_are_self_consistent() {
    assert!(MEL_HOP_SAMPLES * 3 == MEL_OVERLAP_SAMPLES);
    assert!(FRAME_SAMPLES + MEL_OVERLAP_SAMPLES == RAW_BUFFER_SAMPLES);
    assert!(EMBEDDING_WINDOW == 76);
    assert!(EMBEDDING_WINDOW <= MEL_BUFFER_FRAMES);
}

#[test]
fn classifier_shapes() {
    assert!(dim_matches(-1, 16));
    assert!(dim_matches(0, 16));
    assert!(dim_matches(16, 16));
    assert!(!dim_matches(15, 16));
    assert!(check_classifier_shape(&vec![-1, CLASSIFIER_WINDOW as i64, EMBEDDING_DIM as i64], &vec![-1, 1]));
    assert!(!check_classifier_shape(&vec![1, 16, 95], &vec![1, 1]));
    assert!(!check_classifier_shape(&vec![1, 16, 96], &vec![1, 2]));
    assert!(!check_classifier_shape(&vec![16, 96], &vec![1, 1]));
    assert_eq!(mel_frame_count(64), Some(2));
    assert_eq!(mel_frame_count(65), None);
    assert_eq!(embedding_start(76), Some(0));
    assert_eq!(embedding_start(100), Some(24));
    assert_eq!(embedding_start(75), None);
}

#[test]
fn history_keeps_the_most_recent() {
    let mut h: History<u32> = History::new(3);
    for x in 1..=5 {
        h.push(x);
    }
    assert_eq!(h.items(), &vec![3, 4, 5]);
    assert_eq!(h.len(), 3);
}

fn wake(name: &str, model: &str, threshold: f64) -> Wakeword<f64> {
    Wakeword { name: name.into(), model: model.into(), threshold, cooldown_ms: 1500, enabled: true }
}

#[test]
fn build_reload_plan_classifies_changes() {
    let old = vec![wake("a", "/a.onnx", 0.5), wake("b", "/b.onnx", 0.5)];
    let new = vec![
        wake("a", "/a-new.onnx", 0.5), // model changed
        wake("b", "/b.onnx", 0.7),     // threshold changed
        wake("c", "/c.onnx", 0.5),     // added
    ];
    let plan = build_reload_plan(&old, &new);
    assert_eq!(plan.added.iter().map(|&i| &new[i].name).collect::<Vec<_>>(), vec!["c"]);
    assert_eq!(plan.model_changed.iter().map(|&i| &new[i].name).collect::<Vec<_>>(), vec!["a"]);
    assert_eq!(plan.updated.iter().map(|&i| &new[i].name).collect::<Vec<_>>(), vec!["b"]);
    assert!(plan.removed.is_empty());
}

#[test]
fn build_reload_plan_detects_removals() {
    let old = vec![wake("a", "/a.onnx", 0.5), wake("b", "/b.onnx", 0.5)];
    let new = vec![wake("a", "/a.onnx", 0.5)];
    let plan = build_reload_plan(&old, &new);
    assert_eq!(plan.removed.iter().map(|&j| old[j].name.clone()).collect::<Vec<_>>(), vec!["b"]);
    assert!(plan.added.is_empty());
    assert!(plan.model_changed.is_empty());
    assert_eq!(plan.updated.iter().map(|&i| &new[i].name).collect::<Vec<_>>(), vec!["a"]);
}

#[test]
fn reload_plan_compares_paths_by_component() {
    let old = vec![wake("a", "/m//a.onnx", 0.5)];
    let new = vec![wake("a", "/m/./a.onnx", 0.5)];
    let plan = build_reload_plan(&old, &new);
    assert_eq!(plan.updated, vec![0]);
}

#[test]
fn apply_reload_plan_reconciles() {
    let old = vec![wake("a", "/a.onnx", 0.5), wake("b", "/b.onnx", 0.5), wake("d", "/d.onnx", 0.5)];
    let new = vec![wake("a", "/a-new.onnx", 0.5), wake("b", "/b.onnx", 0.7), wake("c", "/c.onnx", 0.6)];
    let mut detectors: Vec<Detector<f64>> =
        old.iter().map(|w| Detector::new(w.name.clone(), w.threshold, w.cooldown_ms, w.enabled)).collect();
    // "b" is mid-detection; retuning keeps that.
    assert!(detectors[1].update(true, 0).is_some());
    let mut classifiers: Vec<Named<u32>> =
        old.iter().enumerate().map(|(i, w)| Named { name: w.name.clone(), item: i as u32 }).collect();
    let plan = build_reload_plan(&old, &new);
    let loaded = vec![Named { name: "c".to_string(), item: 30 }, Named { name: "a".to_string(), item: 10 }];
    apply_reload_plan(&mut detectors, &mut classifiers, &plan, loaded, &old, &new);
    let names: Vec<&str> = detectors.iter().map(|d| d.name.as_str()).collect();
    assert_eq!(names, vec!["b", "a", "c"]);
    assert_eq!(detectors[0].threshold, 0.7);
    assert!(!detectors[0].update(true, 10_000_000_000).is_some(), "b kept its was-above state");
    assert_eq!(detectors[2].threshold, 0.6);
    let items: Vec<(String, u32)> = classifiers.iter().map(|c| (c.name.clone(), c.item)).collect();
    assert_eq!(items, vec![("b".to_string(), 1), ("a".to_string(), 10), ("c".to_string(), 30)]);
}

#[test]
fn apply_reload_plan_skips_missing_classifier() {
    let old = vec![wake("a", "/a.onnx", 0.5)];
    let new = vec![wake("a", "/a2.onnx", 0.5)];
    let mut detectors = vec![Detector::new("a".to_string(), 0.5f64, 1500, true)];
    let mut classifiers = vec![Named { name: "a".to_string(), item: 1u8 }];
    let plan = build_reload_plan(&old, &new);
    apply_reload_plan(&mut detectors, &mut classifiers, &plan, vec![], &old, &new);
    assert_eq!(detectors.len(), 1);
    assert_eq!(classifiers[0].item, 1);
}

const SAMPLE: &str = r#"# top-of-file comment
[engine]
device = "default"          # mic device
sample_rate = 16000

[engine.shared_models]
melspectrogram = "/m.onnx"
embedding = "/e.onnx"

# a custom wakeword
[[wakeword]]
name = "alexa"
model = "/alexa.onnx"
threshold = 0.45
cooldown_ms = 1500

[[wakeword]]
name = "jarvis"
model = "/jarvis.onnx"
threshold = 0.7
"#;

#[test]
fn remove_drops_block() {
    let after = remove_wakeword(SAMPLE, "jarvis").unwrap();
    assert!(!after.contains("jarvis"));
    assert!(after.contains("alexa"));
    assert!(after.contains("# top-of-file comment"));
    assert!(after.contains("# mic device"));
}

#[test]
fn remove_reports_missing_and_malformed() {
    assert_eq!(remove_wakeword(SAMPLE, "wetter"), Err(PersistError::NotFound("wetter".into())));
    assert_eq!(remove_wakeword("[engine\n", "x"), Err(PersistError::Parse));
    assert_eq!(remove_wakeword("wakeword = 3\n", "x"), Err(PersistError::NotArray));
    assert_eq!(remove_wakeword("", "x"), Err(PersistError::NotFound("x".into())));
}

#[test]
fn remove_first_of_two_and_keep_order() {
    let after = remove_wakeword(SAMPLE, "alexa").unwrap();
    assert!(!after.contains("alexa"));
    let again = remove_wakeword(&after, "jarvis").unwrap();
    assert!(!again.contains("[[wakeword]]"));
    assert!(again.contains("[engine]"));
}

#[test]
fn set_enabled_round_trips() {
    let after = horchd::persist::set_enabled(SAMPLE, "alexa", false).unwrap();
    assert!(after.contains("enabled = false"));
    assert!(after.contains("# a custom wakeword"));
    assert_eq!(horchd::persist::set_enabled(SAMPLE, "nope", true), Err(PersistError::NotFound("nope".into())));
}

#[test]
fn set_cooldown_round_trips() {
    let after = horchd::persist::set_cooldown_ms(SAMPLE, "jarvis", 500).unwrap();
    assert!(after.contains("cooldown_ms = 500"));
    assert!(after.contains("# top-of-file comment"));
}

#[test]
fn set_engine_device_preserves_top_of_file_comment() {
    let after = horchd::persist::set_engine_device(SAMPLE, "hw:CARD=USB").unwrap();
    assert!(after.contains("# top-of-file comment"));
    assert!(after.contains("device = \"hw:CARD=USB\""));
    assert!(after.contains("name = \"jarvis\""));
}

#[test]
fn set_engine_device_needs_engine_table() {
    assert_eq!(
        horchd::persist::set_engine_device("[wyoming]\nenabled = true\n", "x"),
        Err(PersistError::NoEngineTable)
    );
    assert_eq!(horchd::persist::set_engine_device("engine = 1\n", "x"), Err(PersistError::NoEngineTable));
    assert_eq!(horchd::persist::set_engine_device("[engine\n", "x"), Err(PersistError::Parse));
}

#[test]
fn set_wyoming_enabled_creates_missing_table() {
    let after = horchd::persist::set_wyoming_enabled(SAMPLE, true).unwrap();
    assert!(after.contains("[wyoming]"));
    assert!(after.contains("enabled = true"));
    assert!(after.contains("# a custom wakeword"));
    let again = horchd::persist::set_wyoming_enabled(&after, false).unwrap();
    assert!(again.contains("enabled = false"));
    assert!(!again.contains("enabled = true"));
}

#[test]
fn set_wyoming_enabled_refuses_non_table() {
    assert_eq!(
        horchd::persist::set_wyoming_enabled("wyoming = \"yes\"\n", true),
        Err(PersistError::WyomingNotTable)
    );
}

fn entry(name: &str, model: &str, threshold: Option<f64>, cooldown_ms: u32, enabled: bool) -> horchd::config::Wakeword<Option<toml_edit::Value>> {
    horchd::config::Wakeword {
        name: name.into(),
        model: model.into(),
        threshold: threshold.map(toml_edit::Value::from),
        cooldown_ms,
        enabled,
    }
}

#[test]
fn add_appends_new_block() {
    let after = horchd::persist::add_wakeword(SAMPLE, entry("wetter", "/wetter.onnx", Some(0.6), 2000, true)).unwrap();
    assert!(after.contains(r#"name = "wetter""#));
    assert!(after.contains("threshold = 0.6"));
    assert!(after.contains("cooldown_ms = 2000"));
    // The default `enabled = true` is left out.
    assert!(!after.split("[[wakeword]]").last().unwrap().contains("enabled"));
}

#[test]
fn add_rejects_duplicate_name() {
    let err = horchd::persist::add_wakeword(SAMPLE, entry("alexa", "/x.onnx", None, 1500, true)).unwrap_err();
    assert_eq!(err, PersistError::AlreadyExists("alexa".into()));
}

#[test]
fn add_then_remove_round_trips_to_subset_of_original() {
    let added = horchd::persist::add_wakeword(SAMPLE, entry("wetter", "/wetter.onnx", None, 1500, true)).unwrap();
    let after = remove_wakeword(&added, "wetter").unwrap();
    assert!(!after.contains("wetter"));
    assert!(after.contains("alexa"));
    assert!(after.contains("jarvis"));
    assert!(after.contains("# top-of-file comment"));
    assert!(after.contains("# a custom wakeword"));
}

#[test]
fn add_writes_non_default_fields_only() {
    let after = horchd::persist::add_wakeword("", entry("hey", "/hey.onnx", None, 1500, false)).unwrap();
    assert!(after.contains("[[wakeword]]"));
    assert!(after.contains("name = \"hey\""));
    assert!(after.contains("model = \"/hey.onnx\""));
    assert!(after.contains("enabled = false"));
    assert!(!after.contains("threshold"));
    assert!(!after.contains("cooldown_ms"));
    assert_eq!(
        horchd::persist::add_wakeword("wakeword = 1\n", entry("hey", "/hey.onnx", None, 1500, true)),
        Err(PersistError::NotArray)
    );
}

fn tilde_config() -> horchd::config::Config<f64> {
    horchd::config::Config {
        engine: Engine {
            device: "default".into(),
            sample_rate: 16000,
            log_level: "info".into(),
            shared_models: horchd::config::SharedModels {
                melspectrogram: "~/models/mel.onnx".into(),
                embedding: "/abs/emb.onnx".into(),
            },
        },
        wakewords: vec![
            Wakeword { name: "alexa".into(), model: "~".into(), threshold: 0.5, cooldown_ms: 1500, enabled: true },
            Wakeword { name: "jarvis".into(), model: "~bob/j.onnx".into(), threshold: 0.7, cooldown_ms: 900, enabled: false },
            Wakeword { name: "hey".into(), model: "$HOME/h.onnx".into(), threshold: 0.6, cooldown_ms: 1500, enabled: true },
        ],
    }
}

#[test]
fn expand_paths_with_home_replaces_leading_tilde() {
    let mut c = tilde_config();
    c.expand_paths_with(Some("/home/u"));
    assert_eq!(c.engine.shared_models.melspectrogram, "/home/u/models/mel.onnx");
    assert_eq!(c.engine.shared_models.embedding, "/abs/emb.onnx");
    assert_eq!(c.wakewords[0].model, "/home/u");
    assert_eq!(c.wakewords[1].model, "~bob/j.onnx");
    assert_eq!(c.wakewords[2].model, "$HOME/h.onnx");
    assert_eq!(c.wakewords[1].cooldown_ms, 900);
    assert_eq!(c.engine.device, "default");
}

#[test]
fn expand_paths_with_no_home_keeps_paths() {
    let mut c = tilde_config();
    c.expand_paths_with(None);
    assert_eq!(c.engine.shared_models.melspectrogram, "~/models/mel.onnx");
    assert_eq!(c.wakewords[0].model, "~");
}

#[test]
fn expand_paths_uses_one_home_for_all_paths() {
    let mut c = tilde_config();
    c.expand_paths();
    let mel = c.engine.shared_models.melspectrogram.clone();
    let home = mel.strip_suffix("/models/mel.onnx").unwrap().to_string();
    assert_eq!(c.wakewords[0].model, home);
    assert_eq!(c.wakewords[1].model, "~bob/j.onnx");
    assert_eq!(c.engine.shared_models.embedding, "/abs/emb.onnx");
}

#[test]
fn set_threshold_preserves_comments_and_formatting() {
    let after = horchd::persist::set_threshold(SAMPLE, "alexa", toml_edit::Value::from(0.55)).unwrap();
    assert!(after.contains("# top-of-file comment"));
    assert!(after.contains("# a custom wakeword"));
    assert!(after.contains("# mic device"));
    assert!(after.contains("threshold = 0.55"));
    assert!(after.contains("name = \"jarvis\""));
    assert!(after.contains("threshold = 0.7"));
    assert_eq!(
        horchd::persist::set_threshold(SAMPLE, "nope", toml_edit::Value::from(0.5)),
        Err(PersistError::NotFound("nope".into()))
    );
}
