use horchd::paths::{path_components, PathComponent};
use horchd::config::{default_config_path, Wakeword};
use horchd::import::{column_width, next_backoff_ms, stage_decision, Staging, MAX_BACKOFF_MS};
use horchd::reload::Named;
use horchd::service::{admit_wakeword_with, check_under_models_dir, expand_model_path, expand_model_path_with, AddRefusal, AlreadyExists, ModelPathError, Registry, UnknownWakeword};
use horchd::session::{serve_mode_supported, WyomingMode};
use horchd::config::CooldownTooLong;
use horchd::names::NameError;
use horchd::training::{check_import_source, install_args, sort_newest_first, venv_args, ImportSourceError, TrainingSample};
use horchd::uri::{tcp_listeners, ListenAddr};

fn wake(name: &str, threshold: f64) -> Wakeword<f64> {
    Wakeword { name: name.into(), model: format!("/m/{name}.onnx"), threshold, cooldown_ms: 1500, enabled: true }
}

fn registry() -> Registry<f64, u32> {
    Registry { wakewords: Vec::new(), detectors: Vec::new(), classifiers: Vec::new() }
}

#[test]
fn registry_add_remove_round_trip() {
    let mut r = registry();
    r.add(wake("alexa", 0.5), 1).unwrap();
    r.add(wake("jarvis", 0.6), 2).unwrap();
    assert_eq!(r.add(wake("alexa", 0.9), 3), Err(AlreadyExists("alexa".into())));
    assert!(r.contains("jarvis"));
    r.remove("jarvis").unwrap();
    assert!(!r.contains("jarvis"));
    assert_eq!(r.remove("jarvis"), Err(UnknownWakeword("jarvis".into())));
    assert_eq!(r.wakewords.len(), 1);
    assert_eq!(r.detectors.len(), 1);
    assert_eq!(r.classifiers.iter().map(|c: &Named<u32>| c.item).collect::<Vec<_>>(), vec![1]);
}

#[test]
fn registry_retune_keeps_detection_state() {
    let mut r = registry();
    r.add(wake("alexa", 0.5), 1).unwrap();
    assert!(r.detectors[0].update(true, 0).is_some());
    r.retune("alexa", 0.8, 0, true).unwrap();
    assert_eq!(r.detectors[0].threshold, 0.8);
    assert_eq!(r.wakewords[0].threshold, 0.8);
    assert_eq!(r.wakewords[0].cooldown_ms, 0);
    // Still above threshold from before: no new rising edge.
    assert!(r.detectors[0].update(true, 5).is_none());
    assert_eq!(r.retune("nope", 0.1, 0, false), Err(UnknownWakeword("nope".into())));
}

#[test]
fn model_path_rules() {
    assert_eq!(expand_model_path("/m/a.onnx").unwrap(), "/m/a.onnx");
    assert_eq!(expand_model_path("rel/a.onnx"), Err(ModelPathError::NotAbsolute("rel/a.onnx".into())));
    assert!(check_under_models_dir("/home/u/models/a.onnx", "/home/u/models").is_ok());
    assert_eq!(check_under_models_dir("/etc/passwd", "/home/u/models"), Err(ModelPathError::OutsideModelsDir));
}

#[test]
fn staging_and_listing_helpers() {
    assert_eq!(stage_decision(false, false, false, false, false), Staging::Missing);
    assert_eq!(stage_decision(true, false, false, false, false), Staging::NotAFile);
    assert_eq!(stage_decision(true, true, true, true, false), Staging::AlreadyInPlace);
    assert_eq!(stage_decision(true, true, false, true, false), Staging::KeepExisting);
    assert_eq!(stage_decision(true, true, false, true, true), Staging::Copy);
    assert_eq!(column_width(&vec!["ab".into(), "abcdef".into()], 4), 6);
    assert_eq!(column_width(&vec![], 4), 4);
    assert_eq!(column_width(&vec!["é".into()], 1), 2);
    assert_eq!(next_backoff_ms(500), 1000);
    assert_eq!(next_backoff_ms(8000), MAX_BACKOFF_MS);
    assert_eq!(next_backoff_ms(MAX_BACKOFF_MS), MAX_BACKOFF_MS);
}

#[test]
fn server_modes_and_listeners() {
    assert!(serve_mode_supported(WyomingMode::LocalMic));
    assert!(serve_mode_supported(WyomingMode::WyomingServer));
    assert!(serve_mode_supported(WyomingMode::Hybrid));
    let addrs = vec![ListenAddr::Stdio, ListenAddr::Tcp("0.0.0.0:10400".into()), ListenAddr::Unix("/s".into())];
    assert_eq!(tcp_listeners(&addrs), vec!["0.0.0.0:10400".to_string()]);
    assert!(tcp_listeners(&vec![ListenAddr::Stdio]).is_empty());
}

#[test]
fn setup_and_import_helpers() {
    assert_eq!(venv_args("/e"), vec!["venv", "--python", "3.12", "/e"]);
    assert_eq!(install_args("/e", "/p"), vec!["pip", "install", "--python", "/e", "-e", "/p"]);
    assert_eq!(check_import_source("/a/m.onnx", true), Ok(()));
    assert_eq!(check_import_source("a/m.onnx", true), Err(ImportSourceError::NotAbsolute));
    assert_eq!(check_import_source("/a/m.onnx", false), Err(ImportSourceError::NotFound));
    assert_eq!(check_import_source("/a/m.tflite", true), Err(ImportSourceError::NotOnnx));
    assert_eq!(default_config_path(Some("/cfg"), Some("/h")), "/cfg/horchd/config.toml");
    assert_eq!(default_config_path(None, Some("/h")), "/h/.config/horchd/config.toml");
    assert_eq!(default_config_path(None, None), ".config/horchd/config.toml");
}

fn sample(kind: &str, ts: u64) -> TrainingSample {
    TrainingSample { kind: kind.into(), path: format!("/t/{kind}/{ts}.wav"), ts_ms: ts, size: 0, duration_ms: 0, sample_rate: 0 }
}

#[test]
fn samples_sort_newest_first_and_stable() {
    let v = vec![sample("positive", 5), sample("positive", 9), sample("negative", 5), sample("negative", 7)];
    let r = sort_newest_first(v);
    let got: Vec<(u64, &str)> = r.iter().map(|s| (s.ts_ms, s.kind.as_str())).collect();
    assert_eq!(got, vec![(9, "positive"), (7, "negative"), (5, "positive"), (5, "negative")]);
}

fn word(name: &str, positive: u32) -> horchd::training::TrainingWord {
    horchd::training::TrainingWord { name: name.into(), positive, negative: 0, target_phrase: None }
}

#[test]
fn words_sort_by_name() {
    let r = horchd::training::sort_by_name(vec![word("jarvis", 1), word("alexa", 2), word("Zed", 3), word("alex", 4), word("alexa", 5)]);
    let got: Vec<(&str, u32)> = r.iter().map(|w| (w.name.as_str(), w.positive)).collect();
    assert_eq!(got, vec![("Zed", 3), ("alex", 4), ("alexa", 2), ("alexa", 5), ("jarvis", 1)]);
    let mut names = vec!["é".to_string(), "z".to_string(), "ab".to_string()];
    let sorted: Vec<String> = horchd::training::sort_by_name(names.iter().map(|n| word(n, 0)).collect()).into_iter().map(|w| w.name).collect();
    names.sort();
    assert_eq!(sorted, names);
}

#[test]
fn tilde_is_expanded_in_model_paths() {
    let p = expand_model_path("~/models/a.onnx").unwrap();
    assert!(p.starts_with('/'));
    assert!(p.ends_with("/models/a.onnx"));
    assert!(!p.contains('~'));
    // Only a leading `~` or `~/` is expanded.
    assert_eq!(expand_model_path("~other/a.onnx"), Err(ModelPathError::NotAbsolute("~other/a.onnx".into())));
}

#[test]
fn sanitized_names_are_one_path_component() {
    for raw in ["alexa", " hey_jarvis ", "a-b-c"] {
        let name = horchd::names::sanitize_name(raw).unwrap();
        let comps = path_components(&name);
        assert_eq!(comps.len(), 1);
        assert!(matches!(&comps[0], PathComponent::Normal(n) if *n == name));
    }
}

#[test]
fn backoff_stays_bounded() {
    let mut ms = 500;
    for _ in 0..20 {
        let next = next_backoff_ms(ms);
        assert!(next >= ms && next <= MAX_BACKOFF_MS);
        ms = next;
    }
    assert_eq!(ms, MAX_BACKOFF_MS);
}

#[test]
fn registry_stays_in_step() {
    let mut r = registry();
    for (i, n) in ["a", "b", "c"].iter().enumerate() {
        r.add(wake(n, 0.5), i as u32).unwrap();
    }
    r.remove("b").unwrap();
    r.retune("c", 0.9, 10, false).unwrap();
    let w: Vec<&str> = r.wakewords.iter().map(|w| w.name.as_str()).collect();
    let d: Vec<&str> = r.detectors.iter().map(|d| d.name.as_str()).collect();
    let c: Vec<&str> = r.classifiers.iter().map(|c| c.name.as_str()).collect();
    assert_eq!(w, vec!["a", "c"]);
    assert_eq!(w, d);
    assert_eq!(d, c);
}

#[test]
fn registry_lookups_by_name_change_in_place() {
    let mut r = registry();
    r.add(wake("alexa", 0.5), 1).unwrap();
    r.add(wake("jarvis", 0.6), 2).unwrap();
    r.detector_mut("jarvis").unwrap().set_enabled(false);
    assert!(r.detector_mut("nope").is_none());
    assert!(r.detectors[0].update(true, 0).is_some());
    assert!(r.detectors[1].update(true, 0).is_none());
    r.wakeword_config_mut("alexa").unwrap().cooldown_ms = 250;
    assert_eq!(r.wakewords[0].cooldown_ms, 250);
    assert_eq!(r.wakewords[1].cooldown_ms, 1500);
    assert!(r.wakeword_config_mut("nope").is_none());
}

#[test]
fn model_path_expands_against_given_home() {
    assert_eq!(expand_model_path_with("~/m/a.onnx", Some("/home/u")), Ok("/home/u/m/a.onnx".to_string()));
    assert_eq!(expand_model_path_with("~", Some("/home/u")), Ok("/home/u".to_string()));
    assert_eq!(
        expand_model_path_with("~/m/a.onnx", None),
        Err(ModelPathError::NotAbsolute("~/m/a.onnx".into()))
    );
    assert_eq!(
        expand_model_path_with("~/m/a.onnx", Some("rel")),
        Err(ModelPathError::NotAbsolute("rel/m/a.onnx".into()))
    );
    assert_eq!(expand_model_path_with("/abs.onnx", Some("/home/u")), Ok("/abs.onnx".to_string()));
}

#[test]
fn add_checks_run_in_order() {
    let home = Some("/home/u");
    assert_eq!(admit_wakeword_with("alexa", true, 1500, "~/m/a.onnx", home), Ok("/home/u/m/a.onnx".to_string()));
    assert_eq!(admit_wakeword_with("", false, 999_999, "rel", home), Err(AddRefusal::Name(NameError::Empty)));
    assert_eq!(admit_wakeword_with("a/b", true, 1500, "/m.onnx", home), Err(AddRefusal::Name(NameError::InvalidChars)));
    assert_eq!(admit_wakeword_with("ok", false, 999_999, "rel", home), Err(AddRefusal::Threshold));
    assert_eq!(
        admit_wakeword_with("ok", true, 60_001, "rel", home),
        Err(AddRefusal::Cooldown(CooldownTooLong { got: 60_001, max: 60_000 }))
    );
    assert_eq!(
        admit_wakeword_with("ok", true, 0, "rel.onnx", home),
        Err(AddRefusal::ModelPath(ModelPathError::NotAbsolute("rel.onnx".into())))
    );
}
