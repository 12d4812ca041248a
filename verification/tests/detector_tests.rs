use horchd::detector::Detector;
use horchd::framing::{FrameAssembler, FRAME_SAMPLES, TARGET_SAMPLE_RATE};
use horchd::picker::{pick_exact_target, pick_integer_multiple, select_input_config, ConfigRange, PickError, SampleFormat};
use horchd::pipeline::{process_scores, snapshot_due, SCORE_SNAPSHOT_INTERVAL_NS};
use horchd::stats::{AudioStats, InferenceStats};

const MS: u128 = 1_000_000;

fn make() -> Detector<f64> {
    Detector::new("test".into(), 0.5, 1000, true)
}

fn feed(d: &mut Detector<f64>, score: f64, ns: u128) -> Option<u64> {
    let above = score >= d.threshold;
    d.update(above, ns)
}

#[test]
fn fires_on_rising_edge() {
    let mut d = make();
    assert!(feed(&mut d, 0.4, 0).is_none(), "below threshold should not fire");
    assert!(feed(&mut d, 0.7, 0).is_some(), "rising edge above threshold should fire");
    assert!(feed(&mut d, 0.8, 0).is_none(), "still-above is not a rising edge");
    assert!(feed(&mut d, 0.3, 0).is_none(), "fall does not fire");
    assert!(feed(&mut d, 0.6, 2000 * MS).is_some(), "second rising edge after cooldown fires");
}

#[test]
fn cooldown_blocks_close_fires() {
    let mut d = make();
    assert!(feed(&mut d, 0.7, 0).is_some());
    assert!(feed(&mut d, 0.3, 200 * MS).is_none());
    assert!(feed(&mut d, 0.7, 400 * MS).is_none(), "rising edge inside cooldown is suppressed");
    assert!(
        feed(&mut d, 0.7, 2000 * MS).is_none(),
        "without an intervening fall the second 0.7 is not a rising edge"
    );
    assert!(feed(&mut d, 0.3, 2100 * MS).is_none());
    assert!(feed(&mut d, 0.7, 2200 * MS).is_some(), "fresh rising edge well past cooldown fires");
}

#[test]
fn disabled_detector_never_fires() {
    let mut d = make();
    d.enabled = false;
    assert!(feed(&mut d, 0.99, 0).is_none());
}

#[test]
fn threshold_boundary_is_inclusive() {
    let mut d = make();
    assert!(feed(&mut d, 0.5, 0).is_some(), "score == threshold counts as above");
}

#[test]
fn detection_carries_elapsed_microseconds() {
    let mut d = make();
    let ts = feed(&mut d, 0.7, 2345 * MS).unwrap();
    assert_eq!(ts, 2_345_000);
    assert_eq!(d.name(), "test");
}

#[test]
fn cooldown_boundary_and_retune() {
    let mut d = make();
    assert!(d.update(true, 0).is_some());
    assert!(d.update(false, 1).is_none());
    // Exactly the cooldown later fires again.
    assert!(d.update(true, 1000 * MS).is_some());
    d.retune(0.9, 0, true);
    assert_eq!(d.threshold, 0.9);
    assert_eq!(d.cooldown_ns, 0);
    assert!(d.update(false, 1000 * MS + 1).is_none());
    assert!(d.update(true, 1000 * MS + 2).is_some());
    d.set_cooldown_ms(5);
    assert_eq!(d.cooldown_ns, 5 * MS);
}

#[test]
fn huge_elapsed_saturates_timestamp() {
    let mut d = make();
    assert_eq!(d.update(true, u128::MAX), Some(u64::MAX));
}

fn range(channels: u16, min: u32, max: u32, fmt: SampleFormat) -> ConfigRange {
    ConfigRange { channels, min_sample_rate: min, max_sample_rate: max, sample_format: fmt }
}

#[test]
fn config_picker_prefers_exact_16khz() {
    let ranges = vec![range(2, 44_100, 192_000, SampleFormat::F32), range(1, 8_000, 48_000, SampleFormat::F32)];
    let exact = pick_exact_target(&ranges).expect("16k available");
    assert_eq!(exact.sample_rate, TARGET_SAMPLE_RATE);
    assert_eq!(exact.channels, 1, "should pick mono over stereo");
}

#[test]
fn config_picker_falls_back_to_integer_multiple() {
    let ranges = vec![range(2, 22_050, 96_000, SampleFormat::F32), range(1, 22_050, 32_000, SampleFormat::F32)];
    assert!(pick_exact_target(&ranges).is_none(), "no range covers 16 kHz");
    let (cfg, decim) = pick_integer_multiple(&ranges).expect("integer multiple");
    assert_eq!(cfg.sample_rate, 32_000, "smallest matching max wins");
    assert_eq!(decim, 2);
}

#[test]
fn config_picker_rejects_pure_44_1khz_device() {
    let ranges = vec![range(2, 44_100, 44_100, SampleFormat::F32)];
    assert!(pick_exact_target(&ranges).is_none());
    assert!(pick_integer_multiple(&ranges).is_none());
    assert_eq!(select_input_config(&ranges), Err(PickError::NoUsableRate));
    assert_eq!(select_input_config(&vec![]), Err(PickError::NoConfigs));
}

#[test]
fn config_picker_prefers_float_format() {
    let ranges = vec![range(1, 8_000, 48_000, SampleFormat::I16), range(2, 8_000, 48_000, SampleFormat::F32)];
    let (cfg, decim) = select_input_config(&ranges).unwrap();
    assert_eq!(cfg.sample_format, SampleFormat::F32);
    assert_eq!(cfg.channels, 2);
    assert_eq!(decim, 1);
}

#[test]
fn callback_emits_frames_at_expected_rate() {
    // 48 kHz mono, decimation 3: FRAME_SAMPLES * 3 raw samples per frame.
    let mut assembler: FrameAssembler<u32> = FrameAssembler::new(3);
    let mut stats = AudioStats::new();
    let raw: Vec<u32> = (0..(FRAME_SAMPLES * 3 * 2) as u32).collect();
    let frames = assembler.feed_slice(&raw);
    for _ in &frames {
        stats.record_frame();
    }
    assert_eq!(frames.len(), 2);
    assert_eq!(stats.frames_emitted(), 2);
    assert_eq!(stats.frames_dropped(), 0);
    // Every third sample, starting with the first.
    assert_eq!(frames[0][0], 0);
    assert_eq!(frames[0][1], 3);
    assert_eq!(frames[1][0], (FRAME_SAMPLES * 3) as u32);
}

#[test]
fn callback_drops_when_channel_full() {
    let mut assembler: FrameAssembler<u8> = FrameAssembler::new(1);
    let mut stats = AudioStats::new();
    let frames = assembler.feed_slice(&vec![0u8; FRAME_SAMPLES * 4]);
    // A channel with room for one frame takes the first; the rest are dropped.
    for (i, _) in frames.iter().enumerate() {
        if i == 0 {
            stats.record_frame();
        } else {
            stats.record_drop();
        }
    }
    assert_eq!(stats.frames_emitted(), 1);
    assert_eq!(stats.frames_dropped(), 3);
}

#[test]
fn trailing_partial_frame_is_kept_pending() {
    let mut assembler: FrameAssembler<i16> = FrameAssembler::new(1);
    let frames = assembler.feed_slice(&vec![1i16; FRAME_SAMPLES + 10]);
    assert_eq!(frames.len(), 1);
    assert_eq!(assembler.pending_len(), 10);
    // Irregular chunk sizes summing to exactly three frames.
    let mut assembler: FrameAssembler<i16> = FrameAssembler::new(1);
    let mut count = 0;
    for n in [100usize, 1280, 100, 1080, 1280] {
        count += assembler.feed_slice(&vec![0i16; n]).len();
    }
    assert_eq!(count, 3);
    assert_eq!(assembler.pending_len(), 0);
}

#[test]
fn inference_stats_count_scores() {
    let mut s = InferenceStats::new();
    assert_eq!(s.scores_emitted(), 0);
    s.record_score();
    s.record_score();
    assert_eq!(s.scores_emitted(), 2);
}

#[test]
fn snapshot_throttle() {
    assert!(snapshot_due(None, 0));
    assert!(!snapshot_due(Some(100), 100 + SCORE_SNAPSHOT_INTERVAL_NS - 1));
    assert!(snapshot_due(Some(100), 100 + SCORE_SNAPSHOT_INTERVAL_NS));
    assert!(!snapshot_due(Some(500), 100));
}

#[test]
fn process_scores_pairs_detectors_with_outcomes() {
    let mut ds = vec![
        Detector::new("a".to_string(), 0.5f64, 0, true),
        Detector::new("b".to_string(), 0.5f64, 0, true),
        Detector::new("c".to_string(), 0.5f64, 0, true),
    ];
    let mut last = None;
    let out = process_scores(&mut ds, &vec![true, false], 3_000_000, &mut last);
    assert_eq!(out.fired, vec![(0, 3000)]);
    assert!(out.snapshot);
    assert_eq!(last, Some(3_000_000));
    let out = process_scores(&mut ds, &vec![true, true, true], 3_000_001, &mut last);
    // "a" is still above: no rising edge. "c" had no outcome before.
    assert_eq!(out.fired, vec![(1, 3000), (2, 3000)]);
    assert!(!out.snapshot);
    assert_eq!(last, Some(3_000_000));
}
