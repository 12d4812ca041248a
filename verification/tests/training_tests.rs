use horchd::import::{check_content_length, hex, plan_import, should_download, Download, ImportError, MAX_DOWNLOAD_BYTES};
use horchd::names::{BasenameError, NameError};
use horchd::paths::{extension, file_name, file_stem, has_extension, join, paths_equal, path_starts_with};
use horchd::text::parse_u64;
use horchd::training::{
    canonical_data_dir, canonical_models_dir, canonical_negatives_path, canonical_python_env_dir, canonical_python_path,
    canonical_training_dir, check_phrase, check_training_sample, classify_line, line_event, prepare_training,
    sample_duration_ms, sample_ts, train_args, trained_model_path, training_sample_path, wav_duration, NoHome,
    PhraseError, ProcessKind, SampleError, TrainError, TrainLine,
};
use horchd::uri::{parse as parse_uri, ListenAddr, UriError};
use horchd::training::{check_sample_read, SampleTooLarge, MAX_TRAINING_SAMPLE_BYTES};
use horchd::zeroconf::{local_ip_candidates, IpAddress, LocalInterface};
use horchd::sockaddr::socket_addr_ok;

#[test]
fn process_kind_labels() {
    assert_eq!(ProcessKind::Setup.label(), "setup");
    assert_eq!(ProcessKind::Train.label(), "train");
    assert_eq!(ProcessKind::Train.channel(), "horchd://train");
}

#[test]
fn data_dirs_follow_xdg_then_home() {
    assert_eq!(canonical_data_dir(Some("/x"), Some("/home/u")).unwrap(), "/x/horchd");
    assert_eq!(canonical_data_dir(None, Some("/home/u")).unwrap(), "/home/u/.local/share/horchd");
    assert_eq!(canonical_data_dir(None, None), Err(NoHome));
    assert_eq!(canonical_models_dir(None, Some("/home/u/")).unwrap(), "/home/u/.local/share/horchd/models");
    assert_eq!(canonical_training_dir(Some("/d"), None).unwrap(), "/d/horchd/training");
    assert_eq!(canonical_python_env_dir(Some("/d"), None).unwrap(), "/d/horchd/python-env");
    assert_eq!(canonical_python_path(Some("/d"), None).unwrap(), "/d/horchd/python-env/bin/python");
    assert_eq!(
        canonical_negatives_path(Some("/d"), None).unwrap(),
        "/d/horchd/negatives/openwakeword_features_ACAV100M_2000_hrs_16bit.npy"
    );
}

#[test]
fn join_follows_pathbuf_push() {
    assert_eq!(join("/a", "b"), "/a/b");
    assert_eq!(join("/a/", "b"), "/a/b");
    assert_eq!(join("", "b"), "b");
    assert_eq!(join("/a", "/etc"), "/etc");
}

#[test]
fn training_sample_checks() {
    assert_eq!(check_training_sample(" alexa ", "positive", 16_000, 10).unwrap(), "alexa");
    assert_eq!(check_training_sample("../x", "positive", 16_000, 10), Err(SampleError::Name(NameError::InvalidChars)));
    assert_eq!(check_training_sample("a", "maybe", 16_000, 10), Err(SampleError::UnknownKind("maybe".into())));
    assert_eq!(check_training_sample("a", "negative", 7_999, 10), Err(SampleError::SampleRate(7_999)));
    assert_eq!(check_training_sample("a", "negative", 48_001, 10), Err(SampleError::SampleRate(48_001)));
    assert!(check_training_sample("a", "negative", 8_000, 1).is_ok());
    assert!(check_training_sample("a", "negative", 48_000, 1).is_ok());
    assert_eq!(check_training_sample("a", "negative", 16_000, 0), Err(SampleError::NoSamples));
}

#[test]
fn sample_paths_and_durations() {
    assert_eq!(
        training_sample_path("/t", "alexa", "positive", 1_700_000_000_123),
        "/t/alexa/positive/1700000000123.wav"
    );
    assert_eq!(sample_duration_ms(16_000, 16_000), 1000);
    assert_eq!(sample_duration_ms(8_000, 16_000), 500);
    assert_eq!(sample_duration_ms(u64::MAX / 1000, 1), 0);
    assert_eq!(wav_duration(24_000, 48_000), Some((500, 48_000)));
    assert_eq!(wav_duration(10, 0), None);
    assert_eq!(sample_ts(Some("1700000000123")), 1_700_000_000_123);
    assert_eq!(sample_ts(Some("abc")), 0);
    assert_eq!(sample_ts(None), 0);
}

#[test]
fn parse_u64_matches_std() {
    for s in ["0", "+7", "42", "18446744073709551615", "18446744073709551616", "", "+", "-1", "1a", " 1", "007"] {
        assert_eq!(parse_u64(s), s.parse::<u64>().ok(), "{s:?}");
    }
}

#[test]
fn phrase_checks() {
    assert_eq!(check_phrase("  hey jarvis "), Ok("hey jarvis"));
    assert_eq!(check_phrase("   "), Err(PhraseError::Empty));
    assert_eq!(check_phrase("a\nb"), Err(PhraseError::LineBreak));
    assert_eq!(check_phrase("a\rb"), Err(PhraseError::LineBreak));
    assert_eq!(check_phrase(&"x".repeat(257)), Err(PhraseError::TooLong));
    assert!(check_phrase(&"x".repeat(256)).is_ok());
}

#[test]
fn training_arguments() {
    assert_eq!(
        train_args("alexa", "hey alexa", Some(3), Some(1000)),
        vec!["-m", "horchd_train", "--name", "alexa", "--target-phrase", "hey alexa", "--augment-per-recording", "3", "--steps", "1000"]
    );
    assert_eq!(train_args("a", "b", None, None).len(), 6);
    let (name, args) = prepare_training(" alexa ", " hey ", None, Some(5)).unwrap();
    assert_eq!(name, "alexa");
    assert_eq!(args[5], "hey");
    assert_eq!(args[7], "5");
    assert_eq!(prepare_training("-x", "hey", None, None).unwrap_err(), TrainError::Name(NameError::LeadingDash));
    assert_eq!(prepare_training("x", "", None, None).unwrap_err(), TrainError::Phrase(PhraseError::Empty));
    assert_eq!(trained_model_path("/m", "alexa"), "/m/alexa.onnx");
}

#[test]
fn helper_output_lines() {
    assert_eq!(classify_line(r#"##HORCHD {"stage":"done"}"#), TrainLine::Status(r#"{"stage":"done"}"#.into()));
    assert_eq!(classify_line("##HORCHD not json"), TrainLine::Log("##HORCHD not json".into()));
    assert_eq!(classify_line("plain"), TrainLine::Log("plain".into()));
    assert_eq!(line_event("##HORCHD 1", true), TrainLine::Status("1".into()));
    assert_eq!(line_event("##HORCHD 1", false), TrainLine::Log("##HORCHD 1".into()));
    assert_eq!(line_event("x", true), TrainLine::Log("x".into()));
}

#[test]
fn path_pieces() {
    assert_eq!(file_name("/a/b.wav").as_deref(), Some("b.wav"));
    assert_eq!(file_stem("/a/b.tar.gz").as_deref(), Some("b.tar"));
    assert_eq!(extension("/a/b.tar.gz").as_deref(), Some("gz"));
    assert_eq!(extension("/a/.bashrc"), None);
    assert_eq!(extension("/a/b"), None);
    assert!(has_extension("/t/1.wav", "wav"));
    assert!(!has_extension("/t/1.wave", "wav"));
    assert!(paths_equal("/a//b/./c", "/a/b/c"));
    assert!(path_starts_with("/home/u/models/x.onnx", "/home/u/models"));
    assert!(!path_starts_with("/home/u/modelsx/x.onnx", "/home/u/models"));
}

#[test]
fn import_planning() {
    let p = plan_import("  https://x.io/a/alexa_v0.1.onnx ", None, true, 1500).unwrap();
    assert_eq!(p.source, "https://x.io/a/alexa_v0.1.onnx");
    assert_eq!(p.basename, "alexa_v0.1.onnx");
    assert_eq!(p.name, "alexa_v0_1");
    assert!(p.from_url);
    let p = plan_import("/tmp/m.onnx", Some("mine"), true, 0).unwrap();
    assert_eq!(p.name, "mine");
    assert!(!p.from_url);
    assert_eq!(plan_import("   ", None, true, 0), Err(ImportError::EmptySource));
    assert_eq!(plan_import("https://x.io/?q", None, true, 0), Err(ImportError::Basename(BasenameError::EmptyUrlSegment)));
    assert_eq!(plan_import("/m.onnx", Some("a b"), true, 0), Err(ImportError::Name(NameError::InvalidChars)));
    assert_eq!(plan_import("/-m.onnx", None, true, 0), Err(ImportError::NoDefaultName));
    assert_eq!(plan_import("/m.onnx", None, false, 0), Err(ImportError::ThresholdOutOfRange));
    assert!(matches!(plan_import("/m.onnx", None, true, 60_001), Err(ImportError::Cooldown(_))));
    assert!(should_download(false, false));
    assert!(!should_download(true, false));
    assert!(should_download(true, true));
}

#[test]
fn hex_is_lowercase_two_digits_per_byte() {
    assert_eq!(hex(&[0x00, 0x0f, 0xa0, 0xff]), "000fa0ff");
    assert_eq!(hex(&[]), "");
}

#[test]
fn download_hashes_and_caps() {
    let mut d = Download::new();
    d.accept(b"ab").unwrap();
    d.accept(b"c").unwrap();
    // SHA-256("abc")
    assert_eq!(d.finish(), "ba7816bf8f01cfea414140de5dae2223b00361a396177a9cb410ff61f20015ad");
    let empty = Download::new();
    assert_eq!(empty.finish(), "e3b0c44298fc1c149afbf4c8996fb92427ae41e4649b934ca495991b7852b855");
    assert!(check_content_length(Some(MAX_DOWNLOAD_BYTES)).is_ok());
    assert!(check_content_length(Some(MAX_DOWNLOAD_BYTES + 1)).is_err());
    assert!(check_content_length(None).is_ok());
    let mut d = Download::new();
    let big = vec![0u8; MAX_DOWNLOAD_BYTES as usize];
    d.accept(&big).unwrap();
    let err = d.accept(&[1]).unwrap_err();
    assert_eq!(err.received, MAX_DOWNLOAD_BYTES + 1);
    assert_eq!(err.cap, MAX_DOWNLOAD_BYTES);
}

#[test]
fn parses_tcp_v4() {
    assert_eq!(parse_uri("tcp://0.0.0.0:10400").unwrap(), ListenAddr::Tcp("0.0.0.0:10400".into()));
}

#[test]
fn parses_tcp_v6() {
    assert_eq!(parse_uri("tcp://[::1]:10400").unwrap(), ListenAddr::Tcp("[::1]:10400".into()));
}

#[test]
fn parses_unix_abs() {
    assert_eq!(
        parse_uri("unix:///run/horchd/wyoming.sock").unwrap(),
        ListenAddr::Unix("/run/horchd/wyoming.sock".into())
    );
}

#[test]
fn rejects_unix_relative() {
    assert!(parse_uri("unix://relative/path.sock").is_err());
    assert_eq!(parse_uri("unix://rel"), Err(UriError::RelativeUnixPath("rel".into())));
}

#[test]
fn parses_stdio() {
    assert!(matches!(parse_uri("stdio://").unwrap(), ListenAddr::Stdio));
}

#[test]
fn rejects_unknown_scheme() {
    assert!(parse_uri("ws://example.com:80").is_err());
    assert_eq!(parse_uri("stdio://x"), Err(UriError::Unsupported("stdio://x".into())));
}

#[test]
fn sample_read_is_capped() {
    assert_eq!(check_sample_read(0), Ok(()));
    assert_eq!(check_sample_read(MAX_TRAINING_SAMPLE_BYTES), Ok(()));
    assert_eq!(
        check_sample_read(MAX_TRAINING_SAMPLE_BYTES + 1),
        Err(SampleTooLarge { len: MAX_TRAINING_SAMPLE_BYTES + 1, cap: 52_428_800 })
    );
}

#[test]
fn announce_uses_a_concrete_bind_address_as_is() {
    let bind = IpAddress::V4(192, 168, 1, 5);
    let ifaces = vec![LocalInterface { ip: IpAddress::V4(10, 0, 0, 2), loopback: false }];
    assert_eq!(local_ip_candidates(bind, &ifaces), vec![bind]);
}

#[test]
fn announce_any_v4_lists_non_loopback_v4_interfaces() {
    let ifaces = vec![
        LocalInterface { ip: IpAddress::V4(127, 0, 0, 1), loopback: true },
        LocalInterface { ip: IpAddress::V4(192, 168, 1, 5), loopback: false },
        LocalInterface { ip: IpAddress::V6(0xfe80, 0, 0, 0, 0, 0, 0, 7), loopback: false },
        LocalInterface { ip: IpAddress::V4(10, 0, 0, 2), loopback: false },
    ];
    assert_eq!(
        local_ip_candidates(IpAddress::V4(0, 0, 0, 0), &ifaces),
        vec![IpAddress::V4(192, 168, 1, 5), IpAddress::V4(10, 0, 0, 2)]
    );
    // An IPv6 "any" listener is announced under every non-loopback address.
    assert_eq!(
        local_ip_candidates(IpAddress::V6(0, 0, 0, 0, 0, 0, 0, 0), &ifaces),
        vec![
            IpAddress::V4(192, 168, 1, 5),
            IpAddress::V6(0xfe80, 0, 0, 0, 0, 0, 0, 7),
            IpAddress::V4(10, 0, 0, 2)
        ]
    );
}

#[test]
fn announce_falls_back_to_loopback() {
    let only_lo = vec![LocalInterface { ip: IpAddress::V4(127, 0, 0, 1), loopback: true }];
    assert_eq!(local_ip_candidates(IpAddress::V4(0, 0, 0, 0), &only_lo), vec![IpAddress::V4(127, 0, 0, 1)]);
    assert_eq!(
        local_ip_candidates(IpAddress::V6(0, 0, 0, 0, 0, 0, 0, 0), &vec![]),
        vec![IpAddress::V6(0, 0, 0, 0, 0, 0, 0, 1)]
    );
}

#[test]
fn socket_addresses_as_socketaddr_reads_them() {
    for ok in [
        "0.0.0.0:10400",
        "127.0.0.1:0",
        "255.255.255.255:65535",
        "[::]:10400",
        "[::1]:10400",
        "[2001:db8::1]:80",
        "[::ffff:192.168.0.1]:80",
        "[1:2:3:4:5:6:7:8]:1",
        "[1:2:3:4:5:6:1.2.3.4]:1",
        "[1::2:3:4:5:6:7]:1",
        "[1:2:3:4:5:6:7::]:1",
        "[ABCD:ef01::]:1",
        "[fe80::1%2]:80",
    ] {
        assert!(socket_addr_ok(ok), "{ok}");
    }
    for bad in [
        "",
        "localhost:10400",
        "1.2.3.4",
        "1.2.3.4:65536",
        "1.2.3.4:",
        "1.2.3:80",
        "01.2.3.4:80",
        "256.0.0.1:80",
        "[::1]",
        "[::1]:",
        "::1:80",
        "[1:2:3:4:5:6:7:8:9]:1",
        "[1:2:3:4:5:6:7]:1",
        "[1::2::3]:1",
        "[1:2:3:4:5:6:7:1.2.3.4]:1",
        "[1.2.3.4::]:1",
        "[12345::]:1",
        "[1:2:3:4:5:6:7:8::]:1",
        "[::1%]:80",
        "[::1]]:80",
        "[g::]:80",
    ] {
        assert!(!socket_addr_ok(bad), "{bad}");
    }
}

#[test]
fn rejects_invalid_tcp_address() {
    assert_eq!(parse_uri("tcp://localhost:10400"), Err(UriError::InvalidTcpAddress("localhost:10400".into())));
    assert_eq!(parse_uri("tcp://0.0.0.0"), Err(UriError::InvalidTcpAddress("0.0.0.0".into())));
    assert_eq!(parse_uri("tcp://[::]:10400").unwrap(), ListenAddr::Tcp("[::]:10400".into()));
}
