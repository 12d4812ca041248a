use horchd::events::{AudioChunk, AudioFormat, DataValue, Event, EventError};
use horchd::source::{
    decode_pcm_i16_le, file_descriptor, validate_format, validate_spec, wav_spec_ok, wyoming_descriptor, FormatError, SourceKind,
};
use horchd::events::AudioStart;
use horchd::wire::{encode_frame, scan_header_line, take_section, FrameError, HeaderScan, SectionKind, MAX_FRAME_SECTION};

fn ok_start() -> AudioStart {
    AudioStart { rate: 16_000, width: 2, channels: 1, timestamp: None }
}

#[test]
fn decode_pcm_i16_le_round_trips() {
    let bytes = [0x01, 0x00, 0xff, 0x7f, 0x00, 0x80];
    assert_eq!(decode_pcm_i16_le(&bytes), vec![1, i16::MAX, i16::MIN]);
}

#[test]
fn decode_pcm_drops_trailing_odd_byte() {
    assert_eq!(decode_pcm_i16_le(&[0x34, 0x12, 0x99]), vec![0x1234]);
    assert!(decode_pcm_i16_le(&[]).is_empty());
}

#[test]
fn validate_format_accepts_canonical() {
    validate_format(&ok_start()).unwrap();
}

#[test]
fn validate_format_rejects_off_rate() {
    let mut s = ok_start();
    s.rate = 48_000;
    let err = validate_format(&s).unwrap_err();
    assert!(err.message().contains("48000"));
    assert_eq!(err, FormatError::Rate(48_000));
}

#[test]
fn validate_format_rejects_stereo() {
    let mut s = ok_start();
    s.channels = 2;
    assert!(validate_format(&s).is_err());
    assert_eq!(validate_format(&s), Err(FormatError::Channels(2)));
}

#[test]
fn validate_format_rejects_24bit() {
    let mut s = ok_start();
    s.width = 3;
    assert!(validate_format(&s).is_err());
    assert_eq!(
        validate_format(&s).unwrap_err().message(),
        "Wyoming client offered 3-byte samples; horchd needs 2-byte int16"
    );
}

#[test]
fn format_error_messages() {
    assert_eq!(
        FormatError::Rate(44_100).message(),
        "Wyoming client offered audio at 44100 Hz; horchd needs 16000 Hz (rubato-based resampling not yet wired)"
    );
    assert_eq!(FormatError::Channels(0).message(), "Wyoming client offered 0 channels; horchd needs mono");
}

#[test]
fn descriptor_carries_kind_wyoming() {
    let d = wyoming_descriptor("127.0.0.1:54321".to_string());
    assert_eq!(d.kind, SourceKind::WyomingStream);
    assert_eq!(d.name, "127.0.0.1:54321");
}

#[test]
fn wav_spec_check() {
    assert!(wav_spec_ok(16_000, 1, true, 16));
    assert!(!wav_spec_ok(44_100, 1, true, 16));
    assert!(!wav_spec_ok(16_000, 2, true, 16));
    assert!(!wav_spec_ok(16_000, 1, false, 16));
    assert!(!wav_spec_ok(16_000, 1, true, 24));
}

#[test]
fn audio_format_constant_matches_wakeword_default() {
    let f = AudioFormat::wakeword_default();
    assert_eq!(f.rate, 16_000);
    assert_eq!(f.width, 2);
    assert_eq!(f.channels, 1);
}

fn chunk_event(rate: u64, width: u64, channels: u64, ts: Option<u64>, payload: Option<Vec<u8>>) -> Event {
    let mut data = vec![
        ("rate".to_string(), DataValue::Unsigned(rate)),
        ("width".to_string(), DataValue::Unsigned(width)),
        ("channels".to_string(), DataValue::Unsigned(channels)),
    ];
    if let Some(t) = ts {
        data.push(("timestamp".to_string(), DataValue::Unsigned(t)));
    }
    let e = Event::new("audio-chunk".to_string()).with_data(data);
    match payload {
        Some(p) => e.with_payload(p),
        None => e,
    }
}

#[test]
fn decodes_audio_chunk_event() {
    let e = chunk_event(16_000, 2, 1, Some(12), Some(vec![1, 0, 2, 0]));
    let c = AudioChunk::from_event(&e).unwrap();
    assert_eq!(c.rate, 16_000);
    assert_eq!(c.width, 2);
    assert_eq!(c.channels, 1);
    assert_eq!(c.timestamp, Some(12));
    assert_eq!(c.audio, vec![1, 0, 2, 0]);
}

#[test]
fn audio_chunk_without_payload_or_timestamp() {
    let c = AudioChunk::from_event(&chunk_event(16_000, 2, 1, None, None)).unwrap();
    assert_eq!(c.timestamp, None);
    assert!(c.audio.is_empty());
}

#[test]
fn audio_chunk_fields_truncate() {
    let c = AudioChunk::from_event(&chunk_event(0x1_0000_3E80, 0x102, 0x101, None, None)).unwrap();
    assert_eq!(c.rate, 16_000);
    assert_eq!(c.width, 2);
    assert_eq!(c.channels, 1);
}

#[test]
fn wrong_event_type_errors_on_from_event() {
    let e = Event::new("audio-start".to_string());
    match AudioChunk::from_event(&e) {
        Err(EventError::WrongType { expected, actual }) => {
            assert_eq!(expected, "audio-chunk");
            assert_eq!(actual, "audio-start");
        }
        other => panic!("unexpected {other:?}"),
    }
}

#[test]
fn audio_chunk_missing_fields() {
    let e = Event::new("audio-chunk".to_string())
        .with_data(vec![("rate".to_string(), DataValue::Unsigned(16_000))]);
    assert!(matches!(AudioChunk::from_event(&e), Err(EventError::MissingField("width"))));
    let e = Event::new("audio-chunk".to_string()).with_data(vec![("rate".to_string(), DataValue::Other)]);
    assert!(matches!(AudioChunk::from_event(&e), Err(EventError::MissingField("rate"))));
}

#[test]
fn audio_chunk_round_trips_through_event() {
    for ts in [None, Some(99)] {
        let c = AudioChunk { rate: 16_000, width: 2, channels: 1, timestamp: ts, audio: vec![9, 8, 7, 6] };
        let back = AudioChunk::from_event(&c.clone().into_event()).unwrap();
        assert_eq!(back, c);
    }
}

#[test]
fn audio_chunk_event_has_null_timestamp() {
    let c = AudioChunk { rate: 16_000, width: 2, channels: 1, timestamp: None, audio: vec![] };
    let e = c.into_event();
    assert_eq!(e.event_type, "audio-chunk");
    assert_eq!(e.data[3], ("timestamp".to_string(), DataValue::Null));
    assert_eq!(e.payload, Some(vec![]));
}

#[test]
fn frame_layout_and_scan_round_trip() {
    let header = br#"{"type":"detection","data_length":5}"#;
    let frame = encode_frame(header, b"abcde", b"xyz");
    assert_eq!(frame.len(), header.len() + 1 + 5 + 3);
    match scan_header_line(&frame, 0) {
        HeaderScan::Line { start, end, next } => {
            assert_eq!(&frame[start..end], header);
            assert_eq!(next, header.len() + 1);
            let (ds, de) = take_section(&frame, next, Some(5), SectionKind::Data).unwrap();
            assert_eq!(&frame[ds..de], b"abcde");
            let (ps, pe) = take_section(&frame, de, Some(3), SectionKind::Payload).unwrap();
            assert_eq!(&frame[ps..pe], b"xyz");
        }
        HeaderScan::Eof => panic!("expected a header"),
    }
}

#[test]
fn read_returns_none_on_clean_eof() {
    assert_eq!(scan_header_line(&[], 0), HeaderScan::Eof);
    assert_eq!(scan_header_line(b"\n\r\n\n", 0), HeaderScan::Eof);
}

#[test]
fn blank_lines_and_crlf_are_skipped() {
    let buf = b"\n\r\n{\"type\":\"describe\"}\r\nrest";
    match scan_header_line(buf, 0) {
        HeaderScan::Line { start, end, next } => {
            assert_eq!(&buf[start..end], b"{\"type\":\"describe\"}");
            assert_eq!(&buf[next..], b"rest");
        }
        HeaderScan::Eof => panic!("expected a header"),
    }
}

#[test]
fn rejects_oversized_data_length() {
    let err = take_section(b"", 0, Some(33_554_432), SectionKind::Data).unwrap_err();
    assert!(matches!(err, FrameError::TooLarge { kind: SectionKind::Data, .. }));
    assert_eq!(SectionKind::Data.label(), "data");
    assert_eq!(SectionKind::Payload.label(), "payload");
    assert!(take_section(b"", 0, Some(MAX_FRAME_SECTION + 1), SectionKind::Payload).is_err());
}

#[test]
fn truncated_section_and_absent_section() {
    assert_eq!(
        take_section(b"ab", 0, Some(5), SectionKind::Payload),
        Err(FrameError::Truncated { kind: SectionKind::Payload, needed: 5, available: 2 })
    );
    assert_eq!(take_section(b"ab", 1, None, SectionKind::Data), Ok((1, 1)));
    assert_eq!(take_section(b"ab", 1, Some(0), SectionKind::Data), Ok((1, 1)));
}

#[test]
fn streams_two_events_back_to_back() {
    let mut wire = encode_frame(br#"{"type":"describe"}"#, b"", b"");
    wire.extend(encode_frame(br#"{"type":"audio-chunk","payload_length":2}"#, b"", &[1, 2]));
    let first = match scan_header_line(&wire, 0) {
        HeaderScan::Line { next, .. } => next,
        HeaderScan::Eof => panic!(),
    };
    match scan_header_line(&wire, first) {
        HeaderScan::Line { next, .. } => {
            let (s, e) = take_section(&wire, next, Some(2), SectionKind::Payload).unwrap();
            assert_eq!(&wire[s..e], &[1, 2]);
            assert_eq!(scan_header_line(&wire, e), HeaderScan::Eof);
        }
        HeaderScan::Eof => panic!(),
    }
}

#[test]
fn rejects_wrong_sample_rate() {
    let msg = validate_spec("/tmp/in.wav", 44_100, 1, true, 16).unwrap_err();
    assert!(msg.contains("16000 Hz"), "msg = {msg}");
    assert!(msg.contains("ffmpeg"), "msg = {msg}");
    assert_eq!(
        msg,
        "/tmp/in.wav: unsupported WAV format (44100 Hz / 1 ch / Int 16 bit). horchd needs 16000 Hz mono int16. \
         Convert with: ffmpeg -i /tmp/in.wav -ar 16000 -ac 1 -sample_fmt s16 fixed.wav"
    );
}

#[test]
fn rejects_stereo() {
    let msg = validate_spec("a.wav", 16_000, 2, true, 16).unwrap_err();
    assert!(msg.contains("ffmpeg"));
    assert!(msg.contains("2 ch"));
    assert!(validate_spec("a.wav", 16_000, 1, false, 32).unwrap_err().contains("Float 32 bit"));
    assert_eq!(validate_spec("a.wav", 16_000, 1, true, 16), Ok(()));
}

#[test]
fn descriptor_carries_kind_file() {
    let d = file_descriptor("/some/where.wav".to_string());
    assert_eq!(d.kind, SourceKind::File);
    assert!(d.name.contains("where.wav"));
}

#[test]
fn decoding_the_le_encoding_gives_the_samples_back() {
    let samples: Vec<i16> = vec![0, 1, -1, i16::MIN, i16::MAX, 12345, -300];
    let bytes: Vec<u8> = samples.iter().flat_map(|s| s.to_le_bytes()).collect();
    assert_eq!(decode_pcm_i16_le(&bytes), samples);
}

#[test]
fn data_segment_overrides_inline_data() {
    let inline = vec![("score".to_string(), 5u64), ("name".to_string(), 1u64)];
    let extra = vec![("name".to_string(), 2u64), ("extra".to_string(), 3u64), ("name".to_string(), 4u64)];
    assert_eq!(
        horchd::events::merge_data(inline, extra),
        vec![("score".to_string(), 5u64), ("name".to_string(), 4u64), ("extra".to_string(), 3u64)]
    );
    assert_eq!(horchd::events::merge_data(Vec::<(String, u8)>::new(), vec![]), vec![]);
}
