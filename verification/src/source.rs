//! Audio sources: what identifies one, and the checks and decoding for
//! audio that a Wyoming client streams in.

use vstd::prelude::*;

use crate::events::AudioStart;
use crate::framing::TARGET_SAMPLE_RATE;
use crate::text::{decimal, push_decimal, push_str};

verus! {

/// Where a source's audio comes from.
#[derive(Debug, Clone, Copy, PartialEq, Eq, Structural)]
pub enum SourceKind {
    Mic,
    File,
    Stdin,
    WyomingStream,
    Buffered,
}

/// Name and kind of an audio source.
#[derive(Debug, Clone, PartialEq, Eq)]
pub struct SourceDescriptor {
    pub name: String,
    pub kind: SourceKind,
}

/// The descriptor of the source fed by the Wyoming client at `peer`.
pub fn wyoming_descriptor(peer: String) -> (d: SourceDescriptor)
    ensures
        d.name == peer,
        d.kind == SourceKind::WyomingStream,
{
    SourceDescriptor { name: peer, kind: SourceKind::WyomingStream }
}

/// The descriptor of the source replaying the file at `path` (its name is
/// the path as displayed).
pub fn file_descriptor(path: String) -> (d: SourceDescriptor)
    ensures
        d.name == path,
        d.kind == SourceKind::File,
{
    SourceDescriptor { name: path, kind: SourceKind::File }
}

/// Why a client's `audio-start` was refused: the offending value.
#[derive(Debug, Clone, Copy, PartialEq, Eq, Structural)]
pub enum FormatError {
    /// Not 16 kHz.
    Rate(u32),
    /// Not 2 bytes per sample.
    Width(u8),
    /// Not mono.
    Channels(u8),
}

/// The check of a client's stream format, rate first, then width, then
/// channel count.
pub open spec fn format_verdict(rate: u32, width: u8, channels: u8) -> Result<(), FormatError> {
    if rate != TARGET_SAMPLE_RATE {
        Err(FormatError::Rate(rate))
    } else if width != 2 {
        Err(FormatError::Width(width))
    } else if channels != 1 {
        Err(FormatError::Channels(channels))
    } else {
        Ok(())
    }
}

/// Accept only the canonical wakeword format: 16 kHz, 16-bit, mono.
pub fn validate_format(start: &AudioStart) -> (r: Result<(), FormatError>)
    ensures
        r == format_verdict(start.rate, start.width, start.channels),
{
    if start.rate != TARGET_SAMPLE_RATE {
        return Err(FormatError::Rate(start.rate));
    }
    if start.width != 2 {
        return Err(FormatError::Width(start.width));
    }
    if start.channels != 1 {
        return Err(FormatError::Channels(start.channels));
    }
    Ok(())
}

/// The text of a [`FormatError`].
pub open spec fn format_error_text(e: FormatError) -> Seq<char> {
    match e {
        FormatError::Rate(r) => "Wyoming client offered audio at "@ + decimal(r as nat)
            + " Hz; horchd needs 16000 Hz (rubato-based resampling not yet wired)"@,
        FormatError::Width(w) => "Wyoming client offered "@ + decimal(w as nat)
            + "-byte samples; horchd needs 2-byte int16"@,
        FormatError::Channels(c) => "Wyoming client offered "@ + decimal(c as nat)
            + " channels; horchd needs mono"@,
    }
}

impl FormatError {
    /// A sentence naming the offered and the needed value.
    pub fn message(&self) -> (m: String)
        ensures
            m@ == format_error_text(*self),
    {
        let mut m = String::new();
        match *self {
            FormatError::Rate(r) => {
                push_str(&mut m, "Wyoming client offered audio at ");
                push_decimal(&mut m, r as u64);
                push_str(&mut m, " Hz; horchd needs 16000 Hz (rubato-based resampling not yet wired)");
            },
            FormatError::Width(w) => {
                push_str(&mut m, "Wyoming client offered ");
                push_decimal(&mut m, w as u64);
                push_str(&mut m, "-byte samples; horchd needs 2-byte int16");
            },
            FormatError::Channels(c) => {
                push_str(&mut m, "Wyoming client offered ");
                push_decimal(&mut m, c as u64);
                push_str(&mut m, " channels; horchd needs mono");
            },
        }
        assert(m@ =~= format_error_text(*self));
        m
    }
}

/// The 16-bit sample stored little-endian in `lo`, `hi`.
pub open spec fn le_i16(lo: u8, hi: u8) -> i16 {
    ((lo as int + hi as int * 256) as u16) as i16
}

/// The little-endian bytes of a sample: low byte first.
pub open spec fn le_lo(x: i16) -> u8 {
    ((x as u16) & 0xff) as u8
}

pub open spec fn le_hi(x: i16) -> u8 {
    ((x as u16) >> 8) as u8
}

/// Samples written as little-endian 16-bit PCM (`i16::to_le_bytes` of
/// each, in order).
pub open spec fn le_bytes(v: Seq<i16>) -> Seq<u8> {
    Seq::new(2 * v.len(), |j: int| if j % 2 == 0 { le_lo(v[j / 2]) } else { le_hi(v[j / 2]) })
}

proof fn lemma_le_i16_of_bytes(x: i16)
    ensures
        le_i16(le_lo(x), le_hi(x)) == x,
{
    let lo = le_lo(x);
    let hi = le_hi(x);
    assert((((lo as u16) + (hi as u16) * 256) as i16) == x) by (bit_vector)
        requires
            lo == (((x as u16) & 0xff) as u8),
            hi == (((x as u16) >> 8) as u8),
    ;
    assert((lo as int + hi as int * 256) as u16 == (lo as u16) + (hi as u16) * 256);
}

/// Decoding PCM gives back the samples it was written from: for bytes
/// that are the little-endian encoding of `v`, the decoded length is
/// `v`'s and each decoded sample is `v`'s sample.
pub proof fn law_decode_encoded(v: Seq<i16>)
    ensures
        le_bytes(v).len() / 2 == v.len(),
        forall|i: int| 0 <= i < v.len() ==> #[trigger] le_i16(le_bytes(v)[2 * i], le_bytes(v)[2 * i + 1]) == v[i],
{
    assert forall|i: int| 0 <= i < v.len() implies #[trigger] le_i16(le_bytes(v)[2 * i], le_bytes(v)[2 * i + 1]) == v[i] by {
        assert((2 * i) % 2 == 0 && (2 * i) / 2 == i) by (nonlinear_arith);
        assert((2 * i + 1) % 2 == 1 && (2 * i + 1) / 2 == i) by (nonlinear_arith);
        lemma_le_i16_of_bytes(v[i]);
    }
    assert((2 * v.len()) / 2 == v.len()) by (nonlinear_arith);
}

/// Decode little-endian 16-bit PCM: one sample per whole pair of bytes; a
/// trailing odd byte is dropped.
pub fn decode_pcm_i16_le(payload: &[u8]) -> (out: Vec<i16>)
    ensures
        out@.len() == payload@.len() / 2,
        forall|i: int| 0 <= i < out@.len() ==> #[trigger] out@[i] == le_i16(payload@[2 * i], payload@[2 * i + 1]),
{
    let n = payload.len() / 2;
    let mut out: Vec<i16> = Vec::with_capacity(n);
    let mut i: usize = 0;
    let mut j: usize = 0;
    while i < n
        invariant
            n == payload@.len() / 2,
            i <= n,
            j == 2 * i,
            j <= payload@.len(),
            out@.len() == i,
            forall|k: int| 0 <= k < i ==> #[trigger] out@[k] == le_i16(payload@[2 * k], payload@[2 * k + 1]),
        decreases n - i,
    {
        assert(j + 1 < payload@.len()) by (nonlinear_arith)
            requires
                n == payload@.len() / 2,
                i < n,
                j == 2 * i,
        ;
        let lo = payload[j];
        let hi = payload[j + 1];
        let v: u16 = lo as u16 + (hi as u16) * 256;
        out.push(#[verifier::truncate] (v as i16));
        i += 1;
        j += 2;
    }
    out
}

/// The refusal of a WAV file at `path` of the given format, with the
/// `ffmpeg` command that converts it.
pub open spec fn wav_spec_text(path: Seq<char>, sample_rate: u32, channels: u16, integer_samples: bool, bits_per_sample: u16) -> Seq<char> {
    path + ": unsupported WAV format ("@ + decimal(sample_rate as nat) + " Hz / "@ + decimal(channels as nat)
        + " ch / "@ + (if integer_samples { "Int"@ } else { "Float"@ }) + " "@ + decimal(bits_per_sample as nat)
        + " bit). horchd needs 16000 Hz mono int16. Convert with: ffmpeg -i "@ + path
        + " -ar 16000 -ac 1 -sample_fmt s16 fixed.wav"@
}

/// Check the format of the WAV file at `path` before replaying it.
pub fn validate_spec(path: &str, sample_rate: u32, channels: u16, integer_samples: bool, bits_per_sample: u16) -> (r: Result<(), String>)
    ensures
        r is Ok <==> (sample_rate == TARGET_SAMPLE_RATE && channels == 1 && integer_samples && bits_per_sample == 16),
        r matches Err(m) ==> m@ == wav_spec_text(path@, sample_rate, channels, integer_samples, bits_per_sample),
{
    if wav_spec_ok(sample_rate, channels, integer_samples, bits_per_sample) {
        return Ok(());
    }
    let mut m = String::new();
    push_str(&mut m, path);
    push_str(&mut m, ": unsupported WAV format (");
    push_decimal(&mut m, sample_rate as u64);
    push_str(&mut m, " Hz / ");
    push_decimal(&mut m, channels as u64);
    push_str(&mut m, " ch / ");
    if integer_samples {
        push_str(&mut m, "Int");
    } else {
        push_str(&mut m, "Float");
    }
    push_str(&mut m, " ");
    push_decimal(&mut m, bits_per_sample as u64);
    push_str(&mut m, " bit). horchd needs 16000 Hz mono int16. Convert with: ffmpeg -i ");
    push_str(&mut m, path);
    push_str(&mut m, " -ar 16000 -ac 1 -sample_fmt s16 fixed.wav");
    assert(m@ =~= wav_spec_text(path@, sample_rate, channels, integer_samples, bits_per_sample));
    Err(m)
}

/// A WAV file the file source can replay: 16 kHz, mono, 16-bit integer
/// samples.
pub fn wav_spec_ok(sample_rate: u32, channels: u16, integer_samples: bool, bits_per_sample: u16) -> (b: bool)
    ensures
        b == (sample_rate == TARGET_SAMPLE_RATE && channels == 1 && integer_samples && bits_per_sample == 16),
{
    sample_rate == TARGET_SAMPLE_RATE && channels == 1 && integer_samples && bits_per_sample == 16
}

} // verus!
