//! Negotiating a capture configuration that yields 16 kHz without
//! resampling.
//!
//! 1. A supported range that contains 16 kHz is used at 16 kHz.
//! 2. Otherwise the range whose maximum rate is the smallest integer
//!    multiple of 16 kHz above it is used at that maximum and decimated.
//! 3. Otherwise the device is refused.
//!
//! Among candidates, wider sample formats are preferred, then (for
//! multiples) lower rates, then fewer channels; of equally good ranges the
//! first one listed wins.

use vstd::prelude::*;

use crate::framing::TARGET_SAMPLE_RATE;

verus! {

/// Sample formats a capture device can offer.
#[derive(Debug, Clone, Copy, PartialEq, Eq, Structural)]
pub enum SampleFormat {
    I8,
    I16,
    I24,
    I32,
    I64,
    U8,
    U16,
    U24,
    U32,
    U64,
    F32,
    F64,
    Other,
}

/// Preference rank of a format, lower is better: floats, then 32-bit
/// integers, then 16-bit, then 8-bit, then anything else.
pub open spec fn format_rank(fmt: SampleFormat) -> u8 {
    match fmt {
        SampleFormat::F32 | SampleFormat::F64 => 0,
        SampleFormat::I32 | SampleFormat::U32 => 1,
        SampleFormat::I16 | SampleFormat::U16 => 2,
        SampleFormat::I8 | SampleFormat::U8 => 3,
        _ => 4,
    }
}

pub fn sample_format_pref(fmt: SampleFormat) -> (r: u8)
    ensures
        r == format_rank(fmt),
{
    match fmt {
        SampleFormat::F32 | SampleFormat::F64 => 0,
        SampleFormat::I32 | SampleFormat::U32 => 1,
        SampleFormat::I16 | SampleFormat::U16 => 2,
        SampleFormat::I8 | SampleFormat::U8 => 3,
        _ => 4,
    }
}

/// A floating-point sample format.
pub open spec fn is_float(fmt: SampleFormat) -> bool {
    fmt == SampleFormat::F32 || fmt == SampleFormat::F64
}

/// Bits per sample of the 8-, 16- and 32-bit integer formats; 0 for the
/// others (24- and 64-bit integers and unknown formats), which are ranked
/// last.
pub open spec fn int_bits(fmt: SampleFormat) -> nat {
    match fmt {
        SampleFormat::I8 | SampleFormat::U8 => 8,
        SampleFormat::I16 | SampleFormat::U16 => 16,
        SampleFormat::I32 | SampleFormat::U32 => 32,
        _ => 0,
    }
}

/// `a` captures with more precision than `b`: a float against a
/// non-float, or the wider of two integer formats (an 8-bit capture
/// sounds worst of the ranked ones).
pub open spec fn wider(a: SampleFormat, b: SampleFormat) -> bool {
    (is_float(a) && !is_float(b)) || (!is_float(a) && !is_float(b) && int_bits(a) > int_bits(b))
}

/// The preference follows precision: a wider format always ranks
/// strictly better, and two formats of the same width rank alike (signed
/// and unsigned, or the two floats).
pub proof fn law_rank_follows_width(a: SampleFormat, b: SampleFormat)
    ensures
        wider(a, b) ==> format_rank(a) < format_rank(b),
        (is_float(a) && is_float(b)) ==> format_rank(a) == format_rank(b),
        (!is_float(a) && !is_float(b) && int_bits(a) == int_bits(b)) ==> format_rank(a) == format_rank(b),
{
}

/// The range picked for exact 16 kHz capture has a format at least as
/// wide as that of every other range that covers 16 kHz.
pub proof fn law_exact_pick_is_widest(rs: Seq<ConfigRange>, i: int, j: int)
    requires
        first_best_exact(rs, i),
        0 <= j < rs.len(),
        covers_target(rs[j]),
    ensures
        !wider(rs[j].sample_format, rs[i].sample_format),
{
    law_rank_follows_width(rs[j].sample_format, rs[i].sample_format);
    if j < i {
        assert(exact_better(rs[i], rs[j]));
    } else if j > i {
        assert(!exact_better(rs[j], rs[i]));
    }
}

/// The range picked for capture at a multiple of 16 kHz has a format at
/// least as wide as that of every other such range.
pub proof fn law_multiple_pick_is_widest(rs: Seq<ConfigRange>, i: int, j: int)
    requires
        first_best_multiple(rs, i),
        0 <= j < rs.len(),
        is_multiple_target(rs[j]),
    ensures
        !wider(rs[j].sample_format, rs[i].sample_format),
{
    law_rank_follows_width(rs[j].sample_format, rs[i].sample_format);
    if j < i {
        assert(multiple_better(rs[i], rs[j]));
    } else if j > i {
        assert(!multiple_better(rs[j], rs[i]));
    }
}

/// One supported input configuration range of a device.
#[derive(Debug, Clone, Copy, PartialEq, Eq)]
pub struct ConfigRange {
    pub channels: u16,
    pub min_sample_rate: u32,
    pub max_sample_rate: u32,
    pub sample_format: SampleFormat,
}

/// A concrete configuration picked from a range.
#[derive(Debug, Clone, Copy, PartialEq, Eq)]
pub struct ChosenConfig {
    pub channels: u16,
    pub sample_rate: u32,
    pub sample_format: SampleFormat,
}

/// Why no configuration could be negotiated.
#[derive(Debug, Clone, Copy, PartialEq, Eq)]
pub enum PickError {
    /// The device lists no input configuration at all.
    NoConfigs,
    /// No range offers 16 kHz or an integer multiple of it.
    NoUsableRate,
}

pub open spec fn covers_target(r: ConfigRange) -> bool {
    r.min_sample_rate <= TARGET_SAMPLE_RATE && TARGET_SAMPLE_RATE <= r.max_sample_rate
}

/// `a` is strictly preferred to `b` as an exact-16-kHz candidate.
pub open spec fn exact_better(a: ConfigRange, b: ConfigRange) -> bool {
    format_rank(a.sample_format) < format_rank(b.sample_format)
        || (format_rank(a.sample_format) == format_rank(b.sample_format) && a.channels < b.channels)
}

pub open spec fn is_multiple_target(r: ConfigRange) -> bool {
    r.max_sample_rate > TARGET_SAMPLE_RATE && r.max_sample_rate % TARGET_SAMPLE_RATE == 0
}

/// `a` is strictly preferred to `b` as an integer-multiple candidate.
pub open spec fn multiple_better(a: ConfigRange, b: ConfigRange) -> bool {
    format_rank(a.sample_format) < format_rank(b.sample_format)
        || (format_rank(a.sample_format) == format_rank(b.sample_format)
            && (a.max_sample_rate < b.max_sample_rate
                || (a.max_sample_rate == b.max_sample_rate && a.channels < b.channels)))
}

/// `i` is the first of the best exact candidates.
pub open spec fn first_best_exact(rs: Seq<ConfigRange>, i: int) -> bool {
    &&& 0 <= i < rs.len()
    &&& covers_target(rs[i])
    &&& forall|j: int| 0 <= j < i && covers_target(rs[j]) ==> exact_better(rs[i], #[trigger] rs[j])
    &&& forall|j: int| i < j < rs.len() && covers_target(rs[j]) ==> !exact_better(#[trigger] rs[j], rs[i])
}

/// `i` is the first of the best integer-multiple candidates.
pub open spec fn first_best_multiple(rs: Seq<ConfigRange>, i: int) -> bool {
    &&& 0 <= i < rs.len()
    &&& is_multiple_target(rs[i])
    &&& forall|j: int| 0 <= j < i && is_multiple_target(rs[j]) ==> multiple_better(rs[i], #[trigger] rs[j])
    &&& forall|j: int| i < j < rs.len() && is_multiple_target(rs[j]) ==> !multiple_better(#[trigger] rs[j], rs[i])
}

/// Index of the range to run at exactly 16 kHz, if any range covers it.
pub fn pick_exact_index(ranges: &Vec<ConfigRange>) -> (r: Option<usize>)
    ensures
        r is None <==> forall|j: int| 0 <= j < ranges@.len() ==> !covers_target(#[trigger] ranges@[j]),
        r matches Some(i) ==> first_best_exact(ranges@, i as int),
{
    let mut best: Option<usize> = None;
    let mut i: usize = 0;
    while i < ranges.len()
        invariant
            i <= ranges@.len(),
            best is None <==> forall|j: int| 0 <= j < i ==> !covers_target(#[trigger] ranges@[j]),
            best matches Some(b) ==> ({
                &&& b < i
                &&& covers_target(ranges@[b as int])
                &&& forall|j: int| 0 <= j < b && covers_target(ranges@[j]) ==> exact_better(ranges@[b as int], #[trigger] ranges@[j])
                &&& forall|j: int| b < j < i && covers_target(ranges@[j]) ==> !exact_better(#[trigger] ranges@[j], ranges@[b as int])
            }),
        decreases ranges@.len() - i,
    {
        let r = ranges[i];
        if r.min_sample_rate <= TARGET_SAMPLE_RATE && TARGET_SAMPLE_RATE <= r.max_sample_rate {
            match best {
                None => {
                    best = Some(i);
                },
                Some(b) => {
                    let cur = ranges[b];
                    let rp = sample_format_pref(r.sample_format);
                    let cp = sample_format_pref(cur.sample_format);
                    if rp < cp || (rp == cp && r.channels < cur.channels) {
                        best = Some(i);
                    }
                },
            }
        }
        i += 1;
    }
    best
}

/// Index of the range to run at its maximum rate, an integer multiple of
/// 16 kHz, if there is one.
pub fn pick_multiple_index(ranges: &Vec<ConfigRange>) -> (r: Option<usize>)
    ensures
        r is None <==> forall|j: int| 0 <= j < ranges@.len() ==> !is_multiple_target(#[trigger] ranges@[j]),
        r matches Some(i) ==> first_best_multiple(ranges@, i as int),
{
    let mut best: Option<usize> = None;
    let mut i: usize = 0;
    while i < ranges.len()
        invariant
            i <= ranges@.len(),
            best is None <==> forall|j: int| 0 <= j < i ==> !is_multiple_target(#[trigger] ranges@[j]),
            best matches Some(b) ==> ({
                &&& b < i
                &&& is_multiple_target(ranges@[b as int])
                &&& forall|j: int| 0 <= j < b && is_multiple_target(ranges@[j]) ==> multiple_better(ranges@[b as int], #[trigger] ranges@[j])
                &&& forall|j: int| b < j < i && is_multiple_target(ranges@[j]) ==> !multiple_better(#[trigger] ranges@[j], ranges@[b as int])
            }),
        decreases ranges@.len() - i,
    {
        let r = ranges[i];
        let m = r.max_sample_rate;
        if m > TARGET_SAMPLE_RATE && m % TARGET_SAMPLE_RATE == 0 {
            match best {
                None => {
                    best = Some(i);
                },
                Some(b) => {
                    let cur = ranges[b];
                    let rp = sample_format_pref(r.sample_format);
                    let cp = sample_format_pref(cur.sample_format);
                    if rp < cp || (rp == cp && (m < cur.max_sample_rate
                        || (m == cur.max_sample_rate && r.channels < cur.channels))) {
                        best = Some(i);
                    }
                },
            }
        }
        i += 1;
    }
    best
}

/// The configuration to use when a range covers 16 kHz.
pub fn pick_exact_target(ranges: &Vec<ConfigRange>) -> (r: Option<ChosenConfig>)
    ensures
        r is None <==> forall|j: int| 0 <= j < ranges@.len() ==> !covers_target(#[trigger] ranges@[j]),
        r matches Some(c) ==> exists|i: int| first_best_exact(ranges@, i) && c == (ChosenConfig {
            channels: ranges@[i].channels,
            sample_rate: TARGET_SAMPLE_RATE,
            sample_format: ranges@[i].sample_format,
        }),
{
    match pick_exact_index(ranges) {
        None => None,
        Some(i) => {
            let r = ranges[i];
            Some(ChosenConfig { channels: r.channels, sample_rate: TARGET_SAMPLE_RATE, sample_format: r.sample_format })
        },
    }
}

/// The configuration and decimation factor to use when only an integer
/// multiple of 16 kHz is available.
pub fn pick_integer_multiple(ranges: &Vec<ConfigRange>) -> (r: Option<(ChosenConfig, usize)>)
    ensures
        r is None <==> forall|j: int| 0 <= j < ranges@.len() ==> !is_multiple_target(#[trigger] ranges@[j]),
        r matches Some((c, d)) ==> exists|i: int| first_best_multiple(ranges@, i) && c == (ChosenConfig {
            channels: ranges@[i].channels,
            sample_rate: ranges@[i].max_sample_rate,
            sample_format: ranges@[i].sample_format,
        }) && d == ranges@[i].max_sample_rate / TARGET_SAMPLE_RATE && d >= 2,
{
    match pick_multiple_index(ranges) {
        None => None,
        Some(i) => {
            let r = ranges[i];
            let d = (r.max_sample_rate / TARGET_SAMPLE_RATE) as usize;
            Some((ChosenConfig { channels: r.channels, sample_rate: r.max_sample_rate, sample_format: r.sample_format }, d))
        },
    }
}

/// Negotiate: exact 16 kHz first (decimation 1), then an integer
/// multiple, else refuse.
pub fn select_input_config(ranges: &Vec<ConfigRange>) -> (r: Result<(ChosenConfig, usize), PickError>)
    ensures
        ranges@.len() == 0 ==> r == Err::<(ChosenConfig, usize), PickError>(PickError::NoConfigs),
        r matches Ok((c, d)) ==> d >= 1 && (d == 1 <==> c.sample_rate == TARGET_SAMPLE_RATE),
        ranges@.len() > 0 && (exists|j: int| 0 <= j < ranges@.len() && covers_target(#[trigger] ranges@[j])) ==>
            (r matches Ok((c, d)) && d == 1 && exists|i: int| first_best_exact(ranges@, i) && c == (ChosenConfig {
                channels: ranges@[i].channels,
                sample_rate: TARGET_SAMPLE_RATE,
                sample_format: ranges@[i].sample_format,
            })),
        ranges@.len() > 0 && (forall|j: int| 0 <= j < ranges@.len() ==> !covers_target(#[trigger] ranges@[j])) ==>
            (r matches Err(e) ==> e == PickError::NoUsableRate)
            && ((r is Err) <==> forall|j: int| 0 <= j < ranges@.len() ==> !is_multiple_target(#[trigger] ranges@[j]))
            && (r matches Ok((c, d)) ==> exists|i: int| first_best_multiple(ranges@, i) && c == (ChosenConfig {
                channels: ranges@[i].channels,
                sample_rate: ranges@[i].max_sample_rate,
                sample_format: ranges@[i].sample_format,
            }) && d == ranges@[i].max_sample_rate / TARGET_SAMPLE_RATE),
        r matches Ok((c, d)) ==> forall|j: int| 0 <= j < ranges@.len()
            && (if d == 1 { covers_target(#[trigger] ranges@[j]) } else { is_multiple_target(ranges@[j]) })
            ==> !wider(ranges@[j].sample_format, c.sample_format),
{
    if ranges.len() == 0 {
        return Err(PickError::NoConfigs);
    }
    if let Some(c) = pick_exact_target(ranges) {
        proof {
            let i = choose|i: int| first_best_exact(ranges@, i) && c == (ChosenConfig {
                channels: ranges@[i].channels,
                sample_rate: TARGET_SAMPLE_RATE,
                sample_format: ranges@[i].sample_format,
            });
            assert forall|j: int| 0 <= j < ranges@.len() && covers_target(#[trigger] ranges@[j])
                implies !wider(ranges@[j].sample_format, c.sample_format) by {
                law_exact_pick_is_widest(ranges@, i, j);
            }
        }
        return Ok((c, 1));
    }
    if let Some((c, d)) = pick_integer_multiple(ranges) {
        proof {
            let i = choose|i: int| first_best_multiple(ranges@, i) && c == (ChosenConfig {
                channels: ranges@[i].channels,
                sample_rate: ranges@[i].max_sample_rate,
                sample_format: ranges@[i].sample_format,
            }) && d == ranges@[i].max_sample_rate / TARGET_SAMPLE_RATE && d >= 2;
            assert forall|j: int| 0 <= j < ranges@.len() && is_multiple_target(#[trigger] ranges@[j])
                implies !wider(ranges@[j].sample_format, c.sample_format) by {
                law_multiple_pick_is_widest(ranges@, i, j);
            }
        }
        return Ok((c, d));
    }
    Err(PickError::NoUsableRate)
}

} // verus!
