//! Importing a wakeword model from a URL or a local path: checking the
//! request, guarding a download against oversized bodies while hashing
//! it, and printing the digest.

use vstd::prelude::*;

use sha2::Digest;

use crate::config::{validate_cooldown, CooldownTooLong};
use crate::names::{
    basename_verdict, default_name_verdict, derive_basename, derive_default_name, is_url, is_url_spec,
    name_verdict, validate_name, BasenameError, NameError,
};
use crate::text::{push_char, trim, trim_spec};

verus! {

/// Largest model download accepted (50 MiB).
pub const MAX_DOWNLOAD_BYTES: u64 = 52428800;

/// A running SHA-256 computation (`sha2::Sha256`). Verus refuses the
/// declaration of `sha2::Sha256` itself (an alias of a type with bounds
/// over type-level integers), so the hasher is held here, out of sight;
/// [`hashed`] names what it has been fed.
#[verifier::external_body]
pub struct Hasher {
    inner: sha2::Sha256,
}

/// The SHA-256 digest of `data`.
pub uninterp spec fn sha256_digest(data: Seq<u8>) -> Seq<u8>;

/// The bytes a hasher has been fed so far.
pub uninterp spec fn hashed(h: Hasher) -> Seq<u8>;

/// `Sha256::new`: a hasher that has been fed nothing.
#[verifier::external_body]
fn hasher_new() -> (h: Hasher)
    ensures
        hashed(h) == Seq::<u8>::empty(),
{
    Hasher { inner: sha2::Sha256::new() }
}

/// `Digest::update`: feed `data` to the hasher.
#[verifier::external_body]
fn hasher_update(h: &mut Hasher, data: &[u8])
    ensures
        hashed(*final(h)) == hashed(*old(h)) + data@,
{
    h.inner.update(data);
}

/// `Digest::finalize`: the 32-byte digest of everything fed.
#[verifier::external_body]
fn hasher_finalize(h: Hasher) -> (d: Vec<u8>)
    ensures
        d@ == sha256_digest(hashed(h)),
        d@.len() == 32,
{
    h.inner.finalize().to_vec()
}

/// Lower-case hexadecimal digit of `d < 16`.
pub open spec fn hex_digit(d: nat) -> char {
    if d < 10 { ((d + 48) as u8) as char } else { ((d + 87) as u8) as char }
}

/// Two lower-case hexadecimal digits per byte.
pub open spec fn hex_spec(bytes: Seq<u8>) -> Seq<char>
    decreases bytes.len(),
{
    if bytes.len() == 0 {
        Seq::empty()
    } else {
        hex_spec(bytes.drop_last()) + seq![hex_digit((bytes.last() / 16) as nat), hex_digit((bytes.last() % 16) as nat)]
    }
}

fn hex_char(d: u8) -> (c: char)
    requires
        d < 16,
    ensures
        c == hex_digit(d as nat),
{
    if d < 10 { (d + 48) as char } else { (d + 87) as char }
}

/// Render bytes as lower-case hexadecimal.
pub fn hex(bytes: &[u8]) -> (s: String)
    ensures
        s@ == hex_spec(bytes@),
{
    let mut s = String::new();
    let mut i: usize = 0;
    while i < bytes.len()
        invariant
            i <= bytes@.len(),
            s@ == hex_spec(bytes@.subrange(0, i as int)),
        decreases bytes@.len() - i,
    {
        let b = bytes[i];
        push_char(&mut s, hex_char(b / 16));
        push_char(&mut s, hex_char(b % 16));
        assert(bytes@.subrange(0, i + 1).drop_last() =~= bytes@.subrange(0, i as int));
        assert(s@ =~= hex_spec(bytes@.subrange(0, i + 1)));
        i += 1;
    }
    assert(bytes@.subrange(0, bytes@.len() as int) =~= bytes@);
    s
}

/// A download in progress: what has been received is counted (with a
/// saturating count) and hashed, and the body is refused once the count
/// passes [`MAX_DOWNLOAD_BYTES`].
pub struct Download {
    hasher: Hasher,
    received: u64,
}

/// The body grew past the cap.
#[derive(Debug, Clone, Copy, PartialEq, Eq, Structural)]
pub struct TooLarge {
    pub received: u64,
    pub cap: u64,
}

/// An announced length over the cap is refused before anything is read.
pub fn check_content_length(len: Option<u64>) -> (r: Result<(), TooLarge>)
    ensures
        r is Err <==> (len is Some && len.unwrap() > MAX_DOWNLOAD_BYTES),
        r matches Err(e) ==> e.received == len.unwrap() && e.cap == MAX_DOWNLOAD_BYTES,
{
    match len {
        Some(n) => if n > MAX_DOWNLOAD_BYTES {
            Err(TooLarge { received: n, cap: MAX_DOWNLOAD_BYTES })
        } else {
            Ok(())
        },
        None => Ok(()),
    }
}

impl Download {
    /// The bytes accepted so far.
    pub closed spec fn body(&self) -> Seq<u8> {
        hashed(self.hasher)
    }

    /// The saturating count of bytes received so far.
    pub closed spec fn received_spec(&self) -> u64 {
        self.received
    }

    /// The accepted bytes fit under the cap and are what was counted.
    pub closed spec fn wf(&self) -> bool {
        &&& self.received <= MAX_DOWNLOAD_BYTES
        &&& self.body().len() == self.received as nat
    }

    /// A download that has received nothing.
    pub fn new() -> (d: Download)
        ensures
            d.wf(),
            d.body() == Seq::<u8>::empty(),
            d.received_spec() == 0,
    {
        Download { hasher: hasher_new(), received: 0 }
    }

    /// Take the next chunk of the body. A chunk that would take the
    /// total past the cap is refused and leaves the download as it was.
    pub fn accept(&mut self, chunk: &[u8]) -> (r: Result<(), TooLarge>)
        requires
            old(self).wf(),
        ensures
            final(self).wf(),
            r is Err <==> old(self).received_spec() + chunk@.len() > MAX_DOWNLOAD_BYTES,
            r is Ok ==> final(self).body() == old(self).body() + chunk@
                && final(self).received_spec() == old(self).received_spec() + chunk@.len(),
            r is Err ==> *final(self) == *old(self),
            r matches Err(e) ==> e.cap == MAX_DOWNLOAD_BYTES && e.received == if old(self).received_spec()
                + chunk@.len() > u64::MAX {
                u64::MAX
            } else {
                (old(self).received_spec() + chunk@.len()) as u64
            },
    {
        let len = chunk.len() as u64;
        let total = self.received.saturating_add(len);
        if total > MAX_DOWNLOAD_BYTES {
            return Err(TooLarge { received: total, cap: MAX_DOWNLOAD_BYTES });
        }
        self.received = total;
        hasher_update(&mut self.hasher, chunk);
        Ok(())
    }

    /// Finish: the lower-case hex SHA-256 of the accepted body.
    pub fn finish(self) -> (digest: String)
        ensures
            digest@ == hex_spec(sha256_digest(self.body())),
            digest@.len() == 64,
    {
        let d = hasher_finalize(self.hasher);
        proof {
            lemma_hex_len(d@);
        }
        hex(d.as_slice())
    }
}

proof fn lemma_hex_len(b: Seq<u8>)
    ensures
        hex_spec(b).len() == 2 * b.len(),
    decreases b.len(),
{
    if b.len() > 0 {
        lemma_hex_len(b.drop_last());
    }
}

/// Why an import request was refused.
#[derive(Debug, Clone, PartialEq, Eq)]
pub enum ImportError {
    EmptySource,
    Basename(BasenameError),
    Name(NameError),
    NoDefaultName,
    ThresholdOutOfRange,
    Cooldown(CooldownTooLong),
}

/// What an accepted import request resolves to.
#[derive(Debug, Clone, PartialEq, Eq)]
pub struct ImportPlan {
    /// The source, trimmed.
    pub source: String,
    /// The file name the model is staged under.
    pub basename: String,
    /// The name the wakeword is registered under.
    pub name: String,
    /// Whether the source is downloaded (else copied).
    pub from_url: bool,
}

pub ghost enum ImportFault {
    EmptySource,
    Basename(BasenameError),
    Name(NameError),
    NoDefaultName,
    ThresholdOutOfRange,
    Cooldown(u32),
}

pub open spec fn import_fault(e: ImportError) -> ImportFault {
    match e {
        ImportError::EmptySource => ImportFault::EmptySource,
        ImportError::Basename(b) => ImportFault::Basename(b),
        ImportError::Name(n) => ImportFault::Name(n),
        ImportError::NoDefaultName => ImportFault::NoDefaultName,
        ImportError::ThresholdOutOfRange => ImportFault::ThresholdOutOfRange,
        ImportError::Cooldown(c) => ImportFault::Cooldown(c.got),
    }
}

/// The checks of an import request, in order: a non-blank source, a
/// file name derivable from it, the wakeword name (the one given, which
/// must be valid, or one derived from the file name), the threshold,
/// the cooldown. Success gives (source, basename, name, from_url).
pub open spec fn import_verdict(
    source: Seq<char>,
    register_as: Option<Seq<char>>,
    threshold_in_range: bool,
    cooldown_ms: u32,
) -> Result<(Seq<char>, Seq<char>, Seq<char>, bool), ImportFault> {
    let src = trim_spec(source);
    if src.len() == 0 {
        Err(ImportFault::EmptySource)
    } else {
        match basename_verdict(src) {
            Err(b) => Err(ImportFault::Basename(b)),
            Ok(base) => {
                let name: Result<Seq<char>, ImportFault> = match register_as {
                    Some(n) => match name_verdict(n) {
                        Ok(_) => Ok(n),
                        Err(e) => Err(ImportFault::Name(e)),
                    },
                    None => match default_name_verdict(base) {
                        Some(d) => Ok(d),
                        None => Err(ImportFault::NoDefaultName),
                    },
                };
                match name {
                    Err(f) => Err(f),
                    Ok(n) => if !threshold_in_range {
                        Err(ImportFault::ThresholdOutOfRange)
                    } else if cooldown_ms > crate::config::MAX_COOLDOWN_MS {
                        Err(ImportFault::Cooldown(cooldown_ms))
                    } else {
                        Ok((src, base, n, is_url_spec(src)))
                    },
                }
            },
        }
    }
}

pub open spec fn opt_str_view(o: Option<&str>) -> Option<Seq<char>> {
    match o {
        Some(s) => Some(s@),
        None => None,
    }
}

/// Check an import request. `threshold_in_range` says whether the
/// requested threshold lies in `(0, 1]`.
pub fn plan_import(source: &str, register_as: Option<&str>, threshold_in_range: bool, cooldown_ms: u32) -> (r: Result<ImportPlan, ImportError>)
    ensures
        match r {
            Ok(p) => import_verdict(source@, opt_str_view(register_as), threshold_in_range, cooldown_ms)
                == Ok::<(Seq<char>, Seq<char>, Seq<char>, bool), ImportFault>((p.source@, p.basename@, p.name@, p.from_url)),
            Err(e) => import_verdict(source@, opt_str_view(register_as), threshold_in_range, cooldown_ms)
                == Err::<(Seq<char>, Seq<char>, Seq<char>, bool), ImportFault>(import_fault(e)),
        },
{
    let src = trim(source);
    if src.unicode_len() == 0 {
        return Err(ImportError::EmptySource);
    }
    let basename = match derive_basename(src) {
        Ok(b) => b,
        Err(e) => {
            return Err(ImportError::Basename(e));
        },
    };
    let name = match register_as {
        Some(n) => match validate_name(n) {
            Ok(()) => n.to_owned(),
            Err(e) => {
                return Err(ImportError::Name(e));
            },
        },
        None => match derive_default_name(basename.as_str()) {
            Some(d) => d,
            None => {
                return Err(ImportError::NoDefaultName);
            },
        },
    };
    if !threshold_in_range {
        return Err(ImportError::ThresholdOutOfRange);
    }
    match validate_cooldown(cooldown_ms) {
        Ok(()) => {},
        Err(e) => {
            return Err(ImportError::Cooldown(e));
        },
    }
    let from_url = is_url(src);
    Ok(ImportPlan { source: src.to_owned(), basename, name, from_url })
}

/// Whether a URL source is fetched: not when the staged file is already
/// there, unless forced.
pub fn should_download(dest_exists: bool, force: bool) -> (b: bool)
    ensures
        b == (!dest_exists || force),
{
    !dest_exists || force
}

/// What staging a local model file comes to.
#[derive(Debug, Clone, Copy, PartialEq, Eq, Structural)]
pub enum Staging {
    /// The source does not exist.
    Missing,
    /// The source is not a regular file.
    NotAFile,
    /// The source already is the staged file.
    AlreadyInPlace,
    /// A staged file is there and overwriting was not asked for.
    KeepExisting,
    /// Copy the source over.
    Copy,
}

/// Decide how a local source is staged, from what the file system says.
pub fn stage_decision(exists: bool, is_file: bool, same_as_dest: bool, dest_exists: bool, force: bool) -> (s: Staging)
    ensures
        s == (if !exists {
            Staging::Missing
        } else if !is_file {
            Staging::NotAFile
        } else if same_as_dest {
            Staging::AlreadyInPlace
        } else if dest_exists && !force {
            Staging::KeepExisting
        } else {
            Staging::Copy
        }),
{
    if !exists {
        Staging::Missing
    } else if !is_file {
        Staging::NotAFile
    } else if same_as_dest {
        Staging::AlreadyInPlace
    } else if dest_exists && !force {
        Staging::KeepExisting
    } else {
        Staging::Copy
    }
}

/// Width of a table column: the longest entry (in bytes), at least `min`.
pub fn column_width(entries: &Vec<String>, min: usize) -> (w: usize)
    ensures
        w >= min,
        forall|i: int| 0 <= i < entries@.len() ==> vstd::utf8::encode_utf8(#[trigger] entries@[i]@).len() <= w,
        w == min || exists|i: int| 0 <= i < entries@.len() && vstd::utf8::encode_utf8(#[trigger] entries@[i]@).len() == w,
{
    let mut w = min;
    let mut i: usize = 0;
    while i < entries.len()
        invariant
            i <= entries@.len(),
            w >= min,
            forall|k: int| 0 <= k < i ==> vstd::utf8::encode_utf8(#[trigger] entries@[k]@).len() <= w,
            w == min || exists|k: int| 0 <= k < i && vstd::utf8::encode_utf8(#[trigger] entries@[k]@).len() == w,
        decreases entries@.len() - i,
    {
        let n = entries[i].as_str().as_bytes().len();
        if n > w {
            w = n;
        }
        i += 1;
    }
    w
}

/// Longest wait between reconnection attempts (10 s).
pub const MAX_BACKOFF_MS: u64 = 10000;

/// The next reconnection wait: double, capped at [`MAX_BACKOFF_MS`].
pub fn next_backoff_ms(ms: u64) -> (n: u64)
    requires
        ms <= MAX_BACKOFF_MS,
    ensures
        n == (if 2 * ms < MAX_BACKOFF_MS { 2 * ms } else { MAX_BACKOFF_MS as int }),
{
    let d = ms * 2;
    if d < MAX_BACKOFF_MS { d } else { MAX_BACKOFF_MS }
}

/// The wait never exceeds the cap and never shrinks below where it
/// started, however many times it is doubled.
pub proof fn law_backoff_bounded(ms: u64, k: nat)
    requires
        ms <= MAX_BACKOFF_MS,
    ensures
        ms <= backoff_after(ms, k) <= MAX_BACKOFF_MS,
    decreases k,
{
    if k > 0 {
        law_backoff_bounded(ms, (k - 1) as nat);
    }
}

/// The wait after `k` failed attempts, starting from `ms`.
pub open spec fn backoff_after(ms: u64, k: nat) -> u64
    decreases k,
{
    if k == 0 {
        ms
    } else {
        let p = backoff_after(ms, (k - 1) as nat);
        if 2 * p < MAX_BACKOFF_MS { (2 * p) as u64 } else { MAX_BACKOFF_MS }
    }
}

} // verus!
