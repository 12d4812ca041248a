//! Wakeword-name rules shared by the daemon, the CLI and the GUI.

use vstd::prelude::*;

use crate::paths::{file_name, file_name_spec, file_stem, file_stem_spec};
use crate::text::{
    all_name_chars, has_prefix, is_name_char, name_char, push_char, starts_with, str_all_name_chars, str_eq, trim,
    trim_spec,
};

verus! {

/// Why a wakeword name was refused.
#[derive(Debug, Clone, Copy, PartialEq, Eq, Structural)]
pub enum NameError {
    Empty,
    TooLong,
    InvalidChars,
    LeadingDash,
}

/// The verdict of the daemon's name check, in the order the checks run:
/// empty, then the character set, then a leading `-`.
pub open spec fn name_verdict(s: Seq<char>) -> Result<(), NameError> {
    if s.len() == 0 {
        Err(NameError::Empty)
    } else if !all_name_chars(s) {
        Err(NameError::InvalidChars)
    } else if s[0] == '-' {
        Err(NameError::LeadingDash)
    } else {
        Ok(())
    }
}

/// A name the daemon accepts: non-empty, ASCII letters / digits / `_` /
/// `-` only, not starting with `-`.
pub open spec fn is_valid_name(s: Seq<char>) -> bool {
    s.len() > 0 && all_name_chars(s) && s[0] != '-'
}

/// Validate a wakeword name.
pub fn validate_name(name: &str) -> (r: Result<(), NameError>)
    ensures
        r == name_verdict(name@),
        r is Ok <==> is_valid_name(name@),
{
    if name.is_empty() {
        return Err(NameError::Empty);
    }
    if !str_all_name_chars(name) {
        return Err(NameError::InvalidChars);
    }
    if name.get_char(0) == '-' {
        return Err(NameError::LeadingDash);
    }
    Ok(())
}

/// Longest name (in UTF-8 bytes) the GUI accepts.
pub const MAX_NAME_LEN: usize = 64;

/// The GUI's verdict on a user-supplied name, after trimming white space:
/// empty, then too long (bytes), then a leading `-`, then the character set.
pub open spec fn sanitize_verdict(s: Seq<char>) -> Result<Seq<char>, NameError> {
    let t = trim_spec(s);
    if t.len() == 0 {
        Err(NameError::Empty)
    } else if vstd::utf8::encode_utf8(t).len() > MAX_NAME_LEN {
        Err(NameError::TooLong)
    } else if t[0] == '-' {
        Err(NameError::LeadingDash)
    } else if !all_name_chars(t) {
        Err(NameError::InvalidChars)
    } else {
        Ok(t)
    }
}

/// Trim and check a name handed in by the GUI; returns the trimmed name.
pub fn sanitize_name(name: &str) -> (r: Result<String, NameError>)
    ensures
        match r {
            Ok(t) => sanitize_verdict(name@) == Ok::<Seq<char>, NameError>(t@),
            Err(e) => sanitize_verdict(name@) == Err::<Seq<char>, NameError>(e),
        },
{
    let trimmed = trim(name);
    if trimmed.is_empty() {
        return Err(NameError::Empty);
    }
    if trimmed.as_bytes().len() > MAX_NAME_LEN {
        return Err(NameError::TooLong);
    }
    if trimmed.get_char(0) == '-' {
        return Err(NameError::LeadingDash);
    }
    if !str_all_name_chars(trimmed) {
        return Err(NameError::InvalidChars);
    }
    Ok(trimmed.to_owned())
}

/// `s` is an `http://` or `https://` URL.
pub open spec fn is_url_spec(s: Seq<char>) -> bool {
    has_prefix(s, "http://"@) || has_prefix(s, "https://"@)
}

/// Whether a model source is a download URL rather than a local path.
pub fn is_url(source: &str) -> (r: bool)
    ensures
        r == is_url_spec(source@),
{
    starts_with(source, "http://") || starts_with(source, "https://")
}

/// `s[..end]` without trailing `/` characters.
pub open spec fn trim_slashes_end(s: Seq<char>, end: int) -> int
    decreases end,
{
    if end > 0 && s[end - 1] == '/' {
        trim_slashes_end(s, end - 1)
    } else {
        end
    }
}

/// Index of the last `c` in `s[..end]`, or -1.
pub open spec fn last_index_of(s: Seq<char>, c: char, end: int) -> int
    decreases end,
{
    if end <= 0 {
        -1
    } else if s[end - 1] == c {
        end - 1
    } else {
        last_index_of(s, c, end - 1)
    }
}

/// Index of the first `c` in `s[i..]`, or the length.
pub open spec fn first_index_of(s: Seq<char>, c: char, i: int) -> int
    decreases s.len() - i,
{
    if i >= s.len() {
        s.len() as int
    } else if s[i] == c {
        i
    } else {
        first_index_of(s, c, i + 1)
    }
}

/// The last path segment of a URL, without a query: trailing `/` are
/// dropped, then everything up to the last `/`, then everything from the
/// first `?`.
pub open spec fn url_basename(s: Seq<char>) -> Seq<char> {
    let t = trim_slashes_end(s, s.len() as int);
    let slash = last_index_of(s, '/', t);
    let q = first_index_of(s, '?', slash + 1);
    let e = if q < t { q } else { t };
    s.subrange(slash + 1, e)
}

/// Why no file name could be derived from a model source.
#[derive(Debug, Clone, Copy, PartialEq, Eq, Structural)]
pub enum BasenameError {
    /// The URL has no usable last segment.
    EmptyUrlSegment,
    /// The path has no final file-name component.
    NoFileName,
}

pub open spec fn basename_verdict(s: Seq<char>) -> Result<Seq<char>, BasenameError> {
    if is_url_spec(s) {
        if url_basename(s).len() == 0 {
            Err(BasenameError::EmptyUrlSegment)
        } else {
            Ok(url_basename(s))
        }
    } else {
        match file_name_spec(s) {
            Some(n) => Ok(n),
            None => Err(BasenameError::NoFileName),
        }
    }
}

proof fn lemma_trim_slashes_bounds(s: Seq<char>, end: int)
    requires
        0 <= end <= s.len(),
    ensures
        0 <= trim_slashes_end(s, end) <= end,
    decreases end,
{
    if end > 0 && s[end - 1] == '/' {
        lemma_trim_slashes_bounds(s, end - 1);
    }
}

proof fn lemma_last_index_bounds(s: Seq<char>, c: char, end: int)
    requires
        0 <= end <= s.len(),
    ensures
        -1 <= last_index_of(s, c, end) < end,
    decreases end,
{
    if end > 0 && s[end - 1] != c {
        lemma_last_index_bounds(s, c, end - 1);
    }
}

proof fn lemma_first_index_bounds(s: Seq<char>, c: char, i: int)
    requires
        0 <= i <= s.len(),
    ensures
        i <= first_index_of(s, c, i) <= s.len(),
    decreases s.len() - i,
{
    if i < s.len() && s[i] != c {
        lemma_first_index_bounds(s, c, i + 1);
    }
}

/// The file name a model source will be staged under: the last URL
/// segment (without query) for `http(s)://` sources, the final path
/// component otherwise.
pub fn derive_basename(source: &str) -> (r: Result<String, BasenameError>)
    ensures
        match r {
            Ok(n) => basename_verdict(source@) == Ok::<Seq<char>, BasenameError>(n@),
            Err(e) => basename_verdict(source@) == Err::<Seq<char>, BasenameError>(e),
        },
{
    if is_url(source) {
        let n = source.unicode_len();
        let mut t = n;
        while t > 0 && source.get_char(t - 1) == '/'
            invariant
                n == source@.len(),
                t <= n,
                trim_slashes_end(source@, n as int) == trim_slashes_end(source@, t as int),
            decreases t,
        {
            t -= 1;
        }
        let mut k = t;
        while k > 0 && source.get_char(k - 1) != '/'
            invariant
                n == source@.len(),
                k <= t <= n,
                last_index_of(source@, '/', t as int) == last_index_of(source@, '/', k as int),
            decreases k,
        {
            k -= 1;
        }
        let start = k;
        proof {
            lemma_trim_slashes_bounds(source@, n as int);
            lemma_last_index_bounds(source@, '/', t as int);
        }
        let mut q = start;
        while q < n && source.get_char(q) != '?'
            invariant
                n == source@.len(),
                start <= q <= n,
                first_index_of(source@, '?', start as int) == first_index_of(source@, '?', q as int),
            decreases n - q,
        {
            q += 1;
        }
        let e = if q < t { q } else { t };
        if e <= start {
            return Err(BasenameError::EmptyUrlSegment);
        }
        Ok(source.substring_char(start, e).to_owned())
    } else {
        match file_name(source) {
            Some(n) => Ok(n),
            None => Err(BasenameError::NoFileName),
        }
    }
}

/// `c`, or `_` when `c` may not appear in a wakeword name.
pub open spec fn name_char_or_underscore(c: char) -> char {
    if is_name_char(c) { c } else { '_' }
}

/// The default wakeword name for a staged model file: the file stem
/// (or the whole basename when it has none) with every character that a
/// name may not hold replaced by `_`; refused when that is empty or
/// starts with `-`.
pub open spec fn default_name_verdict(basename: Seq<char>) -> Option<Seq<char>> {
    let stem = match file_stem_spec(basename) {
        Some(s) => s,
        None => basename,
    };
    let sanitized = stem.map_values(|c: char| name_char_or_underscore(c));
    if sanitized.len() == 0 || sanitized[0] == '-' {
        None
    } else {
        Some(sanitized)
    }
}

/// Derive a wakeword name from a model's file name; `None` when no usable
/// name comes out (the caller then asks for an explicit one).
pub fn derive_default_name(basename: &str) -> (r: Option<String>)
    ensures
        match r {
            Some(n) => default_name_verdict(basename@) == Some(n@),
            None => default_name_verdict(basename@) is None,
        },
{
    let stem: String = match file_stem(basename) {
        Some(s) => s,
        None => basename.to_owned(),
    };
    let ghost sv = stem@;
    let n = stem.as_str().unicode_len();
    let mut out = String::new();
    let mut i: usize = 0;
    while i < n
        invariant
            n == sv.len(),
            sv == stem@,
            i <= n,
            out@ == sv.subrange(0, i as int).map_values(|c: char| name_char_or_underscore(c)),
        decreases n - i,
    {
        let c = stem.as_str().get_char(i);
        let mapped = if name_char(c) { c } else { '_' };
        push_char(&mut out, mapped);
        i += 1;
        assert(out@ =~= sv.subrange(0, i as int).map_values(|c: char| name_char_or_underscore(c)));
    }
    assert(sv.subrange(0, n as int) =~= sv);
    if n == 0 || out.as_str().get_char(0) == '-' {
        return None;
    }
    Some(out)
}

/// Whether a detection named `name` passes a client's wakeword filter:
/// no filter lets everything through.
pub open spec fn filter_accepts(filter: Option<Seq<Seq<char>>>, name: Seq<char>) -> bool {
    match filter {
        None => true,
        Some(names) => names.contains(name),
    }
}

pub open spec fn names_view(v: Seq<String>) -> Seq<Seq<char>> {
    v.map_values(|s: String| s@)
}

/// Apply a client's wakeword filter to a detection name.
pub fn filter_match(filter: Option<&Vec<String>>, name: &str) -> (r: bool)
    ensures
        r == filter_accepts(
            match filter {
                Some(v) => Some(names_view(v@)),
                None => None,
            },
            name@,
        ),
{
    match filter {
        None => true,
        Some(names) => {
            let mut i: usize = 0;
            while i < names.len()
                invariant
                    filter == Some(names),
                    i <= names@.len(),
                    forall|j: int| 0 <= j < i ==> names@[j]@ != name@,
                decreases names@.len() - i,
            {
                if str_eq(names[i].as_str(), name) {
                    assert(names_view(names@)[i as int] == name@);
                    assert(names_view(names@).contains(name@));
                    return true;
                }
                i += 1;
            }
            assert forall|j: int| 0 <= j < names_view(names@).len() implies names_view(names@)[j] != name@ by {
                assert(names_view(names@)[j] == names@[j]@);
            }
            false
        },
    }
}

proof fn lemma_no_slash(s: Seq<char>, i: int)
    requires
        0 <= i <= s.len(),
        all_name_chars(s),
    ensures
        crate::paths::first_slash(s, i) == s.len(),
    decreases s.len() - i,
{
    if i < s.len() {
        assert(is_name_char(s[i]));
        lemma_no_slash(s, i + 1);
    }
}

/// An accepted wakeword name is exactly one normal path component: no
/// separator, no `.` or `..`, so joining it onto a directory can never
/// leave that directory. This holds of the daemon's check and of the
/// front end's (for the trimmed name it returns).
pub proof fn law_valid_name_is_one_component(name: Seq<char>)
    ensures
        name_verdict(name) is Ok ==> crate::paths::components(name) == seq![crate::paths::Comp::Normal(name)],
        sanitize_verdict(name) matches Ok(t) ==> crate::paths::components(t) == seq![crate::paths::Comp::Normal(t)],
{
    if name_verdict(name) is Ok {
        lemma_one_component(name);
    }
    if sanitize_verdict(name) is Ok {
        lemma_one_component(trim_spec(name));
    }
}

proof fn lemma_one_component(t: Seq<char>)
    requires
        t.len() > 0,
        all_name_chars(t),
    ensures
        crate::paths::components(t) == seq![crate::paths::Comp::Normal(t)],
{
    lemma_no_slash(t, 0);
    assert(is_name_char(t[0]));
    assert(t.subrange(0, t.len() as int) =~= t);
    assert(crate::paths::split_from(t, 0) =~= seq![t]);
    assert(t != seq!['.']) by {
        if t == seq!['.'] {
            assert(t[0] == '.');
        }
    }
    assert(t != seq!['.', '.']) by {
        if t == seq!['.', '.'] {
            assert(t[0] == '.');
        }
    }
    reveal_with_fuel(crate::paths::pieces_comps, 2);
    assert(crate::paths::pieces_comps(seq![t]) =~= seq![crate::paths::Comp::Normal(t)]);
    assert(crate::paths::components(t) =~= seq![crate::paths::Comp::Normal(t)]);
}

} // verus!
