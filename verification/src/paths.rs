//! Unix path components, compared the way `std::path::Path` compares
//! them: repeated separators and `.` segments (other than a leading one)
//! do not count, so `/a//b/` and `/a/./b` are the same path.

use vstd::prelude::*;

verus! {

/// One component of a path, as a sequence of characters.
pub ghost enum Comp {
    Root,
    Cur,
    Parent,
    Normal(Seq<char>),
}

/// One component of a path.
#[derive(Debug)]
pub enum PathComponent {
    RootDir,
    CurDir,
    ParentDir,
    Normal(String),
}

impl View for PathComponent {
    type V = Comp;

    open spec fn view(&self) -> Comp {
        match self {
            PathComponent::RootDir => Comp::Root,
            PathComponent::CurDir => Comp::Cur,
            PathComponent::ParentDir => Comp::Parent,
            PathComponent::Normal(s) => Comp::Normal(s@),
        }
    }
}

pub open spec fn comps_view(v: Seq<PathComponent>) -> Seq<Comp> {
    v.map_values(|c: PathComponent| c@)
}

/// Index of the first `/` at or after `i`, or the length if none.
pub open spec fn first_slash(s: Seq<char>, i: int) -> int
    decreases s.len() - i,
{
    if i >= s.len() {
        s.len() as int
    } else if s[i] == '/' {
        i
    } else {
        first_slash(s, i + 1)
    }
}

pub proof fn lemma_first_slash_bounds(s: Seq<char>, i: int)
    requires
        0 <= i <= s.len(),
    ensures
        i <= first_slash(s, i) <= s.len(),
        first_slash(s, i) < s.len() ==> s[first_slash(s, i)] == '/',
        forall|j: int| i <= j < first_slash(s, i) ==> s[j] != '/',
    decreases s.len() - i,
{
    if i < s.len() && s[i] != '/' {
        lemma_first_slash_bounds(s, i + 1);
    }
}

/// The pieces of `s` from `start` on, split at every `/`.
pub open spec fn split_from(s: Seq<char>, start: int) -> Seq<Seq<char>>
    decreases s.len() - start,
{
    if start < 0 || start > s.len() {
        Seq::empty()
    } else {
        let k = first_slash(s, start);
        if k >= s.len() {
            seq![s.subrange(start, s.len() as int)]
        } else {
            proof {
                lemma_first_slash_bounds(s, start);
            }
            seq![s.subrange(start, k)] + split_from(s, k + 1)
        }
    }
}

/// The component a piece between separators stands for, if any:
/// empty pieces and `.` vanish.
pub open spec fn piece_comps(p: Seq<char>) -> Seq<Comp> {
    if p.len() == 0 || p == seq!['.'] {
        Seq::empty()
    } else if p == seq!['.', '.'] {
        seq![Comp::Parent]
    } else {
        seq![Comp::Normal(p)]
    }
}

pub open spec fn pieces_comps(ps: Seq<Seq<char>>) -> Seq<Comp>
    decreases ps.len(),
{
    if ps.len() == 0 {
        Seq::empty()
    } else {
        piece_comps(ps[0]) + pieces_comps(ps.drop_first())
    }
}

/// Components of a Unix path: a root if it starts with `/`, a leading
/// `.` if its first piece is `.`, then `..` and normal pieces.
pub open spec fn components(s: Seq<char>) -> Seq<Comp> {
    let head = if s.len() > 0 && s[0] == '/' {
        seq![Comp::Root]
    } else if first_slash(s, 0) == 1 && s[0] == '.' {
        seq![Comp::Cur]
    } else {
        Seq::empty()
    };
    head + pieces_comps(split_from(s, 0))
}

/// Whether `s[a..b]` is exactly `lit`.
fn range_is(s: &str, a: usize, b: usize, lit: &str) -> (r: bool)
    requires
        a <= b <= s@.len(),
    ensures
        r == (s@.subrange(a as int, b as int) == lit@),
{
    let n = lit.unicode_len();
    if b - a != n {
        return false;
    }
    let mut i: usize = 0;
    while i < n
        invariant
            n == lit@.len(),
            b - a == n,
            a <= b <= s@.len(),
            i <= n,
            forall|j: int| 0 <= j < i ==> s@[a + j] == lit@[j],
        decreases n - i,
    {
        if s.get_char(a + i) != lit.get_char(i) {
            assert(s@.subrange(a as int, b as int)[i as int] != lit@[i as int]);
            return false;
        }
        i += 1;
    }
    assert(s@.subrange(a as int, b as int) =~= lit@);
    true
}

fn piece_component(s: &str, a: usize, b: usize, out: &mut Vec<PathComponent>)
    requires
        a <= b <= s@.len(),
    ensures
        comps_view(final(out)@) == comps_view(old(out)@) + piece_comps(s@.subrange(a as int, b as int)),
{
    proof {
        reveal_strlit(".");
        reveal_strlit("..");
        assert("."@ =~= seq!['.']);
        assert(".."@ =~= seq!['.', '.']);
    }
    let ghost p = s@.subrange(a as int, b as int);
    if a == b || range_is(s, a, b, ".") {
        assert(comps_view(old(out)@) + piece_comps(p) =~= comps_view(old(out)@));
        return;
    }
    assert(p != seq!['.']);
    if range_is(s, a, b, "..") {
        assert(p == seq!['.', '.']);
        out.push(PathComponent::ParentDir);
        assert(comps_view(out@) =~= comps_view(old(out)@) + seq![Comp::Parent]);
    } else {
        let piece = s.substring_char(a, b).to_owned();
        out.push(PathComponent::Normal(piece));
        assert(comps_view(out@) =~= comps_view(old(out)@) + seq![Comp::Normal(p)]);
    }
}

/// Split a path into its components.
pub fn path_components(s: &str) -> (r: Vec<PathComponent>)
    ensures
        comps_view(r@) == components(s@),
{
    let n = s.unicode_len();
    let mut out: Vec<PathComponent> = Vec::new();
    let ghost sv = s@;
    proof {
        reveal_strlit(".");
    }
    if n > 0 && s.get_char(0) == '/' {
        out.push(PathComponent::RootDir);
    } else if n > 0 && s.get_char(0) == '.' && (n == 1 || s.get_char(1) == '/') {
        proof {
            lemma_first_slash_bounds(sv, 0);
            if n > 1 {
                assert(first_slash(sv, 1) == 1);
            }
        }
        out.push(PathComponent::CurDir);
    } else {
        proof {
            if n > 0 && sv[0] == '.' {
                assert(first_slash(sv, 0) == first_slash(sv, 1));
                lemma_first_slash_bounds(sv, 1);
            }
        }
    }
    let ghost head = comps_view(out@);
    assert(head + pieces_comps(split_from(sv, 0)) == components(sv));
    let mut start: usize = 0;
    let mut i: usize = 0;
    while i < n
        invariant
            n == sv.len(),
            sv == s@,
            start <= i <= n,
            first_slash(sv, start as int) == first_slash(sv, i as int),
            comps_view(out@) + pieces_comps(split_from(sv, start as int)) == components(sv),
        decreases n - i,
    {
        if s.get_char(i) == '/' {
            proof {
                assert(first_slash(sv, i as int) == i);
                lemma_first_slash_bounds(sv, start as int);
                let rest = split_from(sv, i + 1);
                let ps = split_from(sv, start as int);
                assert(ps == seq![sv.subrange(start as int, i as int)] + rest);
                assert(ps.drop_first() =~= rest);
                assert(pieces_comps(ps) == piece_comps(sv.subrange(start as int, i as int)) + pieces_comps(rest));
            }
            let ghost before = comps_view(out@);
            piece_component(s, start, i, &mut out);
            proof {
                let p = piece_comps(sv.subrange(start as int, i as int));
                let rest = pieces_comps(split_from(sv, i + 1));
                assert(before + (p + rest) =~= (before + p) + rest);
            }
            start = i + 1;
        }
        i += 1;
    }
    proof {
        lemma_first_slash_bounds(sv, start as int);
        let ps = split_from(sv, start as int);
        assert(ps == seq![sv.subrange(start as int, n as int)]);
        assert(ps.drop_first() =~= Seq::<Seq<char>>::empty());
        assert(pieces_comps(ps.drop_first()) == Seq::<Comp>::empty());
        assert(pieces_comps(ps) =~= piece_comps(sv.subrange(start as int, n as int)));
    }
    let ghost before = comps_view(out@);
    piece_component(s, start, n, &mut out);
    out
}

fn component_eq(a: &PathComponent, b: &PathComponent) -> (r: bool)
    ensures
        r == (a@ == b@),
{
    match (a, b) {
        (PathComponent::RootDir, PathComponent::RootDir) => true,
        (PathComponent::CurDir, PathComponent::CurDir) => true,
        (PathComponent::ParentDir, PathComponent::ParentDir) => true,
        (PathComponent::Normal(x), PathComponent::Normal(y)) => x.eq(y),
        _ => false,
    }
}

/// Whether `prefix` is a prefix of `comps`, component by component.
fn components_prefix(prefix: &Vec<PathComponent>, comps: &Vec<PathComponent>) -> (r: bool)
    ensures
        r == (comps_view(prefix@).len() <= comps_view(comps@).len()
            && comps_view(comps@).subrange(0, comps_view(prefix@).len() as int) == comps_view(prefix@)),
{
    let ghost pv = comps_view(prefix@);
    let ghost cv = comps_view(comps@);
    if prefix.len() > comps.len() {
        return false;
    }
    let mut i: usize = 0;
    while i < prefix.len()
        invariant
            pv == comps_view(prefix@),
            cv == comps_view(comps@),
            prefix@.len() <= comps@.len(),
            i <= prefix@.len(),
            forall|j: int| 0 <= j < i ==> pv[j] == cv[j],
        decreases prefix@.len() - i,
    {
        if !component_eq(&prefix[i], &comps[i]) {
            assert(cv.subrange(0, pv.len() as int)[i as int] != pv[i as int]);
            return false;
        }
        i += 1;
    }
    assert(cv.subrange(0, pv.len() as int) =~= pv);
    true
}

/// Whether two paths are equal component by component (`Path == Path`).
pub fn paths_equal(a: &str, b: &str) -> (r: bool)
    ensures
        r == (components(a@) == components(b@)),
{
    let ca = path_components(a);
    let cb = path_components(b);
    if ca.len() != cb.len() {
        return false;
    }
    let r = components_prefix(&ca, &cb);
    proof {
        if r {
            assert(comps_view(cb@).subrange(0, comps_view(ca@).len() as int) =~= comps_view(cb@));
        } else {
            assert(comps_view(cb@).subrange(0, comps_view(cb@).len() as int) =~= comps_view(cb@));
        }
    }
    r
}

/// Whether `base`'s components are a prefix of `path`'s
/// (`Path::starts_with`).
pub fn path_starts_with(path: &str, base: &str) -> (r: bool)
    ensures
        r == (components(base@).len() <= components(path@).len()
            && components(path@).subrange(0, components(base@).len() as int) == components(base@)),
{
    let cp = path_components(path);
    let cb = path_components(base);
    components_prefix(&cb, &cp)
}

/// The final component of a path when it is a normal one
/// (`Path::file_name`).
pub open spec fn file_name_spec(s: Seq<char>) -> Option<Seq<char>> {
    let cs = components(s);
    if cs.len() > 0 && cs.last() is Normal {
        Some(cs.last()->Normal_0)
    } else {
        None
    }
}

/// Index of the last `.` in `s[..end]`, or -1.
pub open spec fn last_dot(s: Seq<char>, end: int) -> int
    decreases end,
{
    if end <= 0 {
        -1
    } else if s[end - 1] == '.' {
        end - 1
    } else {
        last_dot(s, end - 1)
    }
}

proof fn lemma_last_dot_bounds(s: Seq<char>, end: int)
    requires
        0 <= end <= s.len(),
    ensures
        -1 <= last_dot(s, end) < end,
        last_dot(s, end) >= 0 ==> s[last_dot(s, end)] == '.',
    decreases end,
{
    if end > 0 && s[end - 1] != '.' {
        lemma_last_dot_bounds(s, end - 1);
    }
}

/// The stem of a file name: everything before its last `.`, unless that
/// `.` is the first character or there is none (then the whole name).
pub open spec fn stem_of_name(name: Seq<char>) -> Seq<char> {
    let k = last_dot(name, name.len() as int);
    if k > 0 {
        name.subrange(0, k)
    } else {
        name
    }
}

/// `Path::file_stem`.
pub open spec fn file_stem_spec(s: Seq<char>) -> Option<Seq<char>> {
    match file_name_spec(s) {
        Some(n) => Some(stem_of_name(n)),
        None => None,
    }
}

/// The final normal component of a path, if any.
pub fn file_name(s: &str) -> (r: Option<String>)
    ensures
        match r {
            Some(n) => file_name_spec(s@) == Some(n@),
            None => file_name_spec(s@) is None,
        },
{
    let mut cs = path_components(s);
    let ghost v = comps_view(cs@);
    match cs.pop() {
        Some(PathComponent::Normal(n)) => {
            assert(v.last() == Comp::Normal(n@));
            Some(n)
        },
        _ => None,
    }
}

fn stem_of(name: String) -> (r: String)
    ensures
        r@ == stem_of_name(name@),
{
    let n = name.as_str().unicode_len();
    let mut k = n;
    while k > 0 && name.as_str().get_char(k - 1) != '.'
        invariant
            n == name@.len(),
            k <= n,
            last_dot(name@, n as int) == last_dot(name@, k as int),
        decreases k,
    {
        k -= 1;
    }
    if k >= 2 {
        name.as_str().substring_char(0, k - 1).to_owned()
    } else {
        name
    }
}

/// The stem of a path's final component (`Path::file_stem`).
pub fn file_stem(s: &str) -> (r: Option<String>)
    ensures
        match r {
            Some(n) => file_stem_spec(s@) == Some(n@),
            None => file_stem_spec(s@) is None,
        },
{
    match file_name(s) {
        Some(n) => Some(stem_of(n)),
        None => None,
    }
}

/// The extension of a file name: what follows its last `.`, unless that
/// `.` is the first character or there is none.
pub open spec fn ext_of_name(name: Seq<char>) -> Option<Seq<char>> {
    let k = last_dot(name, name.len() as int);
    if k > 0 {
        Some(name.subrange(k + 1, name.len() as int))
    } else {
        None
    }
}

/// `Path::extension`.
pub open spec fn extension_spec(s: Seq<char>) -> Option<Seq<char>> {
    match file_name_spec(s) {
        Some(n) => ext_of_name(n),
        None => None,
    }
}

/// The extension of a path's final component, if any.
pub fn extension(s: &str) -> (r: Option<String>)
    ensures
        match r {
            Some(e) => extension_spec(s@) == Some(e@),
            None => extension_spec(s@) is None,
        },
{
    match file_name(s) {
        Some(name) => {
            let n = name.as_str().unicode_len();
            let mut k = n;
            while k > 0 && name.as_str().get_char(k - 1) != '.'
                invariant
                    n == name@.len(),
                    k <= n,
                    last_dot(name@, n as int) == last_dot(name@, k as int),
                decreases k,
            {
                k -= 1;
            }
            if k >= 2 {
                Some(name.as_str().substring_char(k, n).to_owned())
            } else {
                None
            }
        },
        None => None,
    }
}

/// Whether the path's extension is exactly `ext`.
pub fn has_extension(s: &str, ext: &str) -> (r: bool)
    ensures
        r == (extension_spec(s@) == Some(ext@)),
{
    match extension(s) {
        Some(e) => crate::text::str_eq(e.as_str(), ext),
        None => false,
    }
}

/// `base` joined with `part` the way `PathBuf::push` does on Unix: an
/// absolute `part` replaces `base`, otherwise a `/` goes between them
/// unless `base` is empty or already ends in one.
pub open spec fn joined(base: Seq<char>, part: Seq<char>) -> Seq<char> {
    if part.len() > 0 && part[0] == '/' {
        part
    } else if base.len() == 0 || base.last() == '/' {
        base + part
    } else {
        base + seq!['/'] + part
    }
}

/// Join `part` onto `base` (`Path::join`).
pub fn join(base: &str, part: &str) -> (r: String)
    ensures
        r@ == joined(base@, part@),
{
    let pl = part.unicode_len();
    if pl > 0 && part.get_char(0) == '/' {
        return part.to_owned();
    }
    let bl = base.unicode_len();
    let mut out = base.to_owned();
    if bl > 0 && base.get_char(bl - 1) != '/' {
        crate::text::push_char(&mut out, '/');
    }
    crate::text::push_str(&mut out, part);
    out
}

} // verus!
