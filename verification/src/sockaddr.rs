//! The text form of a socket address, as `SocketAddr`'s parser reads it:
//! `A.B.C.D:PORT` (four decimal octets, no leading zeros) or
//! `[V6]:PORT` / `[V6%SCOPE]:PORT`, where `V6` is up to eight groups of
//! one to four hex digits separated by `:`, with at most one `::`
//! standing for the groups left out and an IPv4 address allowed in place
//! of the last two groups. A port is one or more decimal digits up to
//! 65535, a scope one or more decimal digits up to `u32::MAX`.

use vstd::prelude::*;

use crate::text::{all_digits, digits_value, is_digit, parse_u64, parse_u64_spec, number_body, push_char};

verus! {

/// `s` split at every `c` (`str::split`): each `c` starts a new field.
pub open spec fn fields(s: Seq<char>, c: char) -> Seq<Seq<char>>
    decreases s.len(),
{
    if s.len() == 0 {
        seq![Seq::<char>::empty()]
    } else {
        let r = fields(s.drop_last(), c);
        if s.last() == c {
            r.push(Seq::<char>::empty())
        } else {
            r.update(r.len() - 1, r.last().push(s.last()))
        }
    }
}

pub proof fn lemma_fields_nonempty(s: Seq<char>, c: char)
    ensures
        fields(s, c).len() >= 1,
    decreases s.len(),
{
    if s.len() > 0 {
        lemma_fields_nonempty(s.drop_last(), c);
    }
}

pub open spec fn views(v: Seq<String>) -> Seq<Seq<char>> {
    v.map_values(|x: String| x@)
}

/// Split `s` at every `c`.
pub fn split_fields(s: &str, c: char) -> (out: Vec<String>)
    ensures
        views(out@) == fields(s@, c),
{
    let n = s.unicode_len();
    let mut done: Vec<String> = Vec::new();
    let mut cur = String::new();
    let mut i: usize = 0;
    assert(s@.subrange(0, 0) =~= Seq::<char>::empty());
    while i < n
        invariant
            n == s@.len(),
            i <= n,
            fields(s@.subrange(0, i as int), c) == views(done@).push(cur@),
        decreases n - i,
    {
        let ch = s.get_char(i);
        let ghost pre = s@.subrange(0, i as int);
        let ghost nxt = s@.subrange(0, i as int + 1);
        assert(nxt.drop_last() =~= pre);
        assert(nxt.last() == ch);
        if ch == c {
            let old_cur = cur;
            done.push(old_cur);
            cur = String::new();
            assert(views(done@) =~= views(done@.drop_last()).push(old_cur@));
            assert(done@.drop_last() =~= done@.subrange(0, done@.len() - 1));
        } else {
            push_char(&mut cur, ch);
            assert(fields(nxt, c) =~= views(done@).push(cur@));
        }
        i += 1;
    }
    assert(s@.subrange(0, n as int) =~= s@);
    done.push(cur);
    done
}


pub open spec fn is_hex(c: char) -> bool {
    is_digit(c) || ('a' <= c && c <= 'f') || ('A' <= c && c <= 'F')
}

/// One group of an IPv6 address: one to four hex digits.
pub open spec fn hex_group(f: Seq<char>) -> bool {
    1 <= f.len() <= 4 && forall|i: int| 0 <= i < f.len() ==> is_hex(#[trigger] f[i])
}

/// One octet of an IPv4 address: one to three decimal digits, no leading
/// zero, at most 255.
pub open spec fn octet(f: Seq<char>) -> bool {
    &&& 1 <= f.len() <= 3
    &&& all_digits(f)
    &&& (f.len() == 1 || f[0] != '0')
    &&& digits_value(f) <= 255
}

/// Decimal digits, at least one, whose value is at most `max`.
pub open spec fn decimal_upto(f: Seq<char>, max: nat) -> bool {
    f.len() > 0 && all_digits(f) && digits_value(f) <= max
}

/// An IPv4 address: four octets separated by `.`.
pub open spec fn ipv4_text(s: Seq<char>) -> bool {
    let fs = fields(s, '.');
    fs.len() == 4 && forall|i: int| 0 <= i < 4 ==> octet(#[trigger] fs[i])
}

fn hex_group_ok(f: &str) -> (b: bool)
    ensures
        b == hex_group(f@),
{
    let n = f.unicode_len();
    if n < 1 || n > 4 {
        return false;
    }
    let mut i: usize = 0;
    while i < n
        invariant
            n == f@.len(),
            i <= n,
            forall|j: int| 0 <= j < i ==> is_hex(#[trigger] f@[j]),
        decreases n - i,
    {
        let c = f.get_char(i);
        if !(('0' <= c && c <= '9') || ('a' <= c && c <= 'f') || ('A' <= c && c <= 'F')) {
            return false;
        }
        i += 1;
    }
    true
}

/// Whether `f` is decimal digits, at least one, of value at most `max`.
fn decimal_upto_ok(f: &str, max: u64) -> (b: bool)
    ensures
        b == decimal_upto(f@, max as nat),
{
    let n = f.unicode_len();
    if n == 0 {
        return false;
    }
    let c0 = f.get_char(0);
    if !('0' <= c0 && c0 <= '9') {
        assert(!all_digits(f@)) by {
            assert(!is_digit(f@[0]));
        }
        return false;
    }
    assert(number_body(f@) == f@);
    match parse_u64(f) {
        Some(v) => v <= max,
        None => {
            proof {
                if all_digits(f@) && digits_value(f@) <= max {
                    assert(digits_value(f@) <= u64::MAX);
                }
            }
            false
        },
    }
}

fn octet_ok(f: &str) -> (b: bool)
    ensures
        b == octet(f@),
{
    let n = f.unicode_len();
    if n < 1 || n > 3 {
        return false;
    }
    if n > 1 && f.get_char(0) == '0' {
        return false;
    }
    decimal_upto_ok(f, 255)
}

fn ipv4_ok(s: &str) -> (b: bool)
    ensures
        b == ipv4_text(s@),
{
    let fs = split_fields(s, '.');
    if fs.len() != 4 {
        return false;
    }
    assert(views(fs@)[0] == fs@[0]@ && views(fs@)[1] == fs@[1]@ && views(fs@)[2] == fs@[2]@ && views(fs@)[3] == fs@[3]@);
    let r = octet_ok(fs[0].as_str()) && octet_ok(fs[1].as_str()) && octet_ok(fs[2].as_str()) && octet_ok(fs[3].as_str());
    proof {
        let v = fields(s@, '.');
        if !r {
            assert(!octet(v[0]) || !octet(v[1]) || !octet(v[2]) || !octet(v[3]));
        }
    }
    r
}


/// Groups separated by `:`: each one to four hex digits, except that the
/// last may be an IPv4 address when `v4_last`.
pub open spec fn group_list(fs: Seq<Seq<char>>, v4_last: bool) -> bool {
    &&& fs.len() >= 1
    &&& forall|i: int| 0 <= i < fs.len() - 1 ==> hex_group(#[trigger] fs[i])
    &&& (hex_group(fs.last()) || (v4_last && ipv4_text(fs.last())))
}

/// The 16-bit groups a group list stands for: an IPv4 address counts two.
pub open spec fn slots(fs: Seq<Seq<char>>) -> int {
    if hex_group(fs.last()) { fs.len() as int } else { fs.len() as int + 1 }
}

/// Index of the first `::` in `s` at or after `i`, `-1` if none.
pub open spec fn pair_from(s: Seq<char>, i: int) -> int
    decreases s.len() - i,
{
    if i < 0 || i + 1 >= s.len() {
        -1
    } else if s[i] == ':' && s[i + 1] == ':' {
        i
    } else {
        pair_from(s, i + 1)
    }
}

/// An IPv6 address: eight groups, or fewer around the one `::` (the
/// first one in the text) that stands for the rest; an IPv4 address may
/// stand for the last two groups, but not just before the `::`.
pub open spec fn ipv6_text(s: Seq<char>) -> bool {
    let k = pair_from(s, 0);
    if k < 0 {
        group_list(fields(s, ':'), true) && slots(fields(s, ':')) == 8
    } else {
        let h = s.subrange(0, k);
        let t = s.subrange(k + 2, s.len() as int);
        let hn: int = if h.len() == 0 { 0 } else { fields(h, ':').len() as int };
        let tn: int = if t.len() == 0 { 0 } else { slots(fields(t, ':')) };
        &&& (h.len() == 0 || group_list(fields(h, ':'), false))
        &&& (t.len() == 0 || group_list(fields(t, ':'), true))
        &&& hn + tn <= 7
    }
}

/// Whether the fields form a group list; if so, how many there are and
/// whether the last is an IPv4 address.
fn group_list_shape(fs: &Vec<String>, v4_last: bool) -> (r: Option<(usize, bool)>)
    ensures
        r is Some <==> group_list(views(fs@), v4_last),
        r matches Some((n, v4)) ==> n == fs@.len() && slots(views(fs@)) == n + (if v4 { 1int } else { 0 }),
{
    let n = fs.len();
    if n == 0 {
        return None;
    }
    let ghost v = views(fs@);
    let mut i: usize = 0;
    while i + 1 < n
        invariant
            n == fs@.len(),
            v == views(fs@),
            i < n,
            forall|j: int| 0 <= j < i ==> hex_group(#[trigger] v[j]),
        decreases n - i,
    {
        assert(v[i as int] == fs@[i as int]@);
        if !hex_group_ok(fs[i].as_str()) {
            return None;
        }
        i += 1;
    }
    assert(v.last() == fs@[n - 1]@);
    if hex_group_ok(fs[n - 1].as_str()) {
        Some((n, false))
    } else if v4_last && ipv4_ok(fs[n - 1].as_str()) {
        Some((n, true))
    } else {
        None
    }
}

fn find_pair(s: &str) -> (r: Option<usize>)
    ensures
        match r {
            Some(k) => pair_from(s@, 0) == k && k + 2 <= s@.len(),
            None => pair_from(s@, 0) == -1,
        },
{
    let n = s.unicode_len();
    let mut i: usize = 0;
    while n > 0 && i < n - 1
        invariant
            n == s@.len(),
            pair_from(s@, 0) == pair_from(s@, i as int),
        decreases n - i,
    {
        if s.get_char(i) == ':' && s.get_char(i + 1) == ':' {
            return Some(i);
        }
        i += 1;
    }
    None
}

fn ipv6_ok(s: &str) -> (b: bool)
    ensures
        b == ipv6_text(s@),
{
    let n = s.unicode_len();
    match find_pair(s) {
        None => {
            let fs = split_fields(s, ':');
            match group_list_shape(&fs, true) {
                Some((m, v4)) => if v4 { m == 7 } else { m == 8 },
                None => false,
            }
        },
        Some(k) => {
            let h = s.substring_char(0, k);
            let t = s.substring_char(k + 2, n);
            let hn: usize = if h.unicode_len() == 0 {
                0
            } else {
                let hf = split_fields(h, ':');
                match group_list_shape(&hf, false) {
                    Some((m, _)) => m,
                    None => {
                        return false;
                    },
                }
            };
            if hn > 7 {
                return false;
            }
            let tn: usize = if t.unicode_len() == 0 {
                0
            } else {
                let tf = split_fields(t, ':');
                match group_list_shape(&tf, true) {
                    Some((m, v4)) => {
                        if m > 7 {
                            return false;
                        }
                        if v4 { m + 1 } else { m }
                    },
                    None => {
                        return false;
                    },
                }
            };
            tn <= 7 - hn
        },
    }
}

/// `A.B.C.D:PORT`.
pub open spec fn socket_v4_text(s: Seq<char>) -> bool {
    let fs = fields(s, ':');
    fs.len() == 2 && ipv4_text(fs[0]) && decimal_upto(fs[1], 65535)
}

/// `[V6]:PORT` or `[V6%SCOPE]:PORT`.
pub open spec fn socket_v6_text(s: Seq<char>) -> bool {
    &&& s.len() > 0
    &&& s[0] == '['
    &&& fields(s.drop_first(), ']').len() == 2
    &&& {
        let inner = fields(s.drop_first(), ']')[0];
        let rest = fields(s.drop_first(), ']')[1];
        let a = fields(inner, '%');
        &&& rest.len() > 0
        &&& rest[0] == ':'
        &&& decimal_upto(rest.drop_first(), 65535)
        &&& ipv6_text(a[0])
        &&& (a.len() == 1 || (a.len() == 2 && decimal_upto(a[1], 4294967295)))
    }
}

/// A socket address in text form (`SocketAddr::from_str`).
pub open spec fn socket_addr_text(s: Seq<char>) -> bool {
    socket_v4_text(s) || socket_v6_text(s)
}

/// Whether `s` is the text of a socket address.
pub fn socket_addr_ok(s: &str) -> (b: bool)
    ensures
        b == socket_addr_text(s@),
{
    let v4 = {
        let fs = split_fields(s, ':');
        if fs.len() == 2 {
            assert(views(fs@)[0] == fs@[0]@ && views(fs@)[1] == fs@[1]@);
            ipv4_ok(fs[0].as_str()) && decimal_upto_ok(fs[1].as_str(), 65535)
        } else {
            false
        }
    };
    if v4 {
        return true;
    }
    let n = s.unicode_len();
    if n == 0 || s.get_char(0) != '[' {
        return false;
    }
    let body = s.substring_char(1, n);
    assert(body@ =~= s@.drop_first());
    let parts = split_fields(body, ']');
    if parts.len() != 2 {
        return false;
    }
    assert(views(parts@)[0] == parts@[0]@ && views(parts@)[1] == parts@[1]@);
    let rest = parts[1].as_str();
    let rn = rest.unicode_len();
    if rn == 0 || rest.get_char(0) != ':' {
        return false;
    }
    let port = rest.substring_char(1, rn);
    assert(port@ =~= rest@.drop_first());
    if !decimal_upto_ok(port, 65535) {
        return false;
    }
    let a = split_fields(parts[0].as_str(), '%');
    proof {
        lemma_fields_nonempty(parts@[0]@, '%');
    }
    assert(views(a@)[0] == a@[0]@);
    if !ipv6_ok(a[0].as_str()) {
        return false;
    }
    if a.len() == 1 {
        true
    } else if a.len() == 2 {
        assert(views(a@)[1] == a@[1]@);
        decimal_upto_ok(a[1].as_str(), 4294967295)
    } else {
        false
    }
}

} // verus!
