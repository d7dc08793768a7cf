//! Windows-style path text: components are separated by `\` or `/`.
//!
//! The index stores paths as text so that the rules for names, parents and
//! roots are the same on every host the library is built on.

use vstd::prelude::*;
use vstd::string::*;
use crate::text::{chars_of, push_char, push_chars};

verus! {

/// A path separator: `\` or `/`.
pub open spec fn is_sep(c: char) -> bool {
    c == '\\' || c == '/'
}

/// Index of the last separator among `s[0..n)`, or `-1` when there is none.
pub open spec fn last_sep_before(s: Seq<char>, n: int) -> int
    decreases n,
{
    if n <= 0 {
        -1
    } else if is_sep(s[n - 1]) {
        n - 1
    } else {
        last_sep_before(s, n - 1)
    }
}

/// Index of the last separator of `s`, or `-1`.
pub open spec fn last_sep(s: Seq<char>) -> int {
    last_sep_before(s, s.len() as int)
}

/// Length of `s[0..n)` once its trailing separators are dropped.
pub open spec fn trimmed_len_before(s: Seq<char>, n: int) -> int
    decreases n,
{
    if n <= 0 {
        0
    } else if is_sep(s[n - 1]) {
        trimmed_len_before(s, n - 1)
    } else {
        n
    }
}

/// A drive designator such as `C:`.
pub open spec fn is_drive(c: Seq<char>) -> bool {
    c.len() == 2 && c[1] == ':'
}

/// Length of `s[0..n)` once its trailing separators and `.` components
/// (other than a leading one) are dropped.
pub open spec fn name_end_before(s: Seq<char>, n: int) -> int
    decreases n,
{
    if n <= 0 {
        0
    } else if is_sep(s[n - 1]) {
        name_end_before(s, n - 1)
    } else if s[n - 1] == '.' && n >= 2 && is_sep(s[n - 2]) {
        name_end_before(s, n - 1)
    } else {
        n
    }
}

/// The final component of a path, the way `Path::file_name` reads a Windows
/// path: trailing separators and `.` components are ignored; there is none
/// when the last component is empty, `.`, `..`, or a bare drive designator.
pub open spec fn file_name_of(p: Seq<char>) -> Option<Seq<char>> {
    let t = name_end_before(p, p.len() as int);
    let k = last_sep_before(p, t);
    let c = p.subrange(k + 1, t);
    if c.len() == 0 || c == seq!['.'] || c == seq!['.', '.'] || (k < 0 && is_drive(c)) {
        None
    } else {
        Some(c)
    }
}

proof fn lemma_last_sep_bounds(s: Seq<char>, n: int)
    requires
        0 <= n <= s.len(),
    ensures
        -1 <= last_sep_before(s, n) < n,
        last_sep_before(s, n) >= 0 ==> is_sep(s[last_sep_before(s, n)]),
        forall|j: int| last_sep_before(s, n) < j < n ==> !is_sep(#[trigger] s[j]),
    decreases n,
{
    if n > 0 && !is_sep(s[n - 1]) {
        lemma_last_sep_bounds(s, n - 1);
    }
}

/// Index of the last separator among `cs[0..n)`, if any.
pub fn find_last_sep(cs: &Vec<char>, n: usize) -> (r: Option<usize>)
    requires
        n <= cs@.len(),
    ensures
        match r {
            Some(k) => k as int == last_sep_before(cs@, n as int),
            None => last_sep_before(cs@, n as int) == -1,
        },
{
    let mut i = n;
    while i > 0
        invariant
            i <= n <= cs@.len(),
            last_sep_before(cs@, n as int) == last_sep_before(cs@, i as int),
        decreases i,
    {
        if cs[i - 1] == '\\' || cs[i - 1] == '/' {
            return Some(i - 1);
        }
        i -= 1;
    }
    None
}

proof fn lemma_name_end_bounds(s: Seq<char>, n: int)
    requires
        0 <= n <= s.len(),
    ensures
        0 <= name_end_before(s, n) <= n,
    decreases n,
{
    if n > 0 && (is_sep(s[n - 1]) || (s[n - 1] == '.' && n >= 2 && is_sep(s[n - 2]))) {
        lemma_name_end_bounds(s, n - 1);
    }
}

fn name_end(cs: &Vec<char>) -> (r: usize)
    ensures
        r as int == name_end_before(cs@, cs@.len() as int),
{
    let mut i = cs.len();
    while i > 0
        invariant
            i <= cs@.len(),
            name_end_before(cs@, cs@.len() as int) == name_end_before(cs@, i as int),
        decreases i,
    {
        let c = cs[i - 1];
        if c == '\\' || c == '/' || (c == '.' && i >= 2 && (cs[i - 2] == '\\' || cs[i - 2] == '/')) {
            i -= 1;
        } else {
            return i;
        }
    }
    0
}

/// Where the file name of the path `cs` lies in `cs`, as `[start, end)`.
pub fn file_name_range(cs: &Vec<char>) -> (r: Option<(usize, usize)>)
    ensures
        match r {
            Some((a, b)) => a <= b <= cs@.len() && file_name_of(cs@) == Some(
                cs@.subrange(a as int, b as int),
            ),
            None => file_name_of(cs@) is None,
        },
{
    let t = name_end(cs);
    proof {
        lemma_name_end_bounds(cs@, cs@.len() as int);
        lemma_last_sep_bounds(cs@, t as int);
    }
    let k = find_last_sep(cs, t);
    let start: usize = match k {
        Some(k) => k + 1,
        None => 0,
    };
    let len = t - start;
    let ghost c = cs@.subrange(start as int, t as int);
    assert(start as int == last_sep_before(cs@, t as int) + 1);
    assert(c.len() == len);
    if len == 0 {
        return None;
    }
    if len == 1 && cs[start] == '.' {
        assert(c =~= seq!['.']);
        return None;
    }
    if len == 2 && cs[start] == '.' && cs[start + 1] == '.' {
        assert(c =~= seq!['.', '.']);
        return None;
    }
    if k.is_none() && len == 2 && cs[start + 1] == ':' {
        return None;
    }
    proof {
        if c == seq!['.'] {
            assert(c[0] == cs@[start as int]);
        }
        if c == seq!['.', '.'] {
            assert(c[0] == cs@[start as int] && c[1] == cs@[start + 1]);
        }
        if k is None && is_drive(c) {
            assert(c[1] == cs@[start + 1]);
        }
        assert(!(c.len() == 0 || c == seq!['.'] || c == seq!['.', '.'] || (last_sep_before(cs@, t as int) < 0 && is_drive(c))));
    }
    Some((start, t))
}

/// The file name of a path, as text.
pub fn file_name(p: &str) -> (r: Option<&str>)
    ensures
        match r {
            Some(n) => file_name_of(p@) == Some(n@),
            None => file_name_of(p@) is None,
        },
{
    let cs = chars_of(p);
    match file_name_range(&cs) {
        Some((a, b)) => Some(p.substring_char(a, b)),
        None => None,
    }
}


/// The last separator, when there is one, lies inside the text.
pub proof fn lemma_last_sep_le(s: Seq<char>)
    ensures
        -1 <= last_sep(s) < s.len(),
{
    lemma_last_sep_bounds(s, s.len() as int);
}


// --- path equality -----------------------------------------------------------

/// An ASCII letter, as a drive designator starts with.
pub open spec fn is_drive_letter(c: char) -> bool {
    ('a' <= c <= 'z') || ('A' <= c <= 'Z')
}

/// `c` upper-cased, for an ASCII letter.
pub open spec fn ascii_upper(c: char) -> char {
    if 'a' <= c <= 'z' {
        ((c as u32) - 32) as char
    } else {
        c
    }
}

/// Where a path's body starts: after a drive designator such as `C:`.
pub open spec fn body_start(p: Seq<char>) -> int {
    if p.len() >= 2 && is_drive_letter(p[0]) && p[1] == ':' {
        2
    } else {
        0
    }
}

/// The path has a root: a separator right after its drive, if any.
pub open spec fn rooted(p: Seq<char>) -> bool {
    body_start(p) < p.len() && is_sep(p[body_start(p)])
}

/// A relative body that starts with a `.` component.
pub open spec fn lead_dot(p: Seq<char>) -> bool {
    let b = body_start(p);
    &&& !rooted(p)
    &&& b < p.len()
    &&& p[b] == '.'
    &&& (b + 1 == p.len() || is_sep(p[b + 1]))
}

/// `ps` with the piece `cur` added, unless it is empty or `.`.
pub open spec fn keep_piece(ps: Seq<Seq<char>>, cur: Seq<char>) -> Seq<Seq<char>> {
    if cur.len() == 0 || cur == seq!['.'] {
        ps
    } else {
        ps.push(cur)
    }
}

/// The body `p[b..n)` split at separators: the finished pieces (without
/// empty and `.` ones) and the piece still open.
pub open spec fn pieces(p: Seq<char>, b: int, n: int) -> (Seq<Seq<char>>, Seq<char>)
    decreases n - b,
{
    if n <= b {
        (Seq::empty(), Seq::empty())
    } else {
        let (ps, cur) = pieces(p, b, n - 1);
        if is_sep(p[n - 1]) {
            (keep_piece(ps, cur), Seq::empty())
        } else {
            (ps, cur.push(p[n - 1]))
        }
    }
}

/// The components after the drive and root, the way `Path::components`
/// lists them: `.` only as a leading component.
pub open spec fn path_parts(p: Seq<char>) -> Seq<Seq<char>> {
    let (ps, cur) = pieces(p, body_start(p), p.len() as int);
    let body = keep_piece(ps, cur);
    if lead_dot(p) {
        seq![seq!['.']] + body
    } else {
        body
    }
}

/// Components joined by `\`.
pub open spec fn joined_parts(ps: Seq<Seq<char>>) -> Seq<char>
    decreases ps.len(),
{
    if ps.len() == 0 {
        Seq::empty()
    } else if ps.len() == 1 {
        ps[0]
    } else {
        joined_parts(ps.drop_last()) + seq!['\\'] + ps.last()
    }
}

/// The canonical text of a Windows path: the drive upper-cased, one `\` for
/// the root, and the components joined by `\`. Two paths are the same path,
/// as `Path`'s `==` compares their components, when their canonical texts
/// are equal: separators may be `\` or `/` and repeat, a trailing one is
/// ignored, and so are `.` components after the first. (UNC and verbatim
/// prefixes are read as ordinary text.)
pub open spec fn norm_path(p: Seq<char>) -> Seq<char> {
    (if body_start(p) == 2 {
        seq![ascii_upper(p[0]), ':']
    } else {
        Seq::empty()
    }) + (if rooted(p) {
        seq!['\\']
    } else {
        Seq::empty()
    }) + joined_parts(path_parts(p))
}

fn upper_ascii(c: char) -> (r: char)
    ensures
        r == ascii_upper(c),
{
    if 'a' <= c && c <= 'z' {
        ((c as u32) - 32) as u8 as char
    } else {
        c
    }
}

pub open spec fn part_views(ps: Seq<Vec<char>>) -> Seq<Seq<char>> {
    ps.map_values(|v: Vec<char>| v@)
}

/// The canonical text of the path `p` (see [`norm_path`]).
pub fn normalize_path(p: &str) -> (r: String)
    ensures
        r@ == norm_path(p@),
{
    let cs = chars_of(p);
    let n = cs.len();
    let b: usize = if n >= 2 && (('a' <= cs[0] && cs[0] <= 'z') || ('A' <= cs[0] && cs[0] <= 'Z'))
        && cs[1] == ':' {
        2
    } else {
        0
    };
    assert(b as int == body_start(cs@));
    let root = b < n && (cs[b] == '\\' || cs[b] == '/');
    let lead = !root && b < n && cs[b] == '.' && (b + 1 == n || cs[b + 1] == '\\' || cs[b + 1] == '/');
    assert(lead == lead_dot(cs@));
    let mut parts: Vec<Vec<char>> = Vec::new();
    let ghost head: Seq<Seq<char>> = if lead {
        seq![seq!['.']]
    } else {
        Seq::empty()
    };
    if lead {
        let mut d: Vec<char> = Vec::new();
        d.push('.');
        parts.push(d);
        assert(part_views(parts@) =~= head);
    } else {
        assert(part_views(parts@) =~= head);
    }
    let mut cur: Vec<char> = Vec::new();
    let mut i = b;
    while i < n
        invariant
            b <= i <= n,
            n == cs@.len(),
            part_views(parts@) == head + pieces(cs@, b as int, i as int).0,
            cur@ == pieces(cs@, b as int, i as int).1,
        decreases n - i,
    {
        let c = cs[i];
        let ghost before = pieces(cs@, b as int, i as int);
        if c == '\\' || c == '/' {
            if !(cur.len() == 0 || (cur.len() == 1 && cur[0] == '.')) {
                assert(cur@ != seq!['.']);
                let ghost pv = part_views(parts@);
                parts.push(cur);
                assert(part_views(parts@) =~= pv.push(before.1));
                assert(part_views(parts@) =~= head + keep_piece(before.0, before.1));
            } else {
                if cur.len() == 1 {
                    assert(cur@ =~= seq!['.']);
                }
            }
            cur = Vec::new();
        } else {
            cur.push(c);
        }
        i += 1;
    }
    if !(cur.len() == 0 || (cur.len() == 1 && cur[0] == '.')) {
        assert(cur@ != seq!['.']);
        let ghost pv = part_views(parts@);
        parts.push(cur);
        assert(part_views(parts@) =~= pv.push(pieces(cs@, b as int, n as int).1));
    } else {
        if cur.len() == 1 {
            assert(cur@ =~= seq!['.']);
        }
    }
    assert(part_views(parts@) =~= path_parts(cs@));
    let mut out = String::new();
    if b == 2 {
        push_char(&mut out, upper_ascii(cs[0]));
        push_char(&mut out, ':');
    }
    if root {
        push_char(&mut out, '\\');
    }
    let ghost start = out@;
    assert(start =~= (if body_start(cs@) == 2 {
        seq![ascii_upper(cs@[0]), ':']
    } else {
        Seq::empty()
    }) + (if rooted(cs@) {
        seq!['\\']
    } else {
        Seq::empty()
    }));
    let mut k: usize = 0;
    while k < parts.len()
        invariant
            k <= parts@.len(),
            out@ == start + joined_parts(part_views(parts@).take(k as int)),
        decreases parts@.len() - k,
    {
        let ghost pv = part_views(parts@);
        assert(pv.take(k + 1).drop_last() =~= pv.take(k as int));
        assert(pv.take(k + 1).last() == parts@[k as int]@);
        if k > 0 {
            push_char(&mut out, '\\');
        } else {
            assert(pv.take(0) =~= Seq::<Seq<char>>::empty());
        }
        let part = &parts[k];
        push_chars(&mut out, part, 0, part.len());
        assert(part@.subrange(0, part@.len() as int) =~= part@);
        k += 1;
        assert(out@ =~= start + joined_parts(pv.take(k as int)));
    }
    assert(part_views(parts@).take(parts@.len() as int) =~= part_views(parts@));
    out
}

/// Whether `a` and `b` name the same path (see [`norm_path`]).
pub fn same_path(a: &str, b: &str) -> (r: bool)
    ensures
        r == (norm_path(a@) == norm_path(b@)),
{
    let na = normalize_path(a);
    let nb = normalize_path(b);
    crate::text::same_text(na.as_str(), nb.as_str())
}

} // verus!
