//! The in-memory file index: one entry per indexed file, and the rules that
//! decide which walked files enter it.

use vstd::prelude::*;
use vstd::string::*;
use crate::path::{file_name, file_name_of, find_last_sep, is_sep, last_sep, norm_path, normalize_path, trimmed_len_before};
use crate::config::texts;
use vstd::hash_set::StringHashSet;
use crate::text::{chars_of, push_char, push_chars, same_text};

verus! {

/// One indexed file.
pub struct Entry {
    /// Absolute path (inserted as `@"<abs>"`).
    pub abs: String,
    /// The configured root this file was found under.
    pub root: String,
    /// Path relative to `root`, used for matching and display.
    pub rel: String,
    /// Index of `root` in the configured `folders` list; lower wins ties.
    pub root_rank: usize,
    /// Byte size at index time (`0` when metadata was unavailable).
    pub size: u64,
    /// Last-modified unix seconds at index time (`0` when unavailable).
    pub mtime: u64,
}

/// The mathematical content of an [`Entry`].
pub struct EntryView {
    pub abs: Seq<char>,
    pub root: Seq<char>,
    pub rel: Seq<char>,
    pub root_rank: usize,
    pub size: u64,
    pub mtime: u64,
}

impl View for Entry {
    type V = EntryView;

    open spec fn view(&self) -> EntryView {
        EntryView {
            abs: self.abs@,
            root: self.root@,
            rel: self.rel@,
            root_rank: self.root_rank,
            size: self.size,
            mtime: self.mtime,
        }
    }
}

/// The display name: the file name of `abs`, or `rel` when it has none.
pub open spec fn name_of(e: EntryView) -> Seq<char> {
    match file_name_of(e.abs) {
        Some(n) => n,
        None => e.rel,
    }
}

/// The parent of `rel`: everything before its last separator, or empty.
pub open spec fn parent_of(rel: Seq<char>) -> Seq<char> {
    if last_sep(rel) >= 0 {
        rel.subrange(0, last_sep(rel))
    } else {
        Seq::empty()
    }
}

/// The name of the configured root folder, or empty.
pub open spec fn root_name_of(e: EntryView) -> Seq<char> {
    match file_name_of(e.root) {
        Some(n) => n,
        None => Seq::empty(),
    }
}

/// `\` shown as `/`.
pub open spec fn slashed(c: char) -> char {
    if c == '\\' { '/' } else { c }
}

/// The location line of a row: the root folder's name, then `/` and the
/// parent directory (with `/` separators) when the file is nested.
pub open spec fn location_of(e: EntryView) -> Seq<char> {
    let parent = parent_of(e.rel);
    if parent.len() == 0 {
        root_name_of(e)
    } else {
        root_name_of(e).push('/') + parent.map_values(|c: char| slashed(c))
    }
}

impl Clone for Entry {
    fn clone(&self) -> (r: Self)
        ensures
            r@ == self@,
    {
        Entry {
            abs: self.abs.clone(),
            root: self.root.clone(),
            rel: self.rel.clone(),
            root_rank: self.root_rank,
            size: self.size,
            mtime: self.mtime,
        }
    }
}

impl Entry {
    /// File name, for the primary display text.
    pub fn name(&self) -> (r: &str)
        ensures
            r@ == name_of(self@),
    {
        match file_name(self.abs.as_str()) {
            Some(n) => n,
            None => self.rel.as_str(),
        }
    }

    /// Parent directory relative to root, for the dim secondary text.
    pub fn parent_rel(&self) -> (r: &str)
        ensures
            r@ == parent_of(self.rel@),
    {
        let cs = chars_of(self.rel.as_str());
        match find_last_sep(&cs, cs.len()) {
            Some(i) => {
                proof {
                    crate::path::lemma_last_sep_le(cs@);
                }
                self.rel.as_str().substring_char(0, i)
            },
            None => {
                let e = "";
                proof {
                    reveal_strlit("");
                }
                assert(e@ =~= Seq::<char>::empty());
                e
            },
        }
    }

    /// Name of the configured root folder this file came from.
    pub fn root_name(&self) -> (r: &str)
        ensures
            r@ == root_name_of(self@),
    {
        match file_name(self.root.as_str()) {
            Some(n) => n,
            None => {
                let e = "";
                proof {
                    reveal_strlit("");
                }
                assert(e@ =~= Seq::<char>::empty());
                e
            },
        }
    }

    /// Dim secondary text for a result row: the source folder, plus the
    /// parent directory within it.
    pub fn location(&self) -> (r: String)
        ensures
            r@ == location_of(self@),
    {
        let folder = self.root_name();
        let parent = chars_of(self.parent_rel());
        let mut out = String::from_str(folder);
        if parent.len() == 0 {
            return out;
        }
        push_char(&mut out, '/');
        let ghost base = out@;
        let mut i: usize = 0;
        while i < parent.len()
            invariant
                i <= parent@.len(),
                parent@ == parent_of(self.rel@),
                out@ == base + parent@.take(i as int).map_values(|c: char| slashed(c)),
            decreases parent@.len() - i,
        {
            let c = parent[i];
            push_char(&mut out, if c == '\\' { '/' } else { c });
            i += 1;
            assert(parent@.take(i as int).map_values(|c: char| slashed(c)) =~= parent@.take(
                (i - 1) as int,
            ).map_values(|c: char| slashed(c)).push(slashed(c)));
        }
        assert(parent@.take(i as int) =~= parent@);
        out
    }
}



// --- building the index ------------------------------------------------------------

/// Metadata read for a walked file.
#[derive(Clone, Copy)]
pub struct FileMeta {
    /// Windows file attributes (`0` where the host has none).
    pub attributes: u32,
    pub size: u64,
    /// Last-modified unix seconds (`0` when unavailable).
    pub mtime: u64,
}

/// One path the directory walk yielded under folder `root_rank`.
pub struct Walked {
    pub root_rank: usize,
    pub path: String,
    pub is_file: bool,
    /// `None` when the metadata could not be read.
    pub meta: Option<FileMeta>,
}

pub const FILE_ATTRIBUTE_HIDDEN: u32 = 0x2;

/// A file is hidden when its name starts with `.` or it carries the Windows
/// hidden attribute.
pub open spec fn hidden_spec(path: Seq<char>, meta: Option<FileMeta>) -> bool {
    (match file_name_of(path) {
        Some(n) => n.len() > 0 && n[0] == '.',
        None => false,
    }) || (match meta {
        Some(m) => m.attributes & FILE_ATTRIBUTE_HIDDEN != 0,
        None => false,
    })
}

/// Whether a walked file is hidden (dot-prefixed name, or the hidden
/// attribute in its metadata).
pub fn is_hidden(path: &str, meta: Option<FileMeta>) -> (r: bool)
    ensures
        r == hidden_spec(path@, meta),
{
    let dot = match file_name(path) {
        Some(n) => {
            let cs = chars_of(n);
            cs.len() > 0 && cs[0] == '.'
        },
        None => false,
    };
    if dot {
        return true;
    }
    match meta {
        Some(m) => m.attributes & FILE_ATTRIBUTE_HIDDEN != 0,
        None => false,
    }
}

/// A directory whose name is listed in `exclude` is pruned from the walk.
pub fn is_excluded_dir(is_dir: bool, name: &str, exclude: &[String]) -> (r: bool)
    ensures
        r == (is_dir && texts(exclude@).contains(name@)),
{
    if !is_dir {
        return false;
    }
    let mut i: usize = 0;
    while i < exclude.len()
        invariant
            i <= exclude@.len(),
            is_dir,
            forall|j: int| 0 <= j < i ==> (#[trigger] exclude@[j])@ != name@,
        decreases exclude@.len() - i,
    {
        if same_text(exclude[i].as_str(), name) {
            assert(texts(exclude@)[i as int] == name@);
            assert(texts(exclude@).contains(name@));
            return true;
        }
        i += 1;
    }
    assert forall|j: int| 0 <= j < texts(exclude@).len() implies #[trigger] texts(exclude@)[j] != name@ by {
        assert(texts(exclude@)[j] == exclude@[j]@);
    }
    false
}

/// The first position at or after `i` that is not a separator.
pub open spec fn skip_seps(p: Seq<char>, i: int) -> int
    decreases p.len() - i,
{
    if i < p.len() && 0 <= i && is_sep(p[i]) {
        skip_seps(p, i + 1)
    } else {
        i
    }
}

/// `p` relative to `root`, the way `Path::strip_prefix` reads Windows paths
/// component by component; `p` itself when `root` is not a prefix of it.
pub open spec fn relative_spec(p: Seq<char>, root: Seq<char>) -> Seq<char> {
    let t = trimmed_len_before(root, root.len() as int);
    if t <= p.len() && p.subrange(0, t) == root.subrange(0, t) && (t == p.len() || is_sep(p[t])) {
        p.subrange(skip_seps(p, t), p.len() as int)
    } else {
        p
    }
}


/// `path` relative to `root`.
pub fn relative_to(path: &str, root: &str) -> (r: String)
    ensures
        r@ == relative_spec(path@, root@),
{
    let p = chars_of(path);
    let rc = chars_of(root);
    let mut t = rc.len();
    while t > 0 && (rc[t - 1] == '\\' || rc[t - 1] == '/')
        invariant
            t <= rc@.len(),
            rc@ == root@,
            trimmed_len_before(rc@, rc@.len() as int) == trimmed_len_before(rc@, t as int),
        decreases t,
    {
        t -= 1;
    }
    assert(trimmed_len_before(rc@, rc@.len() as int) == t);
    if t > p.len() {
        return String::from_str(path);
    }
    let mut i: usize = 0;
    while i < t
        invariant
            i <= t <= p@.len(),
            t <= rc@.len(),
            p@ == path@,
            rc@ == root@,
            t == trimmed_len_before(rc@, rc@.len() as int),
            forall|j: int| 0 <= j < i ==> p@[j] == rc@[j],
        decreases t - i,
    {
        if p[i] != rc[i] {
            assert(p@.subrange(0, t as int)[i as int] != rc@.subrange(0, t as int)[i as int]);
            assert(p@.subrange(0, t as int) != rc@.subrange(0, t as int));
            return String::from_str(path);
        }
        i += 1;
    }
    assert(p@.subrange(0, t as int) =~= rc@.subrange(0, t as int));
    if t < p.len() && !(p[t] == '\\' || p[t] == '/') {
        return String::from_str(path);
    }
    let mut k = t;
    while k < p.len() && (p[k] == '\\' || p[k] == '/')
        invariant
            t <= k <= p@.len(),
            p@ == path@,
            skip_seps(p@, t as int) == skip_seps(p@, k as int),
        decreases p@.len() - k,
    {
        k += 1;
    }
    let mut out = String::new();
    push_chars(&mut out, &p, k, p.len());
    out
}

/// A walked path that enters the index: a file, and not hidden.
pub open spec fn admitted(w: Walked) -> bool {
    w.is_file && !hidden_spec(w.path@, w.meta)
}

/// The entry for an admitted walked file under its folder.
pub open spec fn entry_spec(folders: Seq<Seq<char>>, w: Walked) -> EntryView {
    let root = folders[w.root_rank as int];
    EntryView {
        abs: w.path@,
        root,
        rel: relative_spec(w.path@, root),
        root_rank: w.root_rank,
        size: match w.meta {
            Some(m) => m.size,
            None => 0,
        },
        mtime: match w.meta {
            Some(m) => m.mtime,
            None => 0,
        },
    }
}

/// Some entry of `s` has an absolute path whose canonical text is `key`.
pub open spec fn has_key(s: Seq<EntryView>, key: Seq<char>) -> bool {
    exists|k: int| 0 <= k < s.len() && norm_path(#[trigger] s[k].abs) == key
}

/// Some entry of `s` has the same absolute path as `abs` (as `Path`
/// compares paths: see [`norm_path`]).
pub open spec fn has_abs(s: Seq<EntryView>, abs: Seq<char>) -> bool {
    has_key(s, norm_path(abs))
}

/// The index of a walk: the admitted files in walk order, each absolute path
/// once, under the earliest folder that yielded it.
pub open spec fn index_spec(folders: Seq<Seq<char>>, walked: Seq<Walked>) -> Seq<EntryView>
    decreases walked.len(),
{
    if walked.len() == 0 {
        Seq::empty()
    } else {
        let prev = index_spec(folders, walked.drop_last());
        let w = walked.last();
        if admitted(w) && !has_abs(prev, w.path@) {
            prev.push(entry_spec(folders, w))
        } else {
            prev
        }
    }
}

pub open spec fn views(es: Seq<Entry>) -> Seq<EntryView> {
    es.map_values(|e: Entry| e@)
}

/// Build the index from a walk of `folders` (walked in folder order): keep
/// files, drop hidden ones, and list each absolute path once, under its
/// earliest-listed folder.
pub fn build(folders: &[String], walked: &[Walked]) -> (r: Vec<Entry>)
    requires
        forall|i: int| 0 <= i < walked@.len() ==> (#[trigger] walked@[i]).root_rank < folders@.len(),
    ensures
        views(r@) == index_spec(texts(folders@), walked@),
{
    let ghost fs = texts(folders@);
    let mut out: Vec<Entry> = Vec::new();
    let mut seen = StringHashSet::new();
    let mut i: usize = 0;
    while i < walked.len()
        invariant
            i <= walked@.len(),
            fs == texts(folders@),
            forall|j: int| 0 <= j < walked@.len() ==> (#[trigger] walked@[j]).root_rank < folders@.len(),
            views(out@) == index_spec(fs, walked@.take(i as int)),
            forall|a: Seq<char>| #[trigger] seen@.contains(a) <==> has_key(views(out@), a),
        decreases walked@.len() - i,
    {
        let w = &walked[i];
        let ghost prev = views(out@);
        assert(walked@.take(i + 1).drop_last() =~= walked@.take(i as int));
        assert(walked@.take(i + 1).last() == walked@[i as int]);
        if w.is_file && !is_hidden(w.path.as_str(), w.meta) {
            let key = normalize_path(w.path.as_str());
            if !seen.contains(key.as_str()) {
                let root = &folders[w.root_rank];
                let rel = relative_to(w.path.as_str(), root.as_str());
                let (size, mtime) = match w.meta {
                    Some(m) => (m.size, m.mtime),
                    None => (0, 0),
                };
                let e = Entry {
                    abs: w.path.clone(),
                    root: root.clone(),
                    rel,
                    root_rank: w.root_rank,
                    size,
                    mtime,
                };
                assert(fs[w.root_rank as int] == root@);
                assert(e@ == entry_spec(fs, *w));
                let ghost k0 = key@;
                seen.insert(key);
                out.push(e);
                assert(views(out@) =~= prev.push(e@));
                assert forall|a: Seq<char>| #[trigger] seen@.contains(a) <==> has_key(views(out@), a) by {
                    if has_key(views(out@), a) && a != k0 {
                        let k = choose|k: int| 0 <= k < views(out@).len() && norm_path(#[trigger] views(out@)[k].abs) == a;
                        assert(k < prev.len());
                        assert(prev[k].abs == views(out@)[k].abs);
                    }
                    if has_key(prev, a) {
                        let k = choose|k: int| 0 <= k < prev.len() && norm_path(#[trigger] prev[k].abs) == a;
                        assert(views(out@)[k].abs == prev[k].abs);
                    }
                    if a == k0 {
                        assert(views(out@)[prev.len() as int].abs == w.path@);
                    }
                }
            }
        }
        i += 1;
    }
    assert(walked@.take(walked@.len() as int) =~= walked@);
    out
}


/// The index lists each absolute path once (no two entries are the same
/// path), and only admitted files (files that are not hidden).
pub proof fn law_index_is_duplicate_free(folders: Seq<Seq<char>>, walked: Seq<Walked>)
    ensures
        forall|i: int, j: int|
            0 <= i < j < index_spec(folders, walked).len() ==> norm_path(
                #[trigger] index_spec(folders, walked)[i].abs,
            ) != norm_path(#[trigger] index_spec(folders, walked)[j].abs),
        forall|i: int|
            0 <= i < index_spec(folders, walked).len() ==> exists|k: int|
                0 <= k < walked.len() && admitted(#[trigger] walked[k])
                    && walked[k].path@ == (#[trigger] index_spec(folders, walked)[i]).abs,
    decreases walked.len(),
{
    if walked.len() > 0 {
        let rest = walked.drop_last();
        law_index_is_duplicate_free(folders, rest);
        let prev = index_spec(folders, rest);
        let cur = index_spec(folders, walked);
        let w = walked.last();
        if admitted(w) && !has_abs(prev, w.path@) {
            assert forall|i: int, j: int| 0 <= i < j < cur.len() implies norm_path(#[trigger] cur[i].abs)
                != norm_path(#[trigger] cur[j].abs) by {
                if j == prev.len() {
                    assert(cur[i] == prev[i]);
                    assert(cur[j].abs == w.path@);
                    assert(norm_path(prev[i].abs) != norm_path(w.path@));
                } else {
                    assert(cur[i] == prev[i] && cur[j] == prev[j]);
                }
            }
        }
        assert forall|i: int| 0 <= i < cur.len() implies exists|k: int|
            0 <= k < walked.len() && admitted(#[trigger] walked[k]) && walked[k].path@ == (
            #[trigger] cur[i]).abs by {
            if i < prev.len() {
                assert(cur[i] == prev[i]);
                let k = choose|k: int|
                    0 <= k < rest.len() && admitted(#[trigger] rest[k]) && rest[k].path@ == prev[i].abs;
                assert(walked[k] == rest[k]);
            } else {
                assert(walked[walked.len() - 1] == w);
            }
        }
    }
}

/// Every entry of the index comes from an admitted walked path, under the
/// folder that walk was listed for.
proof fn lemma_index_entries_come_from_walk(folders: Seq<Seq<char>>, walked: Seq<Walked>, i: int)
    requires
        0 <= i < index_spec(folders, walked).len(),
    ensures
        exists|k: int|
            0 <= k < walked.len() && admitted(walked[k]) && #[trigger] index_spec(folders, walked)[i]
                == entry_spec(folders, walked[k]),
    decreases walked.len(),
{
    let rest = walked.drop_last();
    let prev = index_spec(folders, rest);
    if i < prev.len() {
        lemma_index_entries_come_from_walk(folders, rest, i);
        let k = choose|k: int| 0 <= k < rest.len() && admitted(rest[k]) && #[trigger] prev[i] == entry_spec(folders, rest[k]);
        assert(walked[k] == rest[k]);
        assert(index_spec(folders, walked)[i] == prev[i]);
    } else {
        assert(walked[walked.len() - 1] == walked.last());
    }
}

/// An entry's `rel` is its path below its folder: when the absolute path is
/// the folder's path, one separator, and a rest that does not start with a
/// separator, `rel` is that rest (so `D:\v\sub\b.md` under `D:\v` has
/// `rel` `sub\b.md`).
pub proof fn law_rel_is_the_path_below_the_folder(
    folders: Seq<Seq<char>>,
    walked: Seq<Walked>,
    i: int,
    sep: char,
    rest: Seq<char>,
)
    requires
        0 <= i < index_spec(folders, walked).len(),
        index_spec(folders, walked)[i].root.len() > 0,
        !is_sep(index_spec(folders, walked)[i].root.last()),
        is_sep(sep),
        rest.len() > 0 ==> !is_sep(rest[0]),
        index_spec(folders, walked)[i].abs == index_spec(folders, walked)[i].root + seq![sep] + rest,
    ensures
        index_spec(folders, walked)[i].rel == rest,
{
    lemma_index_entries_come_from_walk(folders, walked, i);
    let e = index_spec(folders, walked)[i];
    let root = e.root;
    let p = e.abs;
    let t = root.len() as int;
    assert(trimmed_len_before(root, t) == t);
    assert(p.subrange(0, t) =~= root.subrange(0, t));
    assert(p[t] == sep);
    if t + 1 < p.len() {
        assert(p[t + 1] == rest[0]);
    }
    assert(skip_seps(p, t + 1) == t + 1);
    assert(skip_seps(p, t) == t + 1);
    assert(p.subrange(t + 1, p.len() as int) =~= rest);
}

} // verus!
