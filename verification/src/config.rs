//! The user configuration: the folders to index, the directory names to
//! prune, the global chord and whether to follow `.gitignore`.

use vstd::prelude::*;
use vstd::string::*;
use crate::text::chars_of;

verus! {

/// User configuration, mirroring the on-disk JSON document.
pub struct Config {
    /// Absolute directory paths to index. Must be non-empty.
    pub folders: Vec<String>,
    /// Global chord, in `global-hotkey` syntax.
    pub chord: String,
    /// Directory names pruned during traversal.
    pub exclude: Vec<String>,
    /// Skip paths ignored by Git inside Git working trees.
    pub git_aware: bool,
}

pub struct ConfigView {
    pub folders: Seq<Seq<char>>,
    pub chord: Seq<char>,
    pub exclude: Seq<Seq<char>>,
    pub git_aware: bool,
}

/// The texts of a list of strings.
pub open spec fn texts(v: Seq<String>) -> Seq<Seq<char>> {
    v.map_values(|s: String| s@)
}

impl View for Config {
    type V = ConfigView;

    open spec fn view(&self) -> ConfigView {
        ConfigView {
            folders: texts(self.folders@),
            chord: self.chord@,
            exclude: texts(self.exclude@),
            git_aware: self.git_aware,
        }
    }
}

/// A copy of a list of strings.
pub fn clone_strings(v: &Vec<String>) -> (r: Vec<String>)
    ensures
        texts(r@) == texts(v@),
{
    let mut out: Vec<String> = Vec::new();
    let mut i: usize = 0;
    while i < v.len()
        invariant
            i <= v@.len(),
            out@.len() == i,
            forall|j: int| 0 <= j < i ==> (#[trigger] out@[j])@ == v@[j]@,
        decreases v@.len() - i,
    {
        out.push(v[i].clone());
        i += 1;
    }
    assert(texts(out@) =~= texts(v@));
    out
}

impl Clone for Config {
    fn clone(&self) -> (r: Self)
        ensures
            r@ == self@,
    {
        Config {
            folders: clone_strings(&self.folders),
            chord: self.chord.clone(),
            exclude: clone_strings(&self.exclude),
            git_aware: self.git_aware,
        }
    }
}

/// The default chord.
pub open spec fn default_chord() -> Seq<char> {
    "Control+Space"@
}

/// The directory names excluded by default.
pub open spec fn default_exclude() -> Seq<Seq<char>> {
    seq![".git"@, "node_modules"@, "target"@]
}

/// The configuration written on first launch for a user whose home is `home`.
pub open spec fn default_config(home: Seq<char>) -> ConfigView {
    ConfigView {
        folders: seq![home],
        chord: default_chord(),
        exclude: default_exclude(),
        git_aware: true,
    }
}

/// Unicode `White_Space`, the set `str::trim` removes.
pub open spec fn is_white_space(c: char) -> bool {
    ('\u{9}' <= c <= '\u{d}') || c == ' ' || c == '\u{85}' || c == '\u{a0}' || c == '\u{1680}'
        || ('\u{2000}' <= c <= '\u{200a}') || c == '\u{2028}' || c == '\u{2029}' || c == '\u{202f}'
        || c == '\u{205f}' || c == '\u{3000}'
}

/// Text that trims to nothing.
pub open spec fn is_blank(s: Seq<char>) -> bool {
    forall|i: int| 0 <= i < s.len() ==> is_white_space(#[trigger] s[i])
}

pub open spec fn folders_error() -> Seq<char> {
    "`folders` must list at least one directory"@
}

pub open spec fn chord_error() -> Seq<char> {
    "`chord` must not be empty"@
}

/// The first schema rule a configuration breaks, if any.
pub open spec fn validation_error(c: ConfigView) -> Option<Seq<char>> {
    if c.folders.len() == 0 {
        Some(folders_error())
    } else if is_blank(c.chord) {
        Some(chord_error())
    } else {
        None
    }
}

fn white_space(c: char) -> (r: bool)
    ensures
        r == is_white_space(c),
{
    ('\u{9}' <= c && c <= '\u{d}') || c == ' ' || c == '\u{85}' || c == '\u{a0}' || c == '\u{1680}'
        || ('\u{2000}' <= c && c <= '\u{200a}') || c == '\u{2028}' || c == '\u{2029}' || c
        == '\u{202f}' || c == '\u{205f}' || c == '\u{3000}'
}

/// Whether `s` is empty once trimmed.
pub fn blank(s: &str) -> (r: bool)
    ensures
        r == is_blank(s@),
{
    let cs = chars_of(s);
    let mut i: usize = 0;
    while i < cs.len()
        invariant
            i <= cs@.len(),
            cs@ == s@,
            forall|j: int| 0 <= j < i ==> is_white_space(#[trigger] cs@[j]),
        decreases cs@.len() - i,
    {
        if !white_space(cs[i]) {
            return false;
        }
        i += 1;
    }
    true
}

impl Config {
    /// The default config written on first launch: the home folder, the
    /// `Control+Space` chord, the usual excludes, Git-aware.
    pub fn default_with_home(home: String) -> (r: Self)
        ensures
            r@ == default_config(home@),
    {
        let r = Config {
            folders: vec![home],
            chord: String::from_str("Control+Space"),
            exclude: vec![
                String::from_str(".git"),
                String::from_str("node_modules"),
                String::from_str("target"),
            ],
            git_aware: true,
        };
        assert(r@.folders =~= default_config(home@).folders);
        assert(r@.exclude =~= default_exclude());
        r
    }

    /// Schema validation beyond what the JSON shape enforces.
    pub fn validate(&self) -> (r: Result<(), String>)
        ensures
            match r {
                Ok(()) => validation_error(self@) is None,
                Err(e) => validation_error(self@) == Some(e@),
            },
    {
        if self.folders.len() == 0 {
            return Err(String::from_str("`folders` must list at least one directory"));
        }
        if blank(self.chord.as_str()) {
            return Err(String::from_str("`chord` must not be empty"));
        }
        Ok(())
    }
}

/// The first-launch default is valid, whatever the home folder.
pub proof fn law_default_is_valid(home: Seq<char>)
    ensures
        validation_error(default_config(home)) is None,
{
    reveal_strlit("Control+Space");
    assert(!is_white_space(default_chord()[0]));
}

} // verus!
