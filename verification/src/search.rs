//! Filtering and ranking of the index for a query, and the mapping of match
//! positions onto a result row's displayed strings.

use vstd::prelude::*;
use vstd::string::*;
use nucleo_matcher::{Config as MatcherConfig, Matcher, Utf32Str};
use nucleo_matcher::pattern::{CaseMatching, Normalization, Pattern};
use crate::index::{Entry, name_of, location_of, root_name_of};
use crate::text::chars_of;
use crate::path::{find_last_sep, last_sep};

verus! {

#[verifier::external_type_specification]
#[verifier::external_body]
pub struct ExMatcher(Matcher);

#[verifier::external_type_specification]
#[verifier::external_body]
pub struct ExPattern(Pattern);

/// Width of a fuzzy-score bucket: frecency only reorders matches whose fuzzy
/// scores fall in the same bucket, so it cannot lift a clearly worse match
/// above a clearly better one.
pub const SCORE_BUCKET: u32 = 24;

/// `nucleo_matcher::Matcher::new` with the path-matching configuration
/// (`Config::DEFAULT.match_paths()`). Nothing is claimed of the value: it is
/// carried to the scoring calls below.
#[verifier::external_body]
fn new_path_matcher() -> Matcher {
    Matcher::new(MatcherConfig::DEFAULT.match_paths())
}

/// How many atoms (whitespace-separated words with a non-empty needle)
/// `Pattern::parse` with smart case matching and smart normalization makes
/// of `query`.
pub uninterp spec fn atom_count(query: Seq<char>) -> nat;

/// `nucleo_matcher::pattern::Pattern::parse` with smart case matching and
/// smart normalization. Claimed: the number of its atoms is the named
/// `atom_count` of the query; nothing else is claimed of the pattern.
#[verifier::external_body]
fn parse_smart(query: &str) -> (r: (Pattern, usize))
    ensures
        r.1 as nat == atom_count(query@),
{
    let p = Pattern::parse(query, CaseMatching::Smart, Normalization::Smart);
    let n = p.atoms.len();
    (p, n)
}

/// A fuzzy matcher configured for file paths (basename bonuses, `\` and `/`
/// as delimiters). Every matcher of this type is built by [`FuzzyMatcher::new`].
pub struct FuzzyMatcher {
    inner: Matcher,
    /// Whether `inner` was built with nucleo's path configuration.
    paths: Ghost<bool>,
}

impl FuzzyMatcher {
    /// The matcher was built with nucleo's path configuration, the one that
    /// the named scores and positions below are taken on.
    pub closed spec fn for_paths(&self) -> bool {
        self.paths@
    }

    #[verifier::type_invariant]
    closed spec fn built_for_paths(self) -> bool {
        self.paths@
    }

    /// A matcher with the path configuration.
    pub fn new() -> (m: Self)
        ensures
            m.for_paths(),
    {
        FuzzyMatcher { inner: new_path_matcher(), paths: Ghost(true) }
    }
}

/// A query parsed once for scoring many haystacks. The pattern is always the
/// smart-case, smart-normalized parse of `text`, and `atoms` its number of
/// atoms.
pub struct QueryPattern {
    text: String,
    pattern: Pattern,
    atoms: usize,
}

impl QueryPattern {
    /// The query this pattern was parsed from.
    pub closed spec fn text(&self) -> Seq<char> {
        self.text@
    }

    /// The number of atoms of the pattern.
    pub closed spec fn atoms(&self) -> nat {
        self.atoms as nat
    }

    pub fn parse(query: &str) -> (p: QueryPattern)
        ensures
            p.text() == query@,
            p.atoms() == atom_count(query@),
    {
        let (pattern, atoms) = parse_smart(query);
        QueryPattern { text: String::from_str(query), pattern, atoms }
    }
}

/// What `Atom::score` returns for atom `k` of the smart parse of `query`
/// against `haystack`, on a path-configured matcher: `None` when it does not
/// match.
pub uninterp spec fn atom_score(query: Seq<char>, k: int, haystack: Seq<char>) -> Option<u16>;

/// What `Atom::indices` returns for atom `k` of the smart parse of `query`
/// against `haystack`, on a path-configured matcher, with the positions it
/// appends to an empty vector.
pub uninterp spec fn atom_indices(query: Seq<char>, k: int, haystack: Seq<char>) -> (Option<u16>, Seq<u32>);

/// `Atom::score` (nucleo-matcher) of atom `k` of `p` against `haystack`.
/// Claimed: the result is the named `atom_score`. The haystack is bounded as
/// nucleo asserts. The call sets the matcher's case and normalization
/// settings from the atom and leaves its path configuration as it is.
#[verifier::external_body]
fn atom_score_at(p: &QueryPattern, k: usize, haystack: &str, m: &mut FuzzyMatcher) -> (r: Option<u16>)
    requires
        k < p.atoms(),
        p.atoms() == atom_count(p.text()),
        haystack@.len() <= u32::MAX,
        old(m).for_paths(),
    ensures
        r == atom_score(p.text(), k as int, haystack@),
        final(m).for_paths(),
{
    let mut buf = Vec::new();
    p.pattern.atoms[k].score(Utf32Str::new(haystack, &mut buf), &mut m.inner)
}

/// `Atom::indices` (nucleo-matcher) of atom `k` of `p` against `haystack`,
/// appending to an empty position vector. Claimed: the score and the
/// positions are the named `atom_indices`, and the score is the one
/// `Atom::score` gives (nucleo runs the same matching code, which only also
/// records positions). The call leaves the matcher's path configuration as
/// it is.
#[verifier::external_body]
fn atom_indices_at(p: &QueryPattern, k: usize, haystack: &str, m: &mut FuzzyMatcher) -> (r: (
    Option<u16>,
    Vec<u32>,
))
    requires
        k < p.atoms(),
        p.atoms() == atom_count(p.text()),
        haystack@.len() <= u32::MAX,
        old(m).for_paths(),
    ensures
        (r.0, r.1@) == atom_indices(p.text(), k as int, haystack@),
        r.0 == atom_score(p.text(), k as int, haystack@),
        final(m).for_paths(),
{
    let mut buf = Vec::new();
    let mut indices = Vec::new();
    let score = p.pattern.atoms[k].indices(Utf32Str::new(haystack, &mut buf), &mut m.inner, &mut indices);
    (score, indices)
}

/// `a + b` modulo 2^32, as a `u32` sum wraps.
pub open spec fn wrap_add(a: u32, b: u16) -> u32 {
    if a + b > u32::MAX {
        (a + b - 0x1_0000_0000) as u32
    } else {
        (a + b) as u32
    }
}

/// `Pattern::score` over the first `n` atoms: the sum of their scores (as
/// its `u32` sum computes it in a build without overflow checks), `None`
/// when one of them does not match.
pub open spec fn atoms_score(query: Seq<char>, haystack: Seq<char>, n: nat) -> Option<u32>
    decreases n,
{
    if n == 0 {
        Some(0)
    } else {
        match (atoms_score(query, haystack, (n - 1) as nat), atom_score(query, n - 1, haystack)) {
            (Some(s), Some(a)) => Some(wrap_add(s, a)),
            _ => None,
        }
    }
}

/// What `Pattern::score` returns for the smart parse of `query` against
/// `haystack`: `Some(0)` without atoms, otherwise the sum over its atoms.
pub open spec fn fuzzy_score(query: Seq<char>, haystack: Seq<char>) -> Option<u32> {
    atoms_score(query, haystack, atom_count(query))
}

/// `Pattern::indices` over the first `n` atoms: the summed score and the
/// positions of each atom in turn (none once an atom fails to match).
pub open spec fn atoms_indices(query: Seq<char>, haystack: Seq<char>, n: nat) -> (Option<u32>, Seq<u32>)
    decreases n,
{
    if n == 0 {
        (Some(0), Seq::empty())
    } else {
        let (s, ps) = atoms_indices(query, haystack, (n - 1) as nat);
        match s {
            None => (None, Seq::empty()),
            Some(t) => {
                let (a, qs) = atom_indices(query, n - 1, haystack);
                match a {
                    None => (None, Seq::empty()),
                    Some(x) => (Some(wrap_add(t, x)), ps + qs),
                }
            },
        }
    }
}

/// What `Pattern::indices` returns for the smart parse of `query` against
/// `haystack`: the score and the positions of all atoms, appended in atom
/// order (neither sorted nor deduplicated); no positions when it fails.
pub open spec fn fuzzy_indices(query: Seq<char>, haystack: Seq<char>) -> (Option<u32>, Seq<u32>) {
    atoms_indices(query, haystack, atom_count(query))
}

proof fn lemma_score_none_stays(q: Seq<char>, h: Seq<char>, j: nat, n: nat)
    requires
        j <= n,
        atoms_score(q, h, j) is None,
    ensures
        atoms_score(q, h, n) is None,
    decreases n - j,
{
    if j < n {
        lemma_score_none_stays(q, h, j, (n - 1) as nat);
    }
}

proof fn lemma_indices_none_stays(q: Seq<char>, h: Seq<char>, j: nat, n: nat)
    requires
        j <= n,
        atoms_indices(q, h, j).0 is None,
    ensures
        atoms_indices(q, h, n) == (None::<u32>, Seq::<u32>::empty()),
    decreases n - j,
{
    if j < n {
        lemma_indices_none_stays(q, h, j, (n - 1) as nat);
    }
}

/// `Pattern::score` of `p` against `haystack`, atom by atom.
fn pattern_score(p: &QueryPattern, haystack: &str, m: &mut FuzzyMatcher) -> (r: Option<u32>)
    requires
        haystack@.len() <= u32::MAX,
        p.atoms() == atom_count(p.text()),
        old(m).for_paths(),
    ensures
        r == fuzzy_score(p.text(), haystack@),
        final(m).for_paths(),
{
    let n = p.atoms;
    let mut score: u32 = 0;
    let mut k: usize = 0;
    while k < n
        invariant
            k <= n,
            n as nat == p.atoms(),
            p.atoms() == atom_count(p.text()),
            haystack@.len() <= u32::MAX,
            m.for_paths(),
            atoms_score(p.text(), haystack@, k as nat) == Some(score),
        decreases n - k,
    {
        match atom_score_at(p, k, haystack, m) {
            None => {
                proof {
                    lemma_score_none_stays(p.text(), haystack@, (k + 1) as nat, n as nat);
                }
                return None;
            },
            Some(a) => {
                score = score.wrapping_add(a as u32);
            },
        }
        k += 1;
    }
    Some(score)
}

/// `Pattern::indices` of `p` against `haystack`, atom by atom.
fn pattern_indices(p: &QueryPattern, haystack: &str, m: &mut FuzzyMatcher) -> (r: (
    Option<u32>,
    Vec<u32>,
))
    requires
        haystack@.len() <= u32::MAX,
        p.atoms() == atom_count(p.text()),
        old(m).for_paths(),
    ensures
        (r.0, r.1@) == fuzzy_indices(p.text(), haystack@),
        r.0 == fuzzy_score(p.text(), haystack@),
        final(m).for_paths(),
{
    let n = p.atoms;
    let mut score: u32 = 0;
    let mut all: Vec<u32> = Vec::new();
    let mut k: usize = 0;
    while k < n
        invariant
            k <= n,
            n as nat == p.atoms(),
            p.atoms() == atom_count(p.text()),
            haystack@.len() <= u32::MAX,
            m.for_paths(),
            atoms_indices(p.text(), haystack@, k as nat) == (Some(score), all@),
            atoms_score(p.text(), haystack@, k as nat) == Some(score),
        decreases n - k,
    {
        let (a, ix) = atom_indices_at(p, k, haystack, m);
        match a {
            None => {
                proof {
                    lemma_indices_none_stays(p.text(), haystack@, (k + 1) as nat, n as nat);
                    lemma_score_none_stays(p.text(), haystack@, (k + 1) as nat, n as nat);
                }
                return (None, Vec::new());
            },
            Some(x) => {
                score = score.wrapping_add(x as u32);
                let mut ix = ix;
                all.append(&mut ix);
            },
        }
        k += 1;
    }
    (Some(score), all)
}

// --- ordering --------------------------------------------------------------

/// Code-point lexicographic order, which is the byte order of UTF-8 text and
/// so the order of `String`'s `Ord`.
pub open spec fn lex_lt(a: Seq<char>, b: Seq<char>) -> bool
    decreases a.len(),
{
    if b.len() == 0 {
        false
    } else if a.len() == 0 {
        true
    } else if a[0] < b[0] {
        true
    } else if a[0] == b[0] {
        lex_lt(a.drop_first(), b.drop_first())
    } else {
        false
    }
}

pub proof fn lemma_lex_irreflexive(a: Seq<char>)
    ensures
        !lex_lt(a, a),
    decreases a.len(),
{
    if a.len() > 0 {
        lemma_lex_irreflexive(a.drop_first());
    }
}

pub proof fn lemma_lex_transitive(a: Seq<char>, b: Seq<char>, c: Seq<char>)
    requires
        lex_lt(a, b),
        lex_lt(b, c),
    ensures
        lex_lt(a, c),
    decreases a.len(),
{
    if a.len() > 0 && b.len() > 0 && c.len() > 0 && a[0] == b[0] && b[0] == c[0] {
        lemma_lex_transitive(a.drop_first(), b.drop_first(), c.drop_first());
    }
}

pub proof fn lemma_lex_total(a: Seq<char>, b: Seq<char>)
    requires
        a != b,
    ensures
        lex_lt(a, b) || lex_lt(b, a),
    decreases a.len(),
{
    if a.len() > 0 && b.len() > 0 {
        if a[0] == b[0] {
            if a.drop_first() == b.drop_first() {
                assert(a =~= seq![a[0]] + a.drop_first());
                assert(b =~= seq![b[0]] + b.drop_first());
            }
            lemma_lex_total(a.drop_first(), b.drop_first());
        } else {
        }
    } else if a.len() == 0 && b.len() == 0 {
        assert(a =~= b);
    }
}

/// Code-point lexicographic comparison of two strings: `a < b`.
pub fn lex_less(a: &str, b: &str) -> (r: bool)
    ensures
        r == lex_lt(a@, b@),
{
    let ca = chars_of(a);
    let cb = chars_of(b);
    let mut i: usize = 0;
    assert(ca@.skip(0) =~= ca@ && cb@.skip(0) =~= cb@);
    while i < ca.len() && i < cb.len()
        invariant
            i <= ca@.len(),
            i <= cb@.len(),
            ca@ == a@,
            cb@ == b@,
            lex_lt(ca@, cb@) == lex_lt(ca@.skip(i as int), cb@.skip(i as int)),
        decreases ca@.len() - i,
    {
        let x = ca[i];
        let y = cb[i];
        assert(ca@.skip(i as int)[0] == x && cb@.skip(i as int)[0] == y);
        if x < y {
            return true;
        }
        if x != y {
            return false;
        }
        assert(ca@.skip(i as int).drop_first() =~= ca@.skip(i + 1));
        assert(cb@.skip(i as int).drop_first() =~= cb@.skip(i + 1));
        i += 1;
    }
    i == ca.len() && i < cb.len()
}


/// The sort key of a ranked match: fuzzy bucket (higher first), frecency
/// (higher first), folder priority (lower first), relative path
/// (lexicographic), then position in the index (a stable sort's tiebreak).
pub struct RankKey {
    pub bucket: u32,
    pub frec: u64,
    pub root_rank: usize,
    pub rel: Seq<char>,
    pub index: int,
}

/// `a` sorts strictly before `b`.
pub open spec fn key_before(a: RankKey, b: RankKey) -> bool {
    a.bucket > b.bucket || (a.bucket == b.bucket && (a.frec > b.frec || (a.frec == b.frec && (
    a.root_rank < b.root_rank || (a.root_rank == b.root_rank && (lex_lt(a.rel, b.rel) || (a.rel
        == b.rel && a.index < b.index)))))))
}

pub proof fn lemma_key_irreflexive(a: RankKey)
    ensures
        !key_before(a, a),
{
    lemma_lex_irreflexive(a.rel);
}

pub proof fn lemma_key_transitive(a: RankKey, b: RankKey, c: RankKey)
    requires
        key_before(a, b),
        key_before(b, c),
    ensures
        key_before(a, c),
{
    if lex_lt(a.rel, b.rel) && lex_lt(b.rel, c.rel) {
        lemma_lex_transitive(a.rel, b.rel, c.rel);
    }
    if lex_lt(a.rel, b.rel) && lex_lt(b.rel, a.rel) {
        lemma_lex_transitive(a.rel, b.rel, a.rel);
        lemma_lex_irreflexive(a.rel);
    }
    if lex_lt(b.rel, c.rel) && lex_lt(c.rel, b.rel) {
        lemma_lex_transitive(b.rel, c.rel, b.rel);
        lemma_lex_irreflexive(b.rel);
    }
}

pub proof fn lemma_key_total(a: RankKey, b: RankKey)
    requires
        a.index != b.index,
    ensures
        key_before(a, b) || key_before(b, a),
{
    if a.rel != b.rel {
        lemma_lex_total(a.rel, b.rel);
    }
}

/// The fuzzy score of `rel` for `query`; an empty query matches everything
/// with score `0`.
pub open spec fn match_score(query: Seq<char>, rel: Seq<char>) -> Option<u32> {
    if query.len() == 0 {
        Some(0)
    } else {
        fuzzy_score(query, rel)
    }
}

/// Entry `i` matches `query`.
pub open spec fn is_matched(query: Seq<char>, entries: Seq<Entry>, i: int) -> bool {
    match_score(query, entries[i].rel@) is Some
}

/// The score bucket of entry `i` (meaningful when it matches).
pub open spec fn bucket_of(query: Seq<char>, entries: Seq<Entry>, i: int) -> u32 {
    match match_score(query, entries[i].rel@) {
        Some(s) => s / SCORE_BUCKET,
        None => 0,
    }
}

/// The frecency of entry `i`; entries past the end of `frecency` score `0`.
pub open spec fn frec_at(frecency: Seq<u64>, i: int) -> u64 {
    if 0 <= i < frecency.len() {
        frecency[i]
    } else {
        0
    }
}

pub open spec fn rank_key(query: Seq<char>, entries: Seq<Entry>, frecency: Seq<u64>, i: int) -> RankKey {
    RankKey {
        bucket: bucket_of(query, entries, i),
        frec: frec_at(frecency, i),
        root_rank: entries[i].root_rank,
        rel: entries[i].rel@,
        index: i,
    }
}

/// Entry `i` ranks strictly before entry `j`.
pub open spec fn ranks_before(
    query: Seq<char>,
    entries: Seq<Entry>,
    frecency: Seq<u64>,
    i: int,
    j: int,
) -> bool {
    key_before(rank_key(query, entries, frecency, i), rank_key(query, entries, frecency, j))
}

/// How many of the first `n` entries match.
pub open spec fn count_matched(query: Seq<char>, entries: Seq<Entry>, n: int) -> nat
    decreases n,
{
    if n <= 0 {
        0
    } else {
        count_matched(query, entries, n - 1) + if is_matched(query, entries, n - 1) {
            1nat
        } else {
            0nat
        }
    }
}

pub open spec fn min_nat(a: nat, b: nat) -> nat {
    if a <= b { a } else { b }
}

/// `order` lists, best first, the `min(max, matches)` best-ranked matching
/// entries among the first `n`: every other match ranks after all of them.
pub open spec fn is_top(
    query: Seq<char>,
    entries: Seq<Entry>,
    frecency: Seq<u64>,
    n: int,
    max: nat,
    order: Seq<usize>,
) -> bool {
    &&& order.len() == min_nat(max, count_matched(query, entries, n))
    &&& forall|k: int|
        0 <= k < order.len() ==> (#[trigger] order[k] as int) < n && is_matched(
            query,
            entries,
            order[k] as int,
        )
    &&& forall|a: int, b: int|
        0 <= a < b < order.len() ==> ranks_before(
            query,
            entries,
            frecency,
            #[trigger] order[a] as int,
            #[trigger] order[b] as int,
        )
    &&& forall|x: int|
        0 <= x < n && #[trigger] is_matched(query, entries, x) && (forall|k: int|
            0 <= k < order.len() ==> order[k] as int != x) ==> order.len() == max && forall|k: int|
            0 <= k < order.len() ==> ranks_before(query, entries, frecency, #[trigger] order[k] as int, x)
}

proof fn lemma_ranks_trans(q: Seq<char>, es: Seq<Entry>, fr: Seq<u64>, a: int, b: int, c: int)
    requires
        ranks_before(q, es, fr, a, b),
        ranks_before(q, es, fr, b, c),
    ensures
        ranks_before(q, es, fr, a, c),
{
    lemma_key_transitive(rank_key(q, es, fr, a), rank_key(q, es, fr, b), rank_key(q, es, fr, c));
}

proof fn lemma_ranks_total(q: Seq<char>, es: Seq<Entry>, fr: Seq<u64>, a: int, b: int)
    requires
        a != b,
    ensures
        ranks_before(q, es, fr, a, b) || ranks_before(q, es, fr, b, a),
{
    lemma_key_total(rank_key(q, es, fr, a), rank_key(q, es, fr, b));
}

proof fn lemma_ranks_irreflexive(q: Seq<char>, es: Seq<Entry>, fr: Seq<u64>, a: int)
    ensures
        !ranks_before(q, es, fr, a, a),
{
    lemma_key_irreflexive(rank_key(q, es, fr, a));
}

/// An entry that does not match leaves the top list as it is.
proof fn lemma_top_step_unmatched(
    q: Seq<char>,
    es: Seq<Entry>,
    fr: Seq<u64>,
    n: int,
    max: nat,
    order: Seq<usize>,
)
    requires
        0 <= n,
        is_top(q, es, fr, n, max, order),
        !is_matched(q, es, n),
    ensures
        is_top(q, es, fr, n + 1, max, order),
{
}

/// A match that ranks after a full top list leaves it as it is.
proof fn lemma_top_step_skip(
    q: Seq<char>,
    es: Seq<Entry>,
    fr: Seq<u64>,
    n: int,
    max: nat,
    order: Seq<usize>,
)
    requires
        0 <= n,
        is_top(q, es, fr, n, max, order),
        is_matched(q, es, n),
        order.len() == max,
        forall|k: int| 0 <= k < order.len() ==> ranks_before(q, es, fr, #[trigger] order[k] as int, n),
    ensures
        is_top(q, es, fr, n + 1, max, order),
{
    assert forall|x: int|
        0 <= x < n + 1 && #[trigger] is_matched(q, es, x) && (forall|k: int|
            0 <= k < order.len() ==> order[k] as int != x) implies order.len() == max && forall|k: int|
        0 <= k < order.len() ==> ranks_before(q, es, fr, #[trigger] order[k] as int, x) by {
        if x < n {
        }
    }
}

/// A match inserted at its place (before `order[p]`, after `order[..p]`)
/// keeps the top list, cut back to `max`.
proof fn lemma_top_step_insert(
    q: Seq<char>,
    es: Seq<Entry>,
    fr: Seq<u64>,
    n: int,
    max: nat,
    order: Seq<usize>,
    p: int,
)
    requires
        0 <= n <= usize::MAX,
        is_top(q, es, fr, n, max, order),
        is_matched(q, es, n),
        0 <= p <= order.len(),
        order.len() < max || p < order.len(),
        forall|k: int| 0 <= k < p ==> ranks_before(q, es, fr, #[trigger] order[k] as int, n),
        p < order.len() ==> ranks_before(q, es, fr, n, order[p] as int),
    ensures
        ({
            let ins = order.insert(p, n as usize);
            is_top(
                q,
                es,
                fr,
                n + 1,
                max,
                if ins.len() > max {
                    ins.drop_last()
                } else {
                    ins
                },
            )
        }),
{
    let ins = order.insert(p, n as usize);
    let new = if ins.len() > max {
        ins.drop_last()
    } else {
        ins
    };
    assert(ins.len() == order.len() + 1);
    assert forall|k: int| 0 <= k < ins.len() implies #[trigger] ins[k] == (if k < p {
        order[k]
    } else if k == p {
        n as usize
    } else {
        order[k - 1]
    }) by {}
    assert(new.len() <= ins.len());
    assert forall|k: int| 0 <= k < new.len() implies #[trigger] new[k] == ins[k] by {}
    // the new match stays in the list
    assert(p < new.len());
    // sortedness
    assert forall|a: int, b: int| 0 <= a < b < new.len() implies ranks_before(
        q,
        es,
        fr,
        #[trigger] new[a] as int,
        #[trigger] new[b] as int,
    ) by {
        assert(new[a] == ins[a] && new[b] == ins[b]);
        if a < p && b == p {
        } else if a < p && b > p {
            assert(order[a] == ins[a] && order[b - 1] == ins[b]);
        } else if a == p && b > p {
            if b - 1 > p {
                lemma_ranks_trans(q, es, fr, n, order[p] as int, order[b - 1] as int);
            }
        } else if a > p {
            assert(order[a - 1] == ins[a] && order[b - 1] == ins[b]);
        }
    }
    // membership and matching
    assert forall|k: int| 0 <= k < new.len() implies (#[trigger] new[k] as int) < n + 1
        && is_matched(q, es, new[k] as int) by {
        assert(new[k] == ins[k]);
        if k < p {
            assert(order[k] == ins[k]);
        } else if k > p {
            assert(order[k - 1] == ins[k]);
        }
    }
    // everything left out ranks after the whole list, which is then full
    assert forall|x: int|
        0 <= x < n + 1 && #[trigger] is_matched(q, es, x) && (forall|k: int|
            0 <= k < new.len() ==> new[k] as int != x) implies new.len() == max && forall|k: int|
        0 <= k < new.len() ==> ranks_before(q, es, fr, #[trigger] new[k] as int, x) by {
        assert(new[p] == n as usize);
        assert(x != n);
        if forall|k: int| 0 <= k < order.len() ==> order[k] as int != x {
            // left out before: the old list was full and ranked before x
            assert(order.len() == max);
            assert(ranks_before(q, es, fr, order[p] as int, x));
            assert forall|k: int| 0 <= k < new.len() implies ranks_before(
                q,
                es,
                fr,
                #[trigger] new[k] as int,
                x,
            ) by {
                assert(new[k] == ins[k]);
                if k < p {
                    assert(order[k] == ins[k]);
                } else if k == p {
                    lemma_ranks_trans(q, es, fr, n, order[p] as int, x);
                } else {
                    assert(order[k - 1] == ins[k]);
                }
            }
        } else {
            // x was in the list and has just been cut: it was the old last
            let j = choose|j: int| 0 <= j < order.len() && order[j] as int == x;
            assert(ins.len() > max) by {
                if ins.len() <= max {
                    if j < p {
                        assert(new[j] == ins[j]);
                    } else {
                        assert(new[j + 1] == ins[j + 1]);
                    }
                }
            }
            assert(j == order.len() - 1) by {
                if j < p {
                    assert(new[j] == ins[j]);
                } else if j + 1 < new.len() {
                    assert(new[j + 1] == ins[j + 1]);
                }
            }
            assert forall|k: int| 0 <= k < new.len() implies ranks_before(
                q,
                es,
                fr,
                #[trigger] new[k] as int,
                x,
            ) by {
                assert(new[k] == ins[k]);
                if k < p {
                    assert(order[k] == ins[k]);
                } else if k == p {
                    if p < j {
                        lemma_ranks_trans(q, es, fr, n, order[p] as int, x);
                    }
                } else {
                    assert(order[k - 1] == ins[k]);
                }
            }
        }
    }
}


/// Whether the match `(b1, f1, i1)` sorts before `(b2, f2, i2)` (bucket,
/// frecency, index; root rank and path are read from `entries`).
fn before_exec(b1: u32, f1: u64, i1: usize, b2: u32, f2: u64, i2: usize, entries: &[Entry]) -> (r:
    bool)
    requires
        i1 < entries@.len(),
        i2 < entries@.len(),
    ensures
        r == key_before(
            RankKey {
                bucket: b1,
                frec: f1,
                root_rank: entries@[i1 as int].root_rank,
                rel: entries@[i1 as int].rel@,
                index: i1 as int,
            },
            RankKey {
                bucket: b2,
                frec: f2,
                root_rank: entries@[i2 as int].root_rank,
                rel: entries@[i2 as int].rel@,
                index: i2 as int,
            },
        ),
{
    if b1 != b2 {
        return b1 > b2;
    }
    if f1 != f2 {
        return f1 > f2;
    }
    let r1 = entries[i1].root_rank;
    let r2 = entries[i2].root_rank;
    if r1 != r2 {
        return r1 < r2;
    }
    let a = entries[i1].rel.as_str();
    let b = entries[i2].rel.as_str();
    if lex_less(a, b) {
        return true;
    }
    if lex_less(b, a) {
        return false;
    }
    proof {
        if a@ != b@ {
            lemma_lex_total(a@, b@);
        }
    }
    i1 < i2
}

/// Buckets and frecencies kept beside a top list agree with the entries.
pub open spec fn keys_agree(
    q: Seq<char>,
    es: Seq<Entry>,
    fr: Seq<u64>,
    order: Seq<usize>,
    buckets: Seq<u32>,
    frecs: Seq<u64>,
) -> bool {
    &&& buckets.len() == order.len()
    &&& frecs.len() == order.len()
    &&& forall|k: int| 0 <= k < order.len() ==> #[trigger] key_ok(q, es, fr, order, buckets, frecs, k)
}

pub open spec fn key_ok(
    q: Seq<char>,
    es: Seq<Entry>,
    fr: Seq<u64>,
    order: Seq<usize>,
    buckets: Seq<u32>,
    frecs: Seq<u64>,
    k: int,
) -> bool {
    buckets[k] == bucket_of(q, es, order[k] as int) && frecs[k] == frec_at(fr, order[k] as int)
}

/// Offer the match `i` to the top list of the first `i` entries.
fn offer(
    order: &mut Vec<usize>,
    buckets: &mut Vec<u32>,
    frecs: &mut Vec<u64>,
    b: u32,
    f: u64,
    i: usize,
    entries: &[Entry],
    max: usize,
    Ghost(q): Ghost<Seq<char>>,
    Ghost(fr): Ghost<Seq<u64>>,
)
    requires
        i < entries@.len(),
        is_top(q, entries@, fr, i as int, max as nat, old(order)@),
        keys_agree(q, entries@, fr, old(order)@, old(buckets)@, old(frecs)@),
        is_matched(q, entries@, i as int),
        b == bucket_of(q, entries@, i as int),
        f == frec_at(fr, i as int),
    ensures
        is_top(q, entries@, fr, i + 1, max as nat, final(order)@),
        keys_agree(q, entries@, fr, final(order)@, final(buckets)@, final(frecs)@),
{
    let ghost es = entries@;
    let mut p: usize = 0;
    while p < order.len() && !before_exec(b, f, i, buckets[p], frecs[p], order[p], entries)
        invariant
            p <= order@.len(),
            i < es.len(),
            es == entries@,
            order@ == old(order)@,
            b == bucket_of(q, es, i as int),
            f == frec_at(fr, i as int),
            keys_agree(q, es, fr, order@, buckets@, frecs@),
            is_top(q, es, fr, i as int, max as nat, order@),
            forall|k: int| 0 <= k < p ==> ranks_before(q, es, fr, #[trigger] order@[k] as int, i as int),
        decreases order@.len() - p,
    {
        proof {
            assert(key_ok(q, es, fr, order@, buckets@, frecs@, p as int));
            lemma_ranks_total(q, es, fr, order@[p as int] as int, i as int);
        }
        p += 1;
    }
    proof {
        if p < order@.len() {
            assert(key_ok(q, es, fr, order@, buckets@, frecs@, p as int));
        }
    }
    let ghost old_order = order@;
    let ghost old_b = buckets@;
    let ghost old_f = frecs@;
    if p < order.len() || order.len() < max {
        proof {
            lemma_top_step_insert(q, es, fr, i as int, max as nat, old_order, p as int);
        }
        order.insert(p, i);
        buckets.insert(p, b);
        frecs.insert(p, f);
        if order.len() > max {
            order.pop();
            buckets.pop();
            frecs.pop();
        }
        assert(buckets@.len() == order@.len() && frecs@.len() == order@.len());
        assert forall|k: int| 0 <= k < order@.len() implies #[trigger] key_ok(
            q,
            es,
            fr,
            order@,
            buckets@,
            frecs@,
            k,
        ) by {
            if k > p {
                assert(key_ok(q, es, fr, old_order, old_b, old_f, k - 1));
                assert(old_order[k - 1] == order@[k]);
                assert(old_b[k - 1] == buckets@[k]);
                assert(old_f[k - 1] == frecs@[k]);
            } else if k < p {
                assert(key_ok(q, es, fr, old_order, old_b, old_f, k));
                assert(old_order[k] == order@[k]);
                assert(old_b[k] == buckets@[k]);
                assert(old_f[k] == frecs@[k]);
            }
        }
        assert(keys_agree(q, es, fr, order@, buckets@, frecs@));
    } else {
        proof {
            lemma_top_step_skip(q, es, fr, i as int, max as nat, order@);
        }
    }
}

/// Rank `entries` for `query`. Returns the indices of the best `max` matches,
/// best first, and the count of all matching entries.
///
/// `frecency` is a per-entry score parallel to `entries` (see
/// [`crate::frecency`]); entries past its end score `0`. An empty query lists
/// every entry by frecency, then folder priority, then path; a non-empty query
/// orders matches by fuzzy-score bucket first (see [`SCORE_BUCKET`]).
pub fn rank(query: &str, entries: &[Entry], frecency: &[u64], matcher: &mut FuzzyMatcher, max: usize) -> (res: (
    Vec<usize>,
    usize,
))
    requires
        forall|i: int| 0 <= i < entries@.len() ==> (#[trigger] entries@[i]).rel@.len() <= u32::MAX,
    ensures
        res.1 == count_matched(query@, entries@, entries@.len() as int),
        is_top(query@, entries@, frecency@, entries@.len() as int, max as nat, res.0@),
{
    let empty = query.is_empty();
    let pattern = QueryPattern::parse(query);
    let mut order: Vec<usize> = Vec::new();
    let mut buckets: Vec<u32> = Vec::new();
    let mut frecs: Vec<u64> = Vec::new();
    let mut total: usize = 0;
    let mut i: usize = 0;
    let ghost q = query@;
    let ghost es = entries@;
    let ghost fr = frecency@;
    while i < entries.len()
        invariant
            i <= es.len(),
            q == query@,
            es == entries@,
            fr == frecency@,
            pattern.text() == q,
            empty == (q.len() == 0),
            pattern.atoms() == atom_count(pattern.text()),
            forall|j: int| 0 <= j < es.len() ==> (#[trigger] es[j]).rel@.len() <= u32::MAX,
            total as nat == count_matched(q, es, i as int),
            total <= i,
            is_top(q, es, fr, i as int, max as nat, order@),
            keys_agree(q, es, fr, order@, buckets@, frecs@),
        decreases es.len() - i,
    {
        let m = if empty {
            Some(0u32)
        } else {
            proof {
                use_type_invariant(&*matcher);
            }
            pattern_score(&pattern, entries[i].rel.as_str(), matcher)
        };
        match m {
            None => {
                proof {
                    lemma_top_step_unmatched(q, es, fr, i as int, max as nat, order@);
                }
            },
            Some(score) => {
                total += 1;
                let b = score / SCORE_BUCKET;
                let f = if i < frecency.len() {
                    frecency[i]
                } else {
                    0
                };
                offer(&mut order, &mut buckets, &mut frecs, b, f, i, entries, max, Ghost(q), Ghost(fr));
            },
        }
        i += 1;
    }
    (order, total)
}


// --- highlights --------------------------------------------------------------

/// `r` lists the distinct values of `raw` in increasing order.
pub open spec fn sorted_distinct_of(r: Seq<u32>, raw: Seq<u32>) -> bool {
    &&& forall|a: int, b: int| 0 <= a < b < r.len() ==> r[a] < r[b]
    &&& forall|x: u32| r.contains(x) <==> raw.contains(x)
}

/// Match positions of `query` over `rel`: empty for an empty query or when
/// `rel` does not match, otherwise the matcher's positions sorted and
/// deduplicated.
pub open spec fn match_positions_ok(query: Seq<char>, rel: Seq<char>, r: Seq<u32>) -> bool {
    if query.len() == 0 {
        r.len() == 0
    } else {
        match fuzzy_indices(query, rel) {
            (None, _) => r.len() == 0,
            (Some(_), raw) => sorted_distinct_of(r, raw),
        }
    }
}

/// Sort and deduplicate positions.
fn sort_dedup(raw: &Vec<u32>) -> (r: Vec<u32>)
    ensures
        sorted_distinct_of(r@, raw@),
{
    let mut out: Vec<u32> = Vec::new();
    let mut i: usize = 0;
    while i < raw.len()
        invariant
            i <= raw@.len(),
            sorted_distinct_of(out@, raw@.take(i as int)),
        decreases raw@.len() - i,
    {
        let x = raw[i];
        let mut p: usize = 0;
        while p < out.len() && out[p] < x
            invariant
                p <= out@.len(),
                forall|k: int| 0 <= k < p ==> out@[k] < x,
            decreases out@.len() - p,
        {
            p += 1;
        }
        let ghost old_out = out@;
        let ghost prev = raw@.take(i as int);
        let ghost cur = raw@.take(i + 1);
        assert(cur =~= prev.push(x));
        if p < out.len() && out[p] == x {
            assert forall|y: u32| out@.contains(y) <==> cur.contains(y) by {
                if cur.contains(y) && !prev.contains(y) {
                    let j = choose|j: int| 0 <= j < cur.len() && cur[j] == y;
                    assert(y == x);
                    assert(out@[p as int] == y);
                }
                if prev.contains(y) {
                    let j = choose|j: int| 0 <= j < prev.len() && prev[j] == y;
                    assert(cur[j] == y);
                }
            }
        } else {
            out.insert(p, x);
            assert forall|a: int, b: int| 0 <= a < b < out@.len() implies out@[a] < out@[b] by {
                if b < p {
                    assert(out@[a] == old_out[a] && out@[b] == old_out[b]);
                } else if b == p {
                    if a < p {
                        assert(out@[a] == old_out[a]);
                    }
                } else if a < p {
                    assert(out@[a] == old_out[a] && out@[b] == old_out[b - 1]);
                } else if a == p {
                    assert(out@[b] == old_out[b - 1]);
                    if b - 1 > p {
                        assert(old_out[p as int] < old_out[b - 1]);
                    }
                    assert(old_out[p as int] >= x);
                    assert(old_out[p as int] != x);
                } else {
                    assert(out@[a] == old_out[a - 1] && out@[b] == old_out[b - 1]);
                }
            }
            assert forall|y: u32| out@.contains(y) <==> cur.contains(y) by {
                if out@.contains(y) {
                    let j = choose|j: int| 0 <= j < out@.len() && out@[j] == y;
                    if j < p {
                        assert(old_out[j] == y);
                        assert(old_out.contains(y));
                    } else if j > p {
                        assert(old_out[j - 1] == y);
                        assert(old_out.contains(y));
                    } else {
                        assert(cur[i as int] == y);
                    }
                    if old_out.contains(y) {
                        let k = choose|k: int| 0 <= k < prev.len() && prev[k] == y;
                        assert(cur[k] == y);
                    }
                }
                if cur.contains(y) {
                    let j = choose|j: int| 0 <= j < cur.len() && cur[j] == y;
                    if j < i {
                        assert(prev[j] == y);
                        assert(old_out.contains(y));
                        let k = choose|k: int| 0 <= k < old_out.len() && old_out[k] == y;
                        if k < p {
                            assert(out@[k] == y);
                        } else {
                            assert(out@[k + 1] == y);
                        }
                    } else {
                        assert(out@[p as int] == y);
                    }
                }
            }
        }
        assert(raw@.take(i + 1) == cur);
        i += 1;
    }
    assert(raw@.take(raw@.len() as int) =~= raw@);
    out
}

/// Match positions for `query` over `rel`, as indices into `rel`'s matched
/// characters, from the same pattern construction [`rank`] scores with.
/// Sorted and deduplicated; empty for an empty query or a non-matching row.
pub fn match_indices(rel: &str, query: &str, matcher: &mut FuzzyMatcher) -> (r: Vec<u32>)
    requires
        rel@.len() <= u32::MAX,
    ensures
        match_positions_ok(query@, rel@, r@),
        query@.len() > 0 ==> fuzzy_indices(query@, rel@).0 == fuzzy_score(query@, rel@),
{
    if query.is_empty() {
        return Vec::new();
    }
    let pattern = QueryPattern::parse(query);
    proof {
        use_type_invariant(&*matcher);
    }
    let (score, raw) = pattern_indices(&pattern, rel, matcher);
    if score.is_none() {
        return Vec::new();
    }
    sort_dedup(&raw)
}

/// Positions past the boundary separator `sep`, re-based onto the basename.
pub open spec fn name_positions(ix: Seq<u32>, sep: int) -> Seq<u32>
    decreases ix.len(),
{
    if ix.len() == 0 {
        Seq::empty()
    } else {
        let r = name_positions(ix.drop_last(), sep);
        if ix.last() > sep {
            r.push((ix.last() - sep - 1) as u32)
        } else {
            r
        }
    }
}

/// Positions before the boundary separator `sep`, shifted past the root
/// folder's name and the `/` that joins it to the parent.
pub open spec fn location_positions(ix: Seq<u32>, sep: int, root_chars: int) -> Seq<u32>
    decreases ix.len(),
{
    if ix.len() == 0 {
        Seq::empty()
    } else {
        let r = location_positions(ix.drop_last(), sep, root_chars);
        if ix.last() < sep {
            r.push((root_chars + 1 + ix.last()) as u32)
        } else {
            r
        }
    }
}

/// The split of `indices` over `rel` onto the row's two displayed strings.
pub open spec fn split_spec(rel: Seq<char>, root_name: Seq<char>, indices: Seq<u32>) -> (Seq<u32>, Seq<u32>) {
    let sep = last_sep(rel);
    if sep < 0 {
        (indices, Seq::empty())
    } else {
        (name_positions(indices, sep), location_positions(indices, sep, root_name.len() as int))
    }
}

/// Split rel-relative match positions onto the two strings a row displays:
/// the basename, and the location line (`root_name`, plus `/`-joined parent
/// when nested). The separator between parent and basename is shown in
/// neither string, so positions on it are dropped.
pub fn split_highlights(rel: &str, root_name: &str, indices: &[u32]) -> (r: (Vec<u32>, Vec<u32>))
    requires
        rel@.len() + root_name@.len() + 1 <= u32::MAX,
    ensures
        (r.0@, r.1@) == split_spec(rel@, root_name@, indices@),
{
    let cs = chars_of(rel);
    let sep = match find_last_sep(&cs, cs.len()) {
        Some(s) => s,
        None => {
            let mut all: Vec<u32> = Vec::new();
            let mut i: usize = 0;
            while i < indices.len()
                invariant
                    i <= indices@.len(),
                    all@ == indices@.take(i as int),
                decreases indices@.len() - i,
            {
                all.push(indices[i]);
                i += 1;
                assert(all@ =~= indices@.take(i as int));
            }
            assert(indices@.take(indices@.len() as int) =~= indices@);
            return (all, Vec::new());
        },
    };
    proof {
        crate::path::lemma_last_sep_le(cs@);
    }
    let sep32 = sep as u32;
    let root_chars = root_name.unicode_len() as u32;
    let mut name_hl: Vec<u32> = Vec::new();
    let mut loc_hl: Vec<u32> = Vec::new();
    let mut i: usize = 0;
    while i < indices.len()
        invariant
            i <= indices@.len(),
            (sep as int) < cs@.len(),
            cs@ == rel@,
            sep32 as int == sep as int,
            root_chars as int == root_name@.len(),
            rel@.len() + root_name@.len() + 1 <= u32::MAX,
            name_hl@ == name_positions(indices@.take(i as int), sep as int),
            loc_hl@ == location_positions(indices@.take(i as int), sep as int, root_chars as int),
        decreases indices@.len() - i,
    {
        let idx = indices[i];
        assert(indices@.take(i + 1).drop_last() =~= indices@.take(i as int));
        if idx > sep32 {
            name_hl.push(idx - sep32 - 1);
        } else if idx < sep32 {
            loc_hl.push(root_chars + 1 + idx);
        }
        i += 1;
    }
    assert(indices@.take(indices@.len() as int) =~= indices@);
    (name_hl, loc_hl)
}


// --- result rows -------------------------------------------------------------

/// One result row as the picker shows it.
pub struct ResultRow {
    pub name: String,
    pub location: String,
    pub abs: String,
    /// Matched-character positions in `name` and in `location`.
    pub name_hl: Vec<u32>,
    pub loc_hl: Vec<u32>,
    /// Byte size from the index, shown without reading the file.
    pub size: u64,
}

/// The rows for one query, with the match count and the index size.
pub struct SearchOut {
    pub rows: Vec<ResultRow>,
    pub matches: usize,
    pub total: usize,
}

/// `row` shows entry `e` for `query`, with the positions the matcher reports.
pub open spec fn row_shows(row: ResultRow, e: Entry, query: Seq<char>) -> bool {
    &&& row.name@ == name_of(e@)
    &&& row.location@ == location_of(e@)
    &&& row.abs@ == e.abs@
    &&& row.size == e.size
    &&& exists|ix: Seq<u32>|
        match_positions_ok(query, e.rel@, ix) && (row.name_hl@, row.loc_hl@) == split_spec(
            e.rel@,
            root_name_of(e@),
            ix,
        )
}

/// Search the index for `query`: the best `max` rows, best first, each with
/// its highlight positions, plus the count of all matches and of all entries.
pub fn search_rows(query: &str, entries: &[Entry], frecency: &[u64], matcher: &mut FuzzyMatcher, max: usize) -> (out:
    SearchOut)
    requires
        forall|i: int|
            0 <= i < entries@.len() ==> (#[trigger] entries@[i]).rel@.len() + root_name_of(
                entries@[i]@,
            ).len() + 1 <= u32::MAX,
    ensures
        out.total == entries@.len(),
        out.matches == count_matched(query@, entries@, entries@.len() as int),
        exists|order: Seq<usize>|
            {
                &&& is_top(query@, entries@, frecency@, entries@.len() as int, max as nat, order)
                &&& out.rows@.len() == order.len()
                &&& forall|k: int|
                    0 <= k < order.len() ==> row_shows(
                        #[trigger] out.rows@[k],
                        entries@[order[k] as int],
                        query@,
                    )
            },
{
    let (order, matches) = rank(query, entries, frecency, matcher, max);
    let mut rows: Vec<ResultRow> = Vec::new();
    let mut k: usize = 0;
    while k < order.len()
        invariant
            k <= order@.len(),
            is_top(query@, entries@, frecency@, entries@.len() as int, max as nat, order@),
            forall|i: int|
                0 <= i < entries@.len() ==> (#[trigger] entries@[i]).rel@.len() + root_name_of(
                    entries@[i]@,
                ).len() + 1 <= u32::MAX,
            rows@.len() == k,
            forall|j: int|
                0 <= j < k ==> row_shows(#[trigger] rows@[j], entries@[order@[j] as int], query@),
        decreases order@.len() - k,
    {
        let e = &entries[order[k]];
        let indices = match_indices(e.rel.as_str(), query, matcher);
        let (name_hl, loc_hl) = split_highlights(e.rel.as_str(), e.root_name(), indices.as_slice());
        let row = ResultRow {
            name: String::from_str(e.name()),
            location: e.location(),
            abs: e.abs.clone(),
            name_hl,
            loc_hl,
            size: e.size,
        };
        assert(row_shows(row, entries@[order@[k as int] as int], query@));
        rows.push(row);
        k += 1;
    }
    SearchOut { rows, matches, total: entries.len() }
}


// --- laws ------------------------------------------------------------------------

/// The ranking is a function of its inputs: two top lists of the same
/// entries, frecencies, query and bound are the same list.
pub proof fn law_ranking_is_unique(
    q: Seq<char>,
    es: Seq<Entry>,
    fr: Seq<u64>,
    n: int,
    max: nat,
    a: Seq<usize>,
    b: Seq<usize>,
)
    requires
        0 <= n <= es.len(),
        is_top(q, es, fr, n, max, a),
        is_top(q, es, fr, n, max, b),
    ensures
        a == b,
    decreases a.len(),
{
    // Each list is sorted, and anything left out of one ranks after all of
    // it; so the k-th elements agree, by induction on k.
    assert forall|k: int| 0 <= k < a.len() implies a[k] == b[k] by {
        lemma_tops_agree_at(q, es, fr, n, max, a, b, k);
    }
    assert(a =~= b);
}

proof fn lemma_tops_agree_at(
    q: Seq<char>,
    es: Seq<Entry>,
    fr: Seq<u64>,
    n: int,
    max: nat,
    a: Seq<usize>,
    b: Seq<usize>,
    k: int,
)
    requires
        0 <= n <= es.len(),
        is_top(q, es, fr, n, max, a),
        is_top(q, es, fr, n, max, b),
        0 <= k < a.len(),
    ensures
        a[k] == b[k],
    decreases k,
{
    if k > 0 {
        lemma_tops_agree_at(q, es, fr, n, max, a, b, k - 1);
    }
    // all earlier positions agree
    assert forall|j: int| 0 <= j < k implies a[j] == b[j] by {
        if j < k - 1 {
            lemma_tops_agree_at(q, es, fr, n, max, a, b, j);
        }
    }
    let x = a[k] as int;
    let y = b[k] as int;
    if x != y {
        lemma_ranks_total(q, es, fr, x, y);
        if ranks_before(q, es, fr, x, y) {
            // x is not in b at positions < k (those equal a's, which rank
            // before x), nor at >= k (those rank at or after y); so x was
            // left out of b and must rank after b[k] = y.
            assert forall|m: int| 0 <= m < b.len() implies b[m] as int != x by {
                if m < k {
                    assert(a[m] == b[m]);
                    assert(ranks_before(q, es, fr, a[m] as int, a[k] as int));
                    lemma_ranks_irreflexive(q, es, fr, x);
                } else if m > k {
                    assert(ranks_before(q, es, fr, b[k] as int, b[m] as int));
                    if b[m] as int == x {
                        lemma_ranks_trans(q, es, fr, x, y, x);
                        lemma_ranks_irreflexive(q, es, fr, x);
                    }
                }
            }
            assert(is_matched(q, es, x));
            assert(ranks_before(q, es, fr, b[k] as int, x));
            lemma_ranks_trans(q, es, fr, x, y, x);
            lemma_ranks_irreflexive(q, es, fr, x);
        } else {
            assert forall|m: int| 0 <= m < a.len() implies a[m] as int != y by {
                if m < k {
                    assert(a[m] == b[m]);
                    assert(ranks_before(q, es, fr, b[m] as int, b[k] as int));
                    lemma_ranks_irreflexive(q, es, fr, y);
                } else if m > k {
                    assert(ranks_before(q, es, fr, a[k] as int, a[m] as int));
                    if a[m] as int == y {
                        lemma_ranks_trans(q, es, fr, y, x, y);
                        lemma_ranks_irreflexive(q, es, fr, y);
                    }
                }
            }
            assert(is_matched(q, es, y));
            assert(ranks_before(q, es, fr, a[k] as int, y));
            lemma_ranks_trans(q, es, fr, y, x, y);
            lemma_ranks_irreflexive(q, es, fr, y);
        }
    }
}

/// Frecency's boost is bounded: a match in a higher fuzzy-score bucket ranks
/// before one in a lower bucket, whatever their frecencies.
pub proof fn law_better_bucket_wins(q: Seq<char>, es: Seq<Entry>, fr: Seq<u64>, i: int, j: int)
    requires
        bucket_of(q, es, i) > bucket_of(q, es, j),
    ensures
        ranks_before(q, es, fr, i, j),
{
}

/// Within a bucket, the more frecent match ranks first.
pub proof fn law_frecency_breaks_bucket_ties(q: Seq<char>, es: Seq<Entry>, fr: Seq<u64>, i: int, j: int)
    requires
        bucket_of(q, es, i) == bucket_of(q, es, j),
        frec_at(fr, i) > frec_at(fr, j),
    ensures
        ranks_before(q, es, fr, i, j),
{
}

/// With equal bucket and frecency, folder priority decides: the entry from
/// the earlier-listed folder ranks first.
pub proof fn law_folder_priority_breaks_ties(q: Seq<char>, es: Seq<Entry>, fr: Seq<u64>, i: int, j: int)
    requires
        bucket_of(q, es, i) == bucket_of(q, es, j),
        frec_at(fr, i) == frec_at(fr, j),
        es[i].root_rank < es[j].root_rank,
    ensures
        ranks_before(q, es, fr, i, j),
{
}

/// An empty query matches every entry, all in one bucket: the counter's
/// total is the whole index, and the order is by frecency, then folder
/// priority, then path.
pub proof fn law_empty_query_lists_everything(es: Seq<Entry>, fr: Seq<u64>, n: int)
    requires
        0 <= n <= es.len(),
    ensures
        count_matched(Seq::empty(), es, n) == n,
        forall|i: int, j: int|
            0 <= i < es.len() && 0 <= j < es.len() ==> bucket_of(Seq::empty(), es, i) == bucket_of(
                Seq::empty(),
                es,
                j,
            ),
    decreases n,
{
    if n > 0 {
        law_empty_query_lists_everything(es, fr, n - 1);
    }
}

/// Highlight positions land on the displayed characters: a position before
/// the boundary separator, shifted as [`split_highlights`] shifts it, points
/// at the same character in the location line (with `\` shown as `/`).
pub proof fn law_location_highlight_lands(e: crate::index::EntryView, idx: int)
    requires
        0 <= idx < last_sep(e.rel),
    ensures
        ({
            let loc = location_of(e);
            let at = crate::index::root_name_of(e).len() + 1 + idx;
            0 <= at < loc.len() && loc[at] == crate::index::slashed(e.rel[idx])
        }),
{
    crate::path::lemma_last_sep_le(e.rel);
}

proof fn lemma_name_positions_has(ix: Seq<u32>, sep: int, k: int)
    requires
        0 <= k < ix.len(),
        ix[k] > sep,
    ensures
        name_positions(ix, sep).contains((ix[k] - sep - 1) as u32),
    decreases ix.len(),
{
    let r = name_positions(ix.drop_last(), sep);
    if k == ix.len() - 1 {
        assert(name_positions(ix, sep) == r.push((ix.last() - sep - 1) as u32));
        assert(name_positions(ix, sep)[r.len() as int] == (ix[k] - sep - 1) as u32);
    } else {
        assert(ix.drop_last()[k] == ix[k]);
        lemma_name_positions_has(ix.drop_last(), sep, k);
        let j = choose|j: int| 0 <= j < r.len() && r[j] == (ix[k] - sep - 1) as u32;
        assert(name_positions(ix, sep)[j] == r[j]);
    }
}

proof fn lemma_location_positions_has(ix: Seq<u32>, sep: int, root_chars: int, k: int)
    requires
        0 <= k < ix.len(),
        ix[k] < sep,
    ensures
        location_positions(ix, sep, root_chars).contains((root_chars + 1 + ix[k]) as u32),
    decreases ix.len(),
{
    let r = location_positions(ix.drop_last(), sep, root_chars);
    if k == ix.len() - 1 {
        assert(location_positions(ix, sep, root_chars)[r.len() as int] == (root_chars + 1 + ix[k]) as u32);
    } else {
        assert(ix.drop_last()[k] == ix[k]);
        lemma_location_positions_has(ix.drop_last(), sep, root_chars, k);
        let j = choose|j: int| 0 <= j < r.len() && r[j] == (root_chars + 1 + ix[k]) as u32;
        assert(location_positions(ix, sep, root_chars)[j] == r[j]);
    }
}

/// Every highlighted character is shown: for a nested row whose name is the
/// text after the last separator of `rel`, a match position after that
/// separator appears in the name's positions on the same character, and one
/// before it appears in the location's positions on the same character (with
/// `\` shown as `/`). Only the separator itself is shown in neither.
pub proof fn law_highlights_land(e: crate::index::EntryView, indices: Seq<u32>)
    requires
        last_sep(e.rel) >= 0,
        name_of(e) == e.rel.subrange(last_sep(e.rel) + 1, e.rel.len() as int),
        e.rel.len() + root_name_of(e).len() + 1 <= u32::MAX,
        forall|k: int| 0 <= k < indices.len() ==> (#[trigger] indices[k]) < e.rel.len(),
    ensures
        forall|k: int|
            0 <= k < indices.len() && #[trigger] indices[k] > last_sep(e.rel) ==> {
                let at = indices[k] - last_sep(e.rel) - 1;
                &&& split_spec(e.rel, root_name_of(e), indices).0.contains(at as u32)
                &&& name_of(e)[at] == e.rel[indices[k] as int]
            },
        forall|k: int|
            0 <= k < indices.len() && #[trigger] indices[k] < last_sep(e.rel) ==> {
                let at = root_name_of(e).len() + 1 + indices[k];
                &&& split_spec(e.rel, root_name_of(e), indices).1.contains(at as u32)
                &&& location_of(e)[at] == crate::index::slashed(e.rel[indices[k] as int])
            },
{
    let sep = last_sep(e.rel);
    crate::path::lemma_last_sep_le(e.rel);
    assert forall|k: int| 0 <= k < indices.len() && #[trigger] indices[k] > sep implies {
        let at = indices[k] - sep - 1;
        &&& split_spec(e.rel, root_name_of(e), indices).0.contains(at as u32)
        &&& name_of(e)[at] == e.rel[indices[k] as int]
    } by {
        lemma_name_positions_has(indices, sep, k);
    }
    assert forall|k: int| 0 <= k < indices.len() && #[trigger] indices[k] < sep implies {
        let at = root_name_of(e).len() + 1 + indices[k];
        &&& split_spec(e.rel, root_name_of(e), indices).1.contains(at as u32)
        &&& location_of(e)[at] == crate::index::slashed(e.rel[indices[k] as int])
    } by {
        lemma_location_positions_has(indices, sep, root_name_of(e).len() as int, k);
        law_location_highlight_lands(e, indices[k] as int);
    }
}

/// What a score bucket means for the listed order: of two listed matches
/// of a non-empty query, the one whose fuzzy score divided by 24 is larger
/// is listed first; when the quotients are equal (the scores may differ),
/// the more frecent one is listed first.
pub proof fn law_buckets_of_24_then_frecency(
    q: Seq<char>,
    es: Seq<Entry>,
    fr: Seq<u64>,
    n: int,
    max: nat,
    order: Seq<usize>,
    a: int,
    b: int,
    sa: u32,
    sb: u32,
)
    requires
        is_top(q, es, fr, n, max, order),
        0 <= a < order.len(),
        0 <= b < order.len(),
        q.len() > 0,
        fuzzy_score(q, es[order[a] as int].rel@) == Some(sa),
        fuzzy_score(q, es[order[b] as int].rel@) == Some(sb),
        sa / 24 > sb / 24 || (sa / 24 == sb / 24 && frec_at(fr, order[a] as int) > frec_at(fr, order[b] as int)),
    ensures
        a < b,
{
    let x = order[a] as int;
    let y = order[b] as int;
    assert(ranks_before(q, es, fr, x, y));
    if a == b {
        lemma_ranks_irreflexive(q, es, fr, x);
    } else if b < a {
        assert(ranks_before(q, es, fr, y, x));
        lemma_ranks_trans(q, es, fr, x, y, x);
        lemma_ranks_irreflexive(q, es, fr, x);
    }
}

} // verus!
