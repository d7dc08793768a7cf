//! The decisions of the persistent store: schema upkeep, pick recording, and
//! pruning the frecency ledger of paths that left the index.

use vstd::prelude::*;
use vstd::hash_set::StringHashSet;
use crate::config::texts;

verus! {

/// Bump when the on-disk layout changes; a mismatch wipes and rebuilds.
pub const SCHEMA_VERSION: u64 = 1;

/// What to do with the stored schema version when the store opens.
#[derive(Clone, Copy, Debug, PartialEq, Eq, Structural)]
pub enum SchemaStep {
    /// The version matches: keep everything.
    Keep,
    /// No version yet (first run): record it.
    Initialize,
    /// Another version: wipe the tables, then record the current version.
    Reset,
}

/// Decide on the stored schema version: a layout change can never surface
/// rows written under another layout.
pub fn schema_step(stored: Option<u64>) -> (r: SchemaStep)
    ensures
        r == match stored {
            None => SchemaStep::Initialize,
            Some(v) => if v == SCHEMA_VERSION {
                SchemaStep::Keep
            } else {
                SchemaStep::Reset
            },
        },
{
    match stored {
        None => SchemaStep::Initialize,
        Some(v) => if v == SCHEMA_VERSION {
            SchemaStep::Keep
        } else {
            SchemaStep::Reset
        },
    }
}

/// A frecency ledger row: how often a path was picked, and when last.
#[derive(Clone, Copy, Debug, PartialEq, Eq, Structural)]
pub struct PickRecord {
    pub count: u32,
    pub last_picked_unix: u64,
}

/// The ledger row after a pick at `now`: the count goes up by one (staying
/// at `u32::MAX` once there) and the last-picked time becomes `now`.
pub fn record_pick(prev: Option<PickRecord>, now: u64) -> (r: PickRecord)
    ensures
        r.last_picked_unix == now,
        r.count == match prev {
            None => 1,
            Some(p) => if p.count == u32::MAX {
                u32::MAX as int
            } else {
                p.count + 1
            },
        },
{
    let count = match prev {
        None => 1,
        Some(p) => if p.count == u32::MAX {
            u32::MAX
        } else {
            p.count + 1
        },
    };
    PickRecord { count, last_picked_unix: now }
}

/// Ledger paths that are no longer in the index.
pub open spec fn stale_spec(ledger: Seq<Seq<char>>, present: Seq<Seq<char>>) -> Seq<Seq<char>> {
    ledger.filter(|k: Seq<char>| !present.contains(k))
}

/// The ledger rows to prune: paths that are no longer indexed, in ledger
/// order.
pub fn stale_paths(ledger: &[String], present: &[String]) -> (r: Vec<String>)
    ensures
        texts(r@) == stale_spec(texts(ledger@), texts(present@)),
{
    let mut set = StringHashSet::new();
    let mut j: usize = 0;
    while j < present.len()
        invariant
            j <= present@.len(),
            forall|a: Seq<char>| #[trigger] set@.contains(a) <==> texts(present@).take(j as int).contains(a),
        decreases present@.len() - j,
    {
        let ghost prev = texts(present@).take(j as int);
        let ghost nxt = texts(present@).take(j + 1);
        assert(nxt =~= prev.push(present@[j as int]@));
        set.insert(present[j].clone());
        assert forall|a: Seq<char>| #[trigger] set@.contains(a) <==> nxt.contains(a) by {
            if prev.contains(a) {
                let k = choose|k: int| 0 <= k < prev.len() && prev[k] == a;
                assert(nxt[k] == a);
            }
            if nxt.contains(a) && a != present@[j as int]@ {
                let k = choose|k: int| 0 <= k < nxt.len() && nxt[k] == a;
                assert(k < j);
                assert(prev[k] == a);
            }
            if a == present@[j as int]@ {
                assert(nxt[j as int] == a);
            }
        }
        j += 1;
    }
    assert(texts(present@).take(present@.len() as int) =~= texts(present@));
    let ghost pr = texts(present@);
    let mut out: Vec<String> = Vec::new();
    let mut i: usize = 0;
    while i < ledger.len()
        invariant
            i <= ledger@.len(),
            pr == texts(present@),
            forall|a: Seq<char>| #[trigger] set@.contains(a) <==> pr.contains(a),
            texts(out@) == stale_spec(texts(ledger@).take(i as int), pr),
        decreases ledger@.len() - i,
    {
        let ghost prev = texts(ledger@).take(i as int);
        let ghost cur = texts(ledger@).take(i + 1);
        assert(cur =~= prev.push(ledger@[i as int]@));
        assert(cur.drop_last() =~= prev);
        proof {
            reveal_with_fuel(Seq::<_>::filter, 1);
        }
        if !set.contains(ledger[i].as_str()) {
            out.push(ledger[i].clone());
            assert(texts(out@) =~= stale_spec(prev, pr).push(ledger@[i as int]@));
        }
        i += 1;
    }
    assert(texts(ledger@).take(ledger@.len() as int) =~= texts(ledger@));
    out
}

} // verus!
