//! Range planner: tiles a log's index range `[0, tree_size)` into
//! half-open batches of at most `batch_size` entries each.

use vstd::prelude::*;
use crate::errors::ConfigError;

verus! {

/// A half-open span `[start, end)` of entry indices fetched in one request.
#[derive(Clone, Copy, Debug, PartialEq, Eq, Structural)]
pub struct EntryRange {
    pub start: u64,
    pub end: u64,
}

/// The tiling of `[cursor, tree_size)` into batches of `batch_size`,
/// in ascending order, the last batch possibly shorter.
pub open spec fn plan_from(tree_size: u64, batch_size: u64, cursor: u64) -> Seq<EntryRange>
    decreases tree_size - cursor when batch_size > 0
{
    if cursor >= tree_size {
        Seq::empty()
    } else {
        let end = if tree_size - cursor < batch_size { tree_size } else { (cursor + batch_size) as u64 };
        seq![EntryRange { start: cursor, end }] + plan_from(tree_size, batch_size, end)
    }
}

/// The full tiling of `[0, tree_size)`.
pub open spec fn plan_spec(tree_size: u64, batch_size: u64) -> Seq<EntryRange> {
    plan_from(tree_size, batch_size, 0)
}

/// Produces the exact, total, non-overlapping ascending sequence of ranges
/// covering `[0, tree_size)`. A zero batch size is an input-validation
/// failure; an empty log yields an empty plan.
pub fn plan(tree_size: u64, batch_size: u64) -> (r: Result<Vec<EntryRange>, ConfigError>)
    ensures
        batch_size == 0 ==> r == Result::<Vec<EntryRange>, ConfigError>::Err(ConfigError::ZeroBatchSize),
        batch_size > 0 ==> (r matches Ok(v) && v@ == plan_spec(tree_size, batch_size)),
{
    if batch_size == 0 {
        return Err(ConfigError::ZeroBatchSize);
    }
    let mut out: Vec<EntryRange> = Vec::new();
    let mut cursor: u64 = 0;
    while cursor < tree_size
        invariant
            batch_size > 0,
            cursor <= tree_size,
            plan_spec(tree_size, batch_size) == out@ + plan_from(tree_size, batch_size, cursor),
        decreases tree_size - cursor,
    {
        let end = if tree_size - cursor < batch_size { tree_size } else { cursor + batch_size };
        out.push(EntryRange { start: cursor, end });
        proof {
            assert(plan_from(tree_size, batch_size, cursor)
                == seq![EntryRange { start: cursor, end }] + plan_from(tree_size, batch_size, end));
            assert(out@ + plan_from(tree_size, batch_size, end)
                == plan_spec(tree_size, batch_size));
        }
        cursor = end;
    }
    proof {
        assert(plan_from(tree_size, batch_size, cursor) == Seq::<EntryRange>::empty());
        assert(out@ + Seq::<EntryRange>::empty() == out@);
    }
    Ok(out)
}

/// The planned ranges tile `[cursor, tree_size)` exactly: every range is
/// non-empty, each one starts where its predecessor ended, the first starts
/// at `cursor`, and the last ends at `tree_size`.
proof fn lemma_plan_from_tiles(tree_size: u64, batch_size: u64, cursor: u64)
    requires
        batch_size > 0,
        cursor <= tree_size,
    ensures
        ({
            let s = plan_from(tree_size, batch_size, cursor);
            &&& (cursor < tree_size <==> s.len() > 0)
            &&& forall|i: int| 0 <= i < s.len() ==> #[trigger] s[i].start < s[i].end
            &&& s.len() > 0 ==> s[0].start == cursor
            &&& s.len() > 0 ==> s[s.len() - 1].end == tree_size
            &&& forall|i: int| 0 <= i < s.len() - 1 ==> #[trigger] s[i].end == s[i + 1].start
            &&& forall|i: int| 0 <= i < s.len() ==> #[trigger] (s[i].end - s[i].start) <= batch_size
        }),
    decreases tree_size - cursor,
{
    if cursor < tree_size {
        let end = if tree_size - cursor < batch_size { tree_size } else { (cursor + batch_size) as u64 };
        lemma_plan_from_tiles(tree_size, batch_size, end);
        let s = plan_from(tree_size, batch_size, cursor);
        let rest = plan_from(tree_size, batch_size, end);
        assert(s == seq![EntryRange { start: cursor, end }] + rest);
        assert forall|i: int| 0 <= i < s.len() - 1 implies #[trigger] s[i].end == s[i + 1].start by {
            if i == 0 {
                assert(rest.len() > 0);
                assert(s[1] == rest[0]);
            } else {
                assert(s[i] == rest[i - 1]);
                assert(s[i + 1] == rest[i]);
            }
        }
    }
}

/// Tiling law: for every `tree_size` and positive `batch_size`, the plan's
/// ranges are all non-empty and contiguous, the first starts at index 0, the
/// last ends at `tree_size`, and no range is longer than `batch_size`; the
/// plan is empty exactly when the log is.
pub proof fn lemma_plan_tiles(tree_size: u64, batch_size: u64)
    requires
        batch_size > 0,
    ensures
        ({
            let s = plan_spec(tree_size, batch_size);
            &&& (tree_size > 0 <==> s.len() > 0)
            &&& forall|i: int| 0 <= i < s.len() ==> #[trigger] s[i].start < s[i].end
            &&& s.len() > 0 ==> s[0].start == 0
            &&& s.len() > 0 ==> s[s.len() - 1].end == tree_size
            &&& forall|i: int| 0 <= i < s.len() - 1 ==> #[trigger] s[i].end == s[i + 1].start
            &&& forall|i: int| 0 <= i < s.len() ==> #[trigger] (s[i].end - s[i].start) <= batch_size
        }),
{
    lemma_plan_from_tiles(tree_size, batch_size, 0);
}

/// An empty log plans to an empty sequence.
pub proof fn lemma_plan_empty(batch_size: u64)
    requires
        batch_size > 0,
    ensures
        plan_spec(0, batch_size) == Seq::<EntryRange>::empty(),
{
}

} // verus!
