//! Loading and hot reloading the game asset.

use vstd::prelude::*;

verus! {

/// What happened to an asset.
#[derive(Debug, PartialEq, Eq, Structural, Clone, Copy)]
pub enum AssetEventKind {
    Created,
    Modified,
    Removed,
}

/// The number of modification events in `events`.
pub open spec fn modified_count(events: Seq<AssetEventKind>) -> int
    decreases events.len(),
{
    if events.len() == 0 {
        0
    } else {
        (if events.last() == AssetEventKind::Modified { 1int } else { 0int }) + modified_count(events.drop_last())
    }
}

proof fn lemma_modified_count_nonneg(events: Seq<AssetEventKind>)
    ensures
        modified_count(events) >= 0,
    decreases events.len(),
{
    if events.len() > 0 {
        lemma_modified_count_nonneg(events.drop_last());
    }
}

/// Decides whether a run of the game loader is skipped. A first load always runs. A hot
/// reload runs only when the game asset was modified; the modification that the loader's
/// own previous reload caused (flagged in `skip_next_update`) is not counted, and clears
/// the flag.
pub fn should_skip_run(skip_next_update: &mut bool, is_hot_reload: bool, events: &Vec<AssetEventKind>) -> (skip: bool)
    ensures
        !is_hot_reload ==> !skip && *final(skip_next_update) == *old(skip_next_update),
        is_hot_reload ==> *final(skip_next_update) == (*old(skip_next_update) && modified_count(events@) == 0),
        is_hot_reload ==> skip == (modified_count(events@) <= if *old(skip_next_update) { 1int } else { 0int }),
{
    if is_hot_reload {
        let mut has_update = false;
        let mut i: usize = 0;
        let ghost skip0 = *skip_next_update;
        while i < events.len()
            invariant
                i <= events@.len(),
                *skip_next_update == (skip0 && modified_count(events@.take(i as int)) == 0),
                has_update == (modified_count(events@.take(i as int)) > if skip0 { 1int } else { 0int }),
            decreases events@.len() - i,
        {
            proof {
                lemma_modified_count_nonneg(events@.take(i as int));
                assert(events@.take(i + 1).drop_last() =~= events@.take(i as int));
                assert(events@.take(i + 1).last() == events@[i as int]);
            }
            if events[i] == AssetEventKind::Modified {
                if *skip_next_update {
                    *skip_next_update = false;
                } else {
                    has_update = true;
                }
            }
            i = i + 1;
        }
        proof {
            assert(events@.take(i as int) =~= events@);
        }
        if !has_update {
            return true;
        }
    }
    false
}

} // verus!
