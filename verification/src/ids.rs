//! Lists of ids that a request names: bounded, positive, without repeats.

use vstd::prelude::*;

verus! {

/// Between one and `max` ids, all positive, none twice.
pub open spec fn positive_unique(ids: Seq<i64>, max: int) -> bool {
    &&& 0 < ids.len() <= max
    &&& forall|i: int| 0 <= i < ids.len() ==> #[trigger] ids[i] > 0
    &&& ids.no_duplicates()
}

/// The ids, when there are between one and `max` of them, all positive and
/// none twice.
pub fn checked_id_list(ids: Vec<i64>, max: usize) -> (r: Option<Vec<i64>>)
    ensures
        positive_unique(ids@, max as int) ==> r == Some(ids),
        !positive_unique(ids@, max as int) ==> r is None,
{
    if ids.len() == 0 || ids.len() > max {
        return None;
    }
    let mut i: usize = 0;
    while i < ids.len()
        invariant
            i <= ids@.len(),
            forall|k: int| 0 <= k < i ==> #[trigger] ids@[k] > 0,
            forall|k: int, l: int| 0 <= k < l < i ==> ids@[k] != ids@[l],
        decreases ids.len() - i,
    {
        if ids[i] <= 0 {
            return None;
        }
        let mut j: usize = 0;
        while j < i
            invariant
                j <= i < ids@.len(),
                forall|k: int| 0 <= k < j ==> #[trigger] ids@[k] != ids@[i as int],
            decreases i - j,
        {
            if ids[j] == ids[i] {
                proof {
                    assert(!ids@.no_duplicates());
                }
                return None;
            }
            j = j + 1;
        }
        i = i + 1;
    }
    proof {
        assert(ids@.no_duplicates());
    }
    Some(ids)
}

} // verus!
