//! The eviction selector.
//!
//! Given the ordered index, `select` picks the backup that is most
//! redundant: among the interior entries (all but the chronologically
//! first and last), the one whose two gaps to its neighbours, sorted
//! ascending, compare lexicographically smallest; on an exact tie the
//! chronologically earliest candidate wins. With two entries the older
//! one is picked, with fewer there is nothing to evict.

use vstd::prelude::*;
use crate::index::BackupIndex;

verus! {

/// The gap from entry `i - 1` to entry `i`.
pub open spec fn gap_before(s: Seq<(u64, String)>, i: int) -> int {
    s[i].0 - s[i - 1].0
}

/// The gap from entry `i` to entry `i + 1`.
pub open spec fn gap_after(s: Seq<(u64, String)>, i: int) -> int {
    s[i + 1].0 - s[i].0
}

/// The smaller of entry `i`'s two gaps.
pub open spec fn gap_lo(s: Seq<(u64, String)>, i: int) -> int {
    if gap_before(s, i) <= gap_after(s, i) {
        gap_before(s, i)
    } else {
        gap_after(s, i)
    }
}

/// The larger of entry `i`'s two gaps.
pub open spec fn gap_hi(s: Seq<(u64, String)>, i: int) -> int {
    if gap_before(s, i) <= gap_after(s, i) {
        gap_after(s, i)
    } else {
        gap_before(s, i)
    }
}

/// Entry `i`'s sorted gap pair is lexicographically strictly smaller
/// than entry `j`'s.
pub open spec fn tighter(s: Seq<(u64, String)>, i: int, j: int) -> bool {
    gap_lo(s, i) < gap_lo(s, j) || (gap_lo(s, i) == gap_lo(s, j) && gap_hi(s, i) < gap_hi(s, j))
}

/// The selected position among the interior entries `1 .. n`: the one
/// with the lexicographically smallest sorted gap pair, the earliest
/// on a tie.
pub open spec fn best_interior(s: Seq<(u64, String)>, n: int) -> int
    decreases n,
{
    if n <= 2 {
        1
    } else {
        let b = best_interior(s, n - 1);
        if tighter(s, n - 1, b) {
            n - 1
        } else {
            b
        }
    }
}

/// The selected position is interior: never 0, never the last entry.
pub proof fn lemma_endpoints_protected(s: Seq<(u64, String)>, n: int)
    requires
        2 <= n,
    ensures
        1 <= best_interior(s, n) <= n - 1,
    decreases n,
{
    if n > 2 {
        lemma_endpoints_protected(s, n - 1);
    }
}

/// What the selection means: no interior entry has a strictly smaller
/// key than the selected one, and every earlier interior entry has a
/// strictly larger key — ties fall to the earliest candidate.
pub proof fn lemma_best_interior_minimal(s: Seq<(u64, String)>, n: int)
    requires
        2 <= n,
    ensures
        forall|i: int| 1 <= i < n ==> !tighter(s, i, best_interior(s, n)),
        forall|i: int| 1 <= i < best_interior(s, n) ==> tighter(s, best_interior(s, n), i),
    decreases n,
{
    if n > 2 {
        lemma_best_interior_minimal(s, n - 1);
        lemma_endpoints_protected(s, n - 1);
        let b = best_interior(s, n - 1);
        let bn = best_interior(s, n);
        assert forall|i: int| 1 <= i < n implies !tighter(s, i, bn) by {
            if i < n - 1 {
                assert(!tighter(s, i, b));
            }
        }
        if tighter(s, n - 1, b) {
            assert forall|i: int| 1 <= i < bn implies tighter(s, bn, i) by {
                if i != b {
                    assert(!tighter(s, i, b));
                }
            }
        }
    }
}

impl BackupIndex {
    /// Picks the filename to evict, or nothing when the index holds at
    /// most one entry. With exactly two entries the older one is
    /// picked; otherwise the interior entry selected by the gap
    /// heuristic.
    pub fn select(&self) -> (r: Option<String>)
        requires
            self.wf(),
        ensures
            ({
                let s = self.entries@;
                &&& (s.len() <= 1 ==> r is None)
                &&& (s.len() == 2 ==> (r matches Some(n) && n@ == s[0].1@))
                &&& (s.len() >= 3 ==> (r matches Some(n) && n@ == s[best_interior(
                    s,
                    s.len() - 1,
                )].1@))
            }),
    {
        let len = self.entries.len();
        if len <= 1 {
            return None;
        }
        if len == 2 {
            return Some(self.entries[0].1.clone());
        }
        let ghost s = self.entries@;
        let mut b: usize = 1;
        let mut i: usize = 2;
        while i < len - 1
            invariant
                self.wf(),
                s == self.entries@,
                3 <= len == s.len(),
                2 <= i <= len - 1,
                1 <= b < i,
                b as int == best_interior(s, i as int),
            decreases len - i,
        {
            proof {
                assert(s[i - 1].0 < s[i as int].0);
                assert(s[i as int].0 < s[i + 1].0);
                assert(s[b - 1].0 < s[b as int].0);
                assert(s[b as int].0 < s[b + 1].0);
            }
            let gb_i = self.entries[i].0 - self.entries[i - 1].0;
            let ga_i = self.entries[i + 1].0 - self.entries[i].0;
            let (lo_i, hi_i) = if gb_i <= ga_i {
                (gb_i, ga_i)
            } else {
                (ga_i, gb_i)
            };
            let gb_b = self.entries[b].0 - self.entries[b - 1].0;
            let ga_b = self.entries[b + 1].0 - self.entries[b].0;
            let (lo_b, hi_b) = if gb_b <= ga_b {
                (gb_b, ga_b)
            } else {
                (ga_b, gb_b)
            };
            if lo_i < lo_b || (lo_i == lo_b && hi_i < hi_b) {
                b = i;
            }
            i += 1;
        }
        Some(self.entries[b].1.clone())
    }
}

} // verus!
