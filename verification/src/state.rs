//! Cross-cycle state: the per-pilot experience cache and the selected table
//! row. These are the only values that survive a refresh cycle. The selected
//! row is re-anchored by pilot identity after each refresh, so that the chosen
//! pilot stays highlighted even when the new result set is reordered.

use std::collections::HashMap;
use vstd::prelude::*;

use crate::models::{RankedPilot, RatingsData};

verus! {

broadcast use vstd::std_specs::hash::group_hash_axioms;

/// State of the interface: the selected row, the experience cache, and
/// whether the latest refresh cycle failed.
pub struct App {
    selected: Option<usize>,
    time_cache: HashMap<u64, RatingsData>,
    last_cycle_failed: bool,
}

/// Where the selection moves on a downward step over `row_count` rows:
/// one past the current row, wrapping from the last row to the first, and
/// landing on the first row when nothing was selected. With no rows there is
/// nothing to select.
pub open spec fn move_down_spec(sel: Option<usize>, row_count: usize) -> Option<usize> {
    if row_count == 0 {
        None
    } else {
        match sel {
            None => Some(0usize),
            Some(s) => if s + 1 >= row_count {
                Some(0usize)
            } else {
                Some((s + 1) as usize)
            },
        }
    }
}

/// Where the selection moves on an upward step over `row_count` rows:
/// one before the current row, wrapping from the first row to the last, and
/// landing on the last row when nothing was selected. With no rows there is
/// nothing to select.
pub open spec fn move_up_spec(sel: Option<usize>, row_count: usize) -> Option<usize> {
    if row_count == 0 {
        None
    } else {
        match sel {
            None => Some((row_count - 1) as usize),
            Some(s) => if s == 0 {
                Some((row_count - 1) as usize)
            } else {
                Some((s - 1) as usize)
            },
        }
    }
}

/// The index of the first row of `rows` whose pilot has identity `cid`, or
/// none when no row has it.
pub open spec fn index_of_cid(rows: Seq<RankedPilot>, cid: u64) -> Option<int>
    decreases rows.len(),
{
    if rows.len() == 0 {
        None
    } else if rows[0].pilot.cid == cid {
        Some(0int)
    } else {
        match index_of_cid(rows.drop_first(), cid) {
            None => None,
            Some(i) => Some(i + 1),
        }
    }
}

/// The executable selection `sel` agrees with the mathematical one
/// `target`: both absent, or the same index.
pub open spec fn sel_agrees(sel: Option<usize>, target: Option<int>) -> bool {
    match (sel, target) {
        (None, None) => true,
        (Some(s), Some(t)) => s == t,
        _ => false,
    }
}

/// Where the selection lands after the displayed rows change from `prev` to
/// `next`: nowhere if nothing was selected or the old index was out of range;
/// otherwise the first row of `next` with the previously selected pilot's
/// identity, and nowhere if that pilot is gone.
pub open spec fn reanchor_spec(
    prev_index: Option<usize>,
    prev: Seq<RankedPilot>,
    next: Seq<RankedPilot>,
) -> Option<int> {
    match prev_index {
        None => None,
        Some(i) => if i < prev.len() {
            index_of_cid(next, prev[i as int].pilot.cid)
        } else {
            None
        },
    }
}

/// What `index_of_cid` returns: a hit is in bounds, carries the identity
/// looked for, and is the first such row; a miss means no row carries it.
pub proof fn lemma_index_of_cid(rows: Seq<RankedPilot>, cid: u64)
    ensures
        match index_of_cid(rows, cid) {
            Some(i) => 0 <= i < rows.len() && rows[i].pilot.cid == cid && (forall|k: int|
                0 <= k < i ==> rows[k].pilot.cid != cid),
            None => forall|k: int| 0 <= k < rows.len() ==> rows[k].pilot.cid != cid,
        },
    decreases rows.len(),
{
    if rows.len() != 0 && rows[0].pilot.cid != cid {
        let rest = rows.drop_first();
        lemma_index_of_cid(rest, cid);
        match index_of_cid(rest, cid) {
            Some(i) => {
                assert(rest[i] == rows[i + 1]);
                assert forall|k: int| 0 <= k < i + 1 implies rows[k].pilot.cid != cid by {
                    if k >= 1 {
                        assert(rows[k] == rest[k - 1]);
                    }
                }
            },
            None => {
                assert forall|k: int| 0 <= k < rows.len() implies rows[k].pilot.cid != cid by {
                    if k >= 1 {
                        assert(rows[k] == rest[k - 1]);
                    }
                }
            },
        }
    }
}

/// The re-anchoring policy, stated as one law: a selection of nothing stays
/// nothing; a re-anchored selection points at the first row of the new
/// sequence with the previously selected pilot's identity; and when that
/// identity is absent from the new sequence the selection falls back to
/// nothing rather than pointing at an unrelated row.
pub proof fn lemma_reanchor_properties(
    prev_index: Option<usize>,
    prev: Seq<RankedPilot>,
    next: Seq<RankedPilot>,
)
    ensures
        prev_index is None ==> reanchor_spec(prev_index, prev, next) is None,
        reanchor_spec(prev_index, prev, next) matches Some(j) ==> {
            &&& 0 <= j < next.len()
            &&& prev_index matches Some(i) && i < prev.len() && next[j].pilot.cid
                == prev[i as int].pilot.cid
            &&& forall|k: int| 0 <= k < j ==> next[k].pilot.cid != next[j].pilot.cid
        },
        prev_index matches Some(i) && i < prev.len() && (forall|k: int|
            0 <= k < next.len() ==> next[k].pilot.cid != prev[i as int].pilot.cid)
            ==> reanchor_spec(prev_index, prev, next) is None,
{
    match prev_index {
        Some(i) => {
            if i < prev.len() {
                lemma_index_of_cid(next, prev[i as int].pilot.cid);
            }
        },
        None => {},
    }
}

/// Stepping through the rows wraps at both ends and never invents a
/// selection when there are no rows: moving down from the last row lands on
/// the first, moving up from the first lands on the last, and with zero rows
/// both moves leave the selection at nothing.
pub proof fn lemma_selection_wraps(row_count: usize)
    ensures
        row_count > 0 ==> move_down_spec(Some((row_count - 1) as usize), row_count)
            == Some(0usize),
        row_count > 0 ==> move_up_spec(Some(0usize), row_count) == Some(
            (row_count - 1) as usize,
        ),
        forall|sel: Option<usize>| #[trigger] move_down_spec(sel, 0) is None,
        forall|sel: Option<usize>| #[trigger] move_up_spec(sel, 0) is None,
{
}

/// Writing the cache is last-write-wins: after storing `v` under `cid` the
/// cache answers `v` for `cid`, and a second store of `v2` under the same
/// `cid` makes it answer `v2`.
pub proof fn lemma_cache_last_write_wins(
    m: Map<u64, RatingsData>,
    cid: u64,
    v: RatingsData,
    v2: RatingsData,
)
    ensures
        m.insert(cid, v).contains_key(cid),
        m.insert(cid, v)[cid] == v,
        m.insert(cid, v).insert(cid, v2)[cid] == v2,
{
}

impl App {
    /// The experience cache: pilot identity to last-known statistic.
    pub closed spec fn cache(&self) -> Map<u64, RatingsData> {
        self.time_cache@
    }

    /// The selected row of the currently displayed sequence, if any.
    pub closed spec fn sel(&self) -> Option<usize> {
        self.selected
    }

    /// Whether the latest refresh cycle failed.
    pub closed spec fn failed(&self) -> bool {
        self.last_cycle_failed
    }

    /// A fresh interface state: nothing cached, nothing selected, no
    /// failure to report.
    pub fn new() -> (app: App)
        ensures
            app.cache() == Map::<u64, RatingsData>::empty(),
            app.sel() is None,
            !app.failed(),
    {
        App { selected: None, time_cache: HashMap::new(), last_cycle_failed: false }
    }

    /// The selected row, for the renderer.
    pub fn selected_index(&self) -> (r: Option<usize>)
        ensures
            r == self.sel(),
    {
        self.selected
    }

    /// Whether the latest cycle failed, for the renderer's notification.
    pub fn cycle_failed(&self) -> (r: bool)
        ensures
            r == self.failed(),
    {
        self.last_cycle_failed
    }

    /// Drop the selection (the escape key).
    pub fn clear_selection(&mut self)
        ensures
            final(self).sel() is None,
            final(self).cache() == old(self).cache(),
            final(self).failed() == old(self).failed(),
    {
        self.selected = None;
    }

    pub(crate) fn set_selection(&mut self, sel: Option<usize>)
        ensures
            final(self).sel() == sel,
            final(self).cache() == old(self).cache(),
            final(self).failed() == old(self).failed(),
    {
        self.selected = sel;
    }

    pub(crate) fn clear_cycle_failure(&mut self)
        ensures
            final(self).sel() == old(self).sel(),
            final(self).cache() == old(self).cache(),
            !final(self).failed(),
    {
        self.last_cycle_failed = false;
    }

    /// Record that the live fetch of a cycle failed: the previously
    /// displayed data and the selection stay untouched, and the failure is
    /// noted for the renderer.
    pub fn note_cycle_failure(&mut self)
        ensures
            final(self).sel() == old(self).sel(),
            final(self).cache() == old(self).cache(),
            final(self).failed(),
    {
        self.last_cycle_failed = true;
    }

    /// Scroll down the table over `row_count` rows, wrapping at the bottom.
    pub fn down(&mut self, row_count: usize)
        ensures
            final(self).sel() == move_down_spec(old(self).sel(), row_count),
            final(self).cache() == old(self).cache(),
            final(self).failed() == old(self).failed(),
    {
        if row_count == 0 {
            self.selected = None;
        } else {
            match self.selected {
                Some(sel) => {
                    let next = if sel >= row_count - 1 {
                        0
                    } else {
                        sel + 1
                    };
                    self.selected = Some(next);
                },
                None => {
                    self.selected = Some(0);
                },
            }
        }
    }

    /// Scroll up the table over `row_count` rows, wrapping at the top.
    pub fn up(&mut self, row_count: usize)
        ensures
            final(self).sel() == move_up_spec(old(self).sel(), row_count),
            final(self).cache() == old(self).cache(),
            final(self).failed() == old(self).failed(),
    {
        if row_count == 0 {
            self.selected = None;
        } else {
            match self.selected {
                Some(sel) => {
                    let next = if sel == 0 {
                        row_count - 1
                    } else {
                        sel - 1
                    };
                    self.selected = Some(next);
                },
                None => {
                    self.selected = Some(row_count - 1);
                },
            }
        }
    }

    /// Look an experience statistic up in the cache. A pure read: no entry
    /// is added, dropped, or changed.
    pub fn pilot_time_cached(&self, cid: u64) -> (r: Option<RatingsData>)
        ensures
            r == if self.cache().contains_key(cid) {
                Some(self.cache()[cid])
            } else {
                None::<RatingsData>
            },
    {
        match self.time_cache.get(&cid) {
            Some(v) => Some(*v),
            None => None,
        }
    }

    /// Store an experience statistic, overwriting any entry for `cid`.
    pub fn update_pilot_time_cache(&mut self, cid: u64, ratings_data: &RatingsData)
        ensures
            final(self).cache() == old(self).cache().insert(cid, *ratings_data),
            final(self).sel() == old(self).sel(),
            final(self).failed() == old(self).failed(),
    {
        let _ = self.time_cache.insert(cid, *ratings_data);
    }
}

/// Re-derive the selected row after the displayed rows change from `prev` to
/// `next`: the first row of `next` with the previously selected pilot's
/// identity, or nothing if there was no valid selection or that pilot is
/// absent from `next`.
pub fn reanchor(
    prev_index: Option<usize>,
    prev: &Vec<RankedPilot>,
    next: &Vec<RankedPilot>,
) -> (r: Option<usize>)
    ensures
        sel_agrees(r, reanchor_spec(prev_index, prev@, next@)),
{
    match prev_index {
        None => None,
        Some(i) => {
            if i >= prev.len() {
                None
            } else {
                let cid = prev[i].pilot.cid;
                let mut j: usize = 0;
                while j < next.len()
                    invariant
                        prev_index == Some(i),
                        i < prev@.len(),
                        cid == prev@[i as int].pilot.cid,
                        j <= next.len(),
                        forall|k: int| 0 <= k < j ==> next@[k].pilot.cid != cid,
                    decreases next.len() - j,
                {
                    if next[j].pilot.cid == cid {
                        proof {
                            lemma_index_of_cid(next@, cid);
                        }
                        return Some(j);
                    }
                    j += 1;
                }
                proof {
                    lemma_index_of_cid(next@, cid);
                }
                None
            }
        },
    }
}

} // verus!
