//! One refresh cycle, split around the network: `cycle_misses` says which
//! pilot identities still need an experience fetch, the caller performs those
//! fetches (concurrently, one per listed identity), and `run_cycle` folds the
//! successes into the cache, builds the new ranked rows, sorts them by
//! experience, and re-anchors the selection. A failed live fetch bypasses all
//! of this: the caller records it with `App::note_cycle_failure` and the
//! previous rows stay on screen.

use vstd::multiset::Multiset;
use vstd::prelude::*;

use crate::models::{Pilot, RankedPilot, RatingsData};
use crate::state::{reanchor, reanchor_spec, App};

verus! {

broadcast use vstd::seq_lib::group_to_multiset_ensures, vstd::multiset::group_multiset_axioms;

/// The identities of a pilot sequence, in order.
pub open spec fn cids(pilots: Seq<Pilot>) -> Seq<u64> {
    pilots.map_values(|p: Pilot| p.cid)
}

/// The experience fetches a cycle issues, walking `pilots` front to back with
/// the fetches `acc` already planned: one fetch per identity that is neither
/// cached nor already planned.
pub open spec fn misses_rec(
    cache: Map<u64, RatingsData>,
    pilots: Seq<Pilot>,
    acc: Seq<u64>,
) -> Seq<u64>
    decreases pilots.len(),
{
    if pilots.len() == 0 {
        acc
    } else {
        let cid = pilots[0].cid;
        let acc2 = if cache.contains_key(cid) || acc.contains(cid) {
            acc
        } else {
            acc.push(cid)
        };
        misses_rec(cache, pilots.drop_first(), acc2)
    }
}

/// The experience fetches a cycle issues for the in-range pilots `pilots`
/// against `cache`: the identities not yet cached, each once, in order of
/// first appearance.
pub open spec fn misses_spec(cache: Map<u64, RatingsData>, pilots: Seq<Pilot>) -> Seq<u64> {
    misses_rec(cache, pilots, Seq::empty())
}

/// The cache after folding in the fetched pairs, in order, later pairs
/// overwriting earlier ones.
pub open spec fn cache_after(
    cache: Map<u64, RatingsData>,
    fetched: Seq<(u64, RatingsData)>,
) -> Map<u64, RatingsData>
    decreases fetched.len(),
{
    if fetched.len() == 0 {
        cache
    } else {
        cache_after(cache.insert(fetched[0].0, fetched[0].1), fetched.drop_first())
    }
}

/// The rows of a cycle before sorting: the in-range pilots in their fetched
/// order, each paired with its cached statistic; a pilot without a cache
/// entry (its fetch failed this cycle) is dropped.
pub open spec fn ranked_spec(pilots: Seq<Pilot>, cache: Map<u64, RatingsData>) -> Seq<RankedPilot>
    decreases pilots.len(),
{
    if pilots.len() == 0 {
        Seq::empty()
    } else {
        let rest = ranked_spec(pilots.drop_first(), cache);
        if cache.contains_key(pilots[0].cid) {
            seq![RankedPilot { pilot: pilots[0], stat: cache[pilots[0].cid] }] + rest
        } else {
            rest
        }
    }
}

/// What a cycle's unsorted rows hold, exactly: every row pairs an in-range
/// pilot with that pilot's cached statistic, and every in-range pilot with a
/// cache entry gets a row; pilots without one (their fetch failed this
/// cycle) get none.
pub proof fn lemma_ranked_members(pilots: Seq<Pilot>, cache: Map<u64, RatingsData>)
    ensures
        ({
            let r = ranked_spec(pilots, cache);
            &&& forall|j: int|
                0 <= j < r.len() ==> cache.contains_key((#[trigger] r[j]).pilot.cid) && r[j].stat
                    == cache[r[j].pilot.cid] && pilots.contains(r[j].pilot)
            &&& forall|i: int|
                0 <= i < pilots.len() && cache.contains_key((#[trigger] pilots[i]).cid)
                    ==> r.contains(RankedPilot { pilot: pilots[i], stat: cache[pilots[i].cid] })
        }),
    decreases pilots.len(),
{
    if pilots.len() != 0 {
        let rest = pilots.drop_first();
        lemma_ranked_members(rest, cache);
        let r = ranked_spec(pilots, cache);
        let rrest = ranked_spec(rest, cache);
        let off: int = if cache.contains_key(pilots[0].cid) {
            1
        } else {
            0
        };
        assert forall|j: int| 0 <= j < r.len() implies cache.contains_key(
            (#[trigger] r[j]).pilot.cid,
        ) && r[j].stat == cache[r[j].pilot.cid] && pilots.contains(r[j].pilot) by {
            if off == 1 && j == 0 {
                assert(r[0].pilot == pilots[0]);
            } else {
                assert(r[j] == rrest[j - off]);
                let i0 = choose|i: int| 0 <= i < rest.len() && rest[i] == rrest[j - off].pilot;
                assert(pilots[i0 + 1] == rest[i0]);
            }
        }
        assert forall|i: int|
            0 <= i < pilots.len() && cache.contains_key((#[trigger] pilots[i]).cid) implies r
            .contains(RankedPilot { pilot: pilots[i], stat: cache[pilots[i].cid] }) by {
            if i == 0 {
                assert(r[0] == RankedPilot { pilot: pilots[0], stat: cache[pilots[0].cid] });
            } else {
                assert(rest[i - 1] == pilots[i]);
                let x = RankedPilot { pilot: pilots[i], stat: cache[pilots[i].cid] };
                assert(rrest.contains(x));
                let j0 = choose|j: int| 0 <= j < rrest.len() && rrest[j] == x;
                assert(r[j0 + off] == rrest[j0]);
            }
        }
    }
}

/// Row `a` sorts no later than row `b`: ascending by time flown as a pilot.
pub open spec fn experience_le(a: RankedPilot, b: RankedPilot) -> bool {
    a.stat.pilot <= b.stat.pilot
}

/// The rows are in ascending order of time flown as a pilot.
pub open spec fn experience_sorted(s: Seq<RankedPilot>) -> bool {
    forall|i: int, j: int|
        0 <= i < j < s.len() ==> experience_le(#[trigger] s[i], #[trigger] s[j])
}

proof fn lemma_misses_rec(cache: Map<u64, RatingsData>, pilots: Seq<Pilot>, acc: Seq<u64>)
    requires
        forall|k1: int, k2: int| 0 <= k1 < k2 < acc.len() ==> acc[k1] != acc[k2],
        forall|k: int| 0 <= k < acc.len() ==> !cache.contains_key(#[trigger] acc[k]),
    ensures
        ({
            let r = misses_rec(cache, pilots, acc);
            &&& acc.len() <= r.len()
            &&& forall|k: int| 0 <= k < acc.len() ==> r[k] == acc[k]
            &&& forall|k1: int, k2: int| 0 <= k1 < k2 < r.len() ==> r[k1] != r[k2]
            &&& forall|k: int|
                acc.len() <= k < r.len() ==> !cache.contains_key(#[trigger] r[k]) && cids(
                    pilots,
                ).contains(r[k])
            &&& forall|i: int|
                0 <= i < pilots.len() && !cache.contains_key(#[trigger] pilots[i].cid)
                    ==> r.contains(pilots[i].cid)
        }),
    decreases pilots.len(),
{
    let r = misses_rec(cache, pilots, acc);
    if pilots.len() == 0 {
    } else {
        let cid = pilots[0].cid;
        let rest = pilots.drop_first();
        let acc2 = if cache.contains_key(cid) || acc.contains(cid) {
            acc
        } else {
            acc.push(cid)
        };
        lemma_misses_rec(cache, rest, acc2);
        assert(cids(pilots)[0] == cid);
        assert(cids(rest) =~= cids(pilots).drop_first());
        assert forall|k: int|
            acc.len() <= k < r.len() implies !cache.contains_key(#[trigger] r[k]) && cids(
            pilots,
        ).contains(r[k]) by {
            if acc2.len() <= k {
                let i0 = choose|i: int| 0 <= i < cids(rest).len() && cids(rest)[i] == r[k];
                assert(cids(pilots)[i0 + 1] == r[k]);
            } else {
                assert(r[k] == cid);
                assert(cids(pilots)[0] == r[k]);
            }
        }
        assert forall|i: int|
            0 <= i < pilots.len() && !cache.contains_key(#[trigger] pilots[i].cid) implies r
            .contains(pilots[i].cid) by {
            if i == 0 {
                if acc.contains(cid) {
                    let k0 = choose|k: int| 0 <= k < acc.len() && acc[k] == cid;
                    assert(r[k0] == cid);
                } else {
                    assert(acc2[acc.len() as int] == cid);
                    assert(r[acc.len() as int] == cid);
                }
            } else {
                assert(rest[i - 1].cid == pilots[i].cid);
            }
        }
    }
}

/// What a cycle fetches, exactly: no identity twice, none that is already
/// cached, none that is not among the in-range pilots, and every in-range
/// identity that is not cached.
pub proof fn lemma_misses_exact(cache: Map<u64, RatingsData>, pilots: Seq<Pilot>)
    ensures
        ({
            let r = misses_spec(cache, pilots);
            &&& forall|k1: int, k2: int| 0 <= k1 < k2 < r.len() ==> r[k1] != r[k2]
            &&& forall|k: int|
                0 <= k < r.len() ==> !cache.contains_key(#[trigger] r[k]) && cids(
                    pilots,
                ).contains(r[k])
            &&& forall|i: int|
                0 <= i < pilots.len() && !cache.contains_key(#[trigger] pilots[i].cid)
                    ==> r.contains(pilots[i].cid)
        }),
{
    lemma_misses_rec(cache, pilots, Seq::empty());
}

proof fn lemma_misses_rec_all_cached(
    cache: Map<u64, RatingsData>,
    pilots: Seq<Pilot>,
    acc: Seq<u64>,
)
    requires
        forall|i: int| 0 <= i < pilots.len() ==> cache.contains_key(#[trigger] pilots[i].cid),
    ensures
        misses_rec(cache, pilots, acc) == acc,
    decreases pilots.len(),
{
    if pilots.len() != 0 {
        lemma_misses_rec_all_cached(cache, pilots.drop_first(), acc);
    }
}

/// A cycle over pilots that are all cached already issues no fetch at all.
pub proof fn lemma_cached_cycle_fetches_nothing(cache: Map<u64, RatingsData>, pilots: Seq<Pilot>)
    requires
        forall|i: int| 0 <= i < pilots.len() ==> cache.contains_key(#[trigger] pilots[i].cid),
    ensures
        misses_spec(cache, pilots) == Seq::<u64>::empty(),
{
    lemma_misses_rec_all_cached(cache, pilots, Seq::empty());
}

/// The cache after a cycle holds exactly the old entries and the fetched
/// ones.
pub proof fn lemma_cache_after_keys(cache: Map<u64, RatingsData>, fetched: Seq<(u64, RatingsData)>)
    ensures
        forall|k: u64| #![trigger cache_after(cache, fetched).contains_key(k)]
            cache_after(cache, fetched).contains_key(k) <==> (cache.contains_key(k) || exists|
                j: int,
            | 0 <= j < fetched.len() && (#[trigger] fetched[j]).0 == k),
    decreases fetched.len(),
{
    if fetched.len() != 0 {
        let cache2 = cache.insert(fetched[0].0, fetched[0].1);
        let rest = fetched.drop_first();
        lemma_cache_after_keys(cache2, rest);
        assert(cache_after(cache, fetched) == cache_after(cache2, rest));
        assert forall|k: u64| cache_after(cache, fetched).contains_key(k) implies (
        cache.contains_key(k) || exists|j: int|
            0 <= j < fetched.len() && (#[trigger] fetched[j]).0 == k) by {
            if !cache.contains_key(k) {
                assert(cache_after(cache2, rest).contains_key(k));
                if cache2.contains_key(k) {
                    assert(fetched[0].0 == k);
                } else {
                    let j0 = choose|j: int| 0 <= j < rest.len() && (#[trigger] rest[j]).0 == k;
                    assert(rest[j0] == fetched[j0 + 1]);
                    assert(fetched[j0 + 1].0 == k);
                }
            }
        }
        assert forall|k: u64|
            (cache.contains_key(k) || exists|j: int|
                0 <= j < fetched.len() && (#[trigger] fetched[j]).0 == k) implies cache_after(
            cache,
            fetched,
        ).contains_key(k) by {
            if !cache.contains_key(k) {
                let j0 = choose|j: int| 0 <= j < fetched.len() && (#[trigger] fetched[j]).0 == k;
                if j0 == 0 {
                    assert(cache2.contains_key(k));
                } else {
                    assert(rest[j0 - 1] == fetched[j0]);
                    assert(exists|j: int| 0 <= j < rest.len() && (#[trigger] rest[j]).0 == k);
                    assert(cache_after(cache2, rest).contains_key(k));
                }
            }
        }
    }
}

/// Running a cycle again over an unchanged pilot set issues zero experience
/// fetches: after one cycle whose fetches answered every miss, every
/// in-range identity is cached, so the next plan is empty.
pub proof fn lemma_repeat_cycle_fetches_nothing(
    cache: Map<u64, RatingsData>,
    pilots: Seq<Pilot>,
    fetched: Seq<(u64, RatingsData)>,
)
    requires
        forall|i: int|
            0 <= i < pilots.len() ==> cache.contains_key(#[trigger] pilots[i].cid) || exists|
                j: int,
            | 0 <= j < fetched.len() && (#[trigger] fetched[j]).0 == pilots[i].cid,
    ensures
        misses_spec(cache_after(cache, fetched), pilots) == Seq::<u64>::empty(),
{
    lemma_cache_after_keys(cache, fetched);
    lemma_cached_cycle_fetches_nothing(cache_after(cache, fetched), pilots);
}

fn vec_contains_u64(v: &Vec<u64>, x: u64) -> (r: bool)
    ensures
        r == v@.contains(x),
{
    let mut k: usize = 0;
    while k < v.len()
        invariant
            k <= v.len(),
            forall|t: int| 0 <= t < k ==> v@[t] != x,
        decreases v.len() - k,
    {
        if v[k] == x {
            return true;
        }
        k += 1;
    }
    false
}

/// Sort rows ascending by time flown as a pilot: the result is ordered and
/// holds exactly the given rows.
pub fn sort_by_experience(rows: Vec<RankedPilot>) -> (r: Vec<RankedPilot>)
    ensures
        experience_sorted(r@),
        r@.to_multiset() == rows@.to_multiset(),
{
    let ghost total = rows@.to_multiset();
    let mut remaining = rows;
    let mut out: Vec<RankedPilot> = Vec::new();
    proof {
        assert(out@.to_multiset().add(remaining@.to_multiset()) =~= total);
    }
    while remaining.len() > 0
        invariant
            experience_sorted(out@),
            out@.to_multiset().add(remaining@.to_multiset()) == total,
        decreases remaining.len(),
    {
        let ghost rem0 = remaining@;
        let x = remaining.remove(0);
        proof {
            assert(rem0.to_multiset().contains(x));
            assert(remaining@.to_multiset() =~= rem0.to_multiset().remove(x));
        }
        let mut j: usize = 0;
        while j < out.len() && out[j].stat.pilot <= x.stat.pilot
            invariant
                j <= out.len(),
                forall|k: int| 0 <= k < j ==> (#[trigger] out@[k]).stat.pilot <= x.stat.pilot,
            decreases out.len() - j,
        {
            j += 1;
        }
        let ghost out0 = out@;
        out.insert(j, x);
        proof {
            assert(out@ == out0.insert(j as int, x));
            assert(out@.to_multiset() =~= out0.to_multiset().insert(x));
            assert(out@.to_multiset().add(remaining@.to_multiset()) =~= total);
            assert forall|i1: int, i2: int|
                0 <= i1 < i2 < out@.len() implies experience_le(out@[i1], out@[i2]) by {
                assert(experience_sorted(out0));
                if i1 < j && i2 == j {
                    assert(out@[i1] == out0[i1]);
                } else if i1 == j && i2 > j {
                    assert(out@[i2] == out0[i2 - 1]);
                    assert(out0[j as int].stat.pilot > x.stat.pilot || j == out0.len());
                    assert(experience_le(out0[j as int], out0[i2 - 1]) || j as int == i2 - 1);
                } else if i1 < j && i2 > j {
                    assert(out@[i1] == out0[i1] && out@[i2] == out0[i2 - 1]);
                } else if i2 < j {
                    assert(out@[i1] == out0[i1] && out@[i2] == out0[i2]);
                } else {
                    assert(i1 > j);
                    assert(out@[i1] == out0[i1 - 1] && out@[i2] == out0[i2 - 1]);
                }
            }
        }
    }
    proof {
        assert(remaining@.to_multiset() =~= Multiset::<RankedPilot>::empty());
        assert(out@.to_multiset() =~= total);
    }
    out
}

impl App {
    /// Plan the experience fetches of a cycle: the identities of the
    /// in-range pilots that the cache does not hold, each once, in order of
    /// first appearance. These, and only these, go to the experience
    /// endpoint, concurrently; everyone else is a cache hit.
    pub fn cycle_misses(&self, in_range: &Vec<Pilot>) -> (misses: Vec<u64>)
        ensures
            misses@ == misses_spec(self.cache(), in_range@),
    {
        let mut acc: Vec<u64> = Vec::new();
        let mut i: usize = 0;
        proof {
            assert(in_range@.skip(0) =~= in_range@);
        }
        while i < in_range.len()
            invariant
                i <= in_range.len(),
                misses_rec(self.cache(), in_range@.skip(i as int), acc@) == misses_spec(
                    self.cache(),
                    in_range@,
                ),
            decreases in_range.len() - i,
        {
            let ghost pre = in_range@.skip(i as int);
            let cid = in_range[i].cid;
            let cached = self.pilot_time_cached(cid);
            let planned = vec_contains_u64(&acc, cid);
            proof {
                assert(pre[0] == in_range@[i as int]);
                assert(pre.drop_first() =~= in_range@.skip(i + 1));
            }
            if cached.is_none() && !planned {
                acc.push(cid);
            }
            i += 1;
        }
        proof {
            assert(in_range@.skip(in_range@.len() as int) =~= Seq::<Pilot>::empty());
        }
        acc
    }

    /// Fold one cycle's outcome into the state and produce the new rows:
    /// cache every fetched pair, pair each in-range pilot with its cached
    /// statistic (dropping those whose fetch failed), sort ascending by
    /// experience, and re-anchor the selection from the previous rows by
    /// pilot identity. A successful cycle also clears the failure note.
    pub fn run_cycle(
        &mut self,
        prev_rows: &Vec<RankedPilot>,
        in_range: Vec<Pilot>,
        fetched: Vec<(u64, RatingsData)>,
    ) -> (new_rows: Vec<RankedPilot>)
        ensures
            final(self).cache() == cache_after(old(self).cache(), fetched@),
            experience_sorted(new_rows@),
            new_rows@.to_multiset() == ranked_spec(
                in_range@,
                cache_after(old(self).cache(), fetched@),
            ).to_multiset(),
            crate::state::sel_agrees(
                final(self).sel(),
                reanchor_spec(old(self).sel(), prev_rows@, new_rows@),
            ),
            final(self).sel() matches Some(j) ==> j < new_rows@.len(),
            !final(self).failed(),
    {
        // Join step: every successfully fetched pair enters the cache.
        let mut i: usize = 0;
        proof {
            assert(fetched@.skip(0) =~= fetched@);
        }
        while i < fetched.len()
            invariant
                i <= fetched.len(),
                cache_after(self.cache(), fetched@.skip(i as int)) == cache_after(
                    old(self).cache(),
                    fetched@,
                ),
                self.sel() == old(self).sel(),
                self.failed() == old(self).failed(),
            decreases fetched.len() - i,
        {
            let ghost pre = fetched@.skip(i as int);
            let pair = fetched[i];
            proof {
                assert(pre[0] == fetched@[i as int]);
                assert(pre.drop_first() =~= fetched@.skip(i + 1));
            }
            self.update_pilot_time_cache(pair.0, &pair.1);
            i += 1;
        }
        proof {
            assert(fetched@.skip(fetched@.len() as int) =~= Seq::<(u64, RatingsData)>::empty());
        }
        let ghost m = self.cache();

        // Pair each in-range pilot with its statistic, in fetched order.
        let mut rest = in_range;
        let ghost all = rest@;
        let mut ranked: Vec<RankedPilot> = Vec::new();
        proof {
            assert(ranked@ + ranked_spec(rest@, m) =~= ranked_spec(all, m));
        }
        while rest.len() > 0
            invariant
                self.cache() == m,
                self.sel() == old(self).sel(),
                self.failed() == old(self).failed(),
                ranked@ + ranked_spec(rest@, m) == ranked_spec(all, m),
            decreases rest.len(),
        {
            let ghost rest0 = rest@;
            let p = rest.remove(0);
            proof {
                assert(rest@ =~= rest0.drop_first());
            }
            match self.pilot_time_cached(p.cid) {
                Some(stat) => {
                    let ghost ranked0 = ranked@;
                    ranked.push(RankedPilot { pilot: p, stat });
                    proof {
                        assert(ranked@ =~= ranked0 + seq![
                            RankedPilot { pilot: rest0[0], stat: m[rest0[0].cid] },
                        ]);
                        assert(ranked@ + ranked_spec(rest@, m) =~= ranked0 + ranked_spec(
                            rest0,
                            m,
                        ));
                    }
                },
                None => {
                    proof {
                        assert(ranked@ + ranked_spec(rest@, m) =~= ranked@ + ranked_spec(
                            rest0,
                            m,
                        ));
                    }
                },
            }
        }
        proof {
            assert(ranked_spec(rest@, m) =~= Seq::<RankedPilot>::empty());
            assert(ranked@ =~= ranked_spec(all, m));
        }

        // Sort ascending by experience and re-anchor the selection.
        let new_rows = sort_by_experience(ranked);
        let sel = reanchor(self.selected_index(), prev_rows, &new_rows);
        proof {
            crate::state::lemma_reanchor_properties(self.sel(), prev_rows@, new_rows@);
        }
        self.set_selection(sel);
        self.clear_cycle_failure();
        new_rows
    }
}

} // verus!
