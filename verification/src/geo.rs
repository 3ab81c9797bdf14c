//! Geographic narrowing of the live pilot list. Great-circle distances are
//! computed by the caller (they are floating-point trigonometry) and handed
//! in alongside the pilots, in hundredths of a nautical mile; this module
//! owns the rule: a pilot is kept exactly when its distance to the airport is
//! strictly below the view radius, and the kept pilots stay in their original
//! order.

use vstd::prelude::*;

use crate::models::Pilot;

verus! {

/// The pilots within range: those whose paired distance is strictly below
/// `radius_cnm`, in their original order.
pub open spec fn filter_spec(pilots: Seq<Pilot>, dists: Seq<u64>, radius_cnm: u64) -> Seq<Pilot>
    decreases pilots.len(),
{
    if pilots.len() == 0 {
        Seq::empty()
    } else {
        let rest = filter_spec(pilots.drop_first(), dists.drop_first(), radius_cnm);
        if dists[0] < radius_cnm {
            seq![pilots[0]] + rest
        } else {
            rest
        }
    }
}

/// The geographic filter keeps no pilot whose distance reaches the radius,
/// and drops no pilot whose distance is strictly below it.
pub proof fn lemma_filter_exact(pilots: Seq<Pilot>, dists: Seq<u64>, radius_cnm: u64)
    requires
        dists.len() == pilots.len(),
    ensures
        ({
            let r = filter_spec(pilots, dists, radius_cnm);
            &&& forall|j: int|
                0 <= j < r.len() ==> exists|i: int|
                    0 <= i < pilots.len() && pilots[i] == #[trigger] r[j] && dists[i] < radius_cnm
            &&& forall|i: int|
                0 <= i < pilots.len() && dists[i] < radius_cnm ==> r.contains(#[trigger] pilots[i])
        }),
    decreases pilots.len(),
{
    if pilots.len() != 0 {
        let prest = pilots.drop_first();
        let drest = dists.drop_first();
        lemma_filter_exact(prest, drest, radius_cnm);
        let r = filter_spec(pilots, dists, radius_cnm);
        let rrest = filter_spec(prest, drest, radius_cnm);
        let off: int = if dists[0] < radius_cnm {
            1
        } else {
            0
        };
        assert forall|j: int| 0 <= j < r.len() implies exists|i: int|
            0 <= i < pilots.len() && pilots[i] == #[trigger] r[j] && dists[i] < radius_cnm by {
            if off == 1 && j == 0 {
                assert(pilots[0] == r[0] && dists[0] < radius_cnm);
            } else {
                assert(r[j] == rrest[j - off]);
                let i0 = choose|i: int|
                    0 <= i < prest.len() && prest[i] == rrest[j - off] && drest[i] < radius_cnm;
                assert(pilots[i0 + 1] == prest[i0] && dists[i0 + 1] == drest[i0]);
            }
        }
        assert forall|i: int|
            0 <= i < pilots.len() && dists[i] < radius_cnm implies r.contains(
            #[trigger] pilots[i],
        ) by {
            if i == 0 {
                assert(r[0] == pilots[0]);
            } else {
                assert(prest[i - 1] == pilots[i] && drest[i - 1] == dists[i]);
                assert(rrest.contains(pilots[i]));
                let j0 = choose|j: int| 0 <= j < rrest.len() && rrest[j] == pilots[i];
                assert(r[j0 + off] == rrest[j0]);
            }
        }
    }
}

/// Narrow `pilots` to those in range of the airport: pilot `k` is kept
/// exactly when `distances_cnm[k]`, its great-circle distance to the airport
/// in hundredths of a nautical mile, is strictly below `radius_cnm`. Keeps
/// the original order.
pub fn filter_pilot_distance(
    pilots: Vec<Pilot>,
    distances_cnm: &Vec<u64>,
    radius_cnm: u64,
) -> (r: Vec<Pilot>)
    requires
        distances_cnm@.len() == pilots@.len(),
    ensures
        r@ == filter_spec(pilots@, distances_cnm@, radius_cnm),
{
    let ghost all = pilots@;
    let ghost dall = distances_cnm@;
    let mut rest = pilots;
    let mut i: usize = 0;
    let mut kept: Vec<Pilot> = Vec::new();
    proof {
        assert(rest@ =~= all.skip(0));
        assert(dall.skip(0) =~= dall);
        assert(kept@ + filter_spec(all.skip(0), dall.skip(0), radius_cnm) =~= filter_spec(
            all,
            dall,
            radius_cnm,
        ));
    }
    while i < distances_cnm.len()
        invariant
            i + rest@.len() == all.len() == dall.len(),
            rest@ == all.skip(i as int),
            kept@ + filter_spec(all.skip(i as int), dall.skip(i as int), radius_cnm)
                == filter_spec(all, dall, radius_cnm),
            distances_cnm@ == dall,
        decreases rest.len(),
    {
        let ghost rest0 = rest@;
        let ghost kept0 = kept@;
        let p = rest.remove(0);
        let d = distances_cnm[i];
        proof {
            assert(rest@ =~= rest0.drop_first());
            assert(rest@ =~= all.skip(i + 1));
            assert(dall.skip(i as int)[0] == dall[i as int]);
            assert(dall.skip(i as int).drop_first() =~= dall.skip(i + 1));
        }
        if d < radius_cnm {
            kept.push(p);
            proof {
                assert(kept@ =~= kept0 + seq![rest0[0]]);
                assert(kept@ + filter_spec(all.skip(i + 1), dall.skip(i + 1), radius_cnm)
                    =~= kept0 + filter_spec(all.skip(i as int), dall.skip(i as int), radius_cnm));
            }
        } else {
            proof {
                assert(kept@ + filter_spec(all.skip(i + 1), dall.skip(i + 1), radius_cnm)
                    =~= kept0 + filter_spec(all.skip(i as int), dall.skip(i as int), radius_cnm));
            }
        }
        i += 1;
    }
    proof {
        assert(all.skip(all.len() as int) =~= Seq::<Pilot>::empty());
        assert(kept@ =~= filter_spec(all, dall, radius_cnm));
    }
    kept
}

} // verus!
