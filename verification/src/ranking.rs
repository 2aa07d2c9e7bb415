//! Ranking the definitions of a schema: repeated passes give a rank, and a
//! layout, to every definition whose contents already have one. What is
//! left without a rank when a pass changes nothing lies on a cycle.

use crate::schema::TypeDef;
use crate::schema::tys_of;
use crate::types::{align_of, fields_layout, is_align, size_of, Layout, Ty};
use crate::validate::{
    acyclic, consistent, defs_fit, fits, fitted, is_ranking, laid, lemma_fits_local,
    lemma_fits_shallow, lemma_layout_local, lemma_ranked_stable, lemma_unique, ranked_below,
    ready, refs_defined, shape_ok,
};
use vstd::pervasive::VecAdditionalExecFns;
use vstd::prelude::*;

verus! {

/// How many of the first `n` ranks are still unset.
pub open spec fn count_unset(rank: Seq<usize>, unset: usize, n: nat) -> nat
    decreases n,
{
    if n == 0 || n > rank.len() {
        0
    } else {
        count_unset(rank, unset, (n - 1) as nat) + if rank[n - 1] == unset {
            1nat
        } else {
            0nat
        }
    }
}

/// Where no rank is set, all are counted.
pub proof fn lemma_count_all(rank: Seq<usize>, unset: usize, n: nat)
    requires
        n <= rank.len(),
        forall|k: int| 0 <= k < n ==> rank[k] == unset,
    ensures
        count_unset(rank, unset, n) == n,
    decreases n,
{
    if n > 0 {
        lemma_count_all(rank, unset, (n - 1) as nat);
    }
}

/// An unset rank is counted.
pub proof fn lemma_count_positive(rank: Seq<usize>, unset: usize, j: int, n: nat)
    requires
        0 <= j < n <= rank.len(),
        rank[j] == unset,
    ensures
        count_unset(rank, unset, n) >= 1,
    decreases n,
{
    if j < n - 1 {
        lemma_count_positive(rank, unset, j, (n - 1) as nat);
    }
}

/// Setting one rank takes one from the count.
pub proof fn lemma_count_update(rank: Seq<usize>, unset: usize, j: int, v: usize, n: nat)
    requires
        0 <= j < rank.len(),
        n <= rank.len(),
        rank[j] == unset,
        v != unset,
    ensures
        count_unset(rank.update(j, v), unset, n) + (if j < n {
            1nat
        } else {
            0nat
        }) == count_unset(rank, unset, n),
    decreases n,
{
    if n > 0 {
        lemma_count_update(rank, unset, j, v, (n - 1) as nat);
    }
}

/// Where some rank is unset, one can be named.
pub proof fn lemma_count_witness(rank: Seq<usize>, unset: usize, n: nat) -> (j: int)
    requires
        n <= rank.len(),
        count_unset(rank, unset, n) >= 1,
    ensures
        0 <= j < n,
        rank[j] == unset,
    decreases n,
{
    if rank[n - 1] == unset {
        n - 1
    } else {
        lemma_count_witness(rank, unset, (n - 1) as nat)
    }
}

/// A ranking below `hi` is one below `lo` where every rank below `hi` is
/// below `lo` too.
pub proof fn lemma_ranked_tighten(rank: Seq<usize>, hi: nat, lo: nat, ty: Ty)
    requires
        ranked_below(rank, hi, ty),
        forall|k: int| 0 <= k < rank.len() && rank[k] < hi ==> rank[k] < lo,
    ensures
        ranked_below(rank, lo, ty),
    decreases ty,
{
    match ty {
        Ty::Record(fields) => {
            assert forall|i: int| 0 <= i < fields@.len() implies ranked_below(
                rank,
                lo,
                (#[trigger] fields@[i]).ty,
            ) by {
                lemma_ranked_tighten(rank, hi, lo, fields@[i].ty);
            }
        },
        Ty::Variant(cases) => {
            assert forall|i: int| 0 <= i < cases@.len() implies match (
            #[trigger] cases@[i]).payload {
                Some(payload) => ranked_below(rank, lo, payload),
                None => true,
            } by {
                match cases@[i].payload {
                    Some(payload) => {
                        lemma_ranked_tighten(rank, hi, lo, payload);
                    },
                    None => {},
                }
            }
        },
        _ => {},
    }
}

/// A type of a good shape takes at least one byte where every definition
/// does.
pub proof fn lemma_size_positive(named: Seq<Layout>, ty: Ty)
    requires
        shape_ok(ty),
        refs_defined(named.len(), ty),
        forall|k: int| 0 <= k < named.len() ==> (#[trigger] named[k]).size >= 1,
    ensures
        size_of(named, ty) >= 1,
    decreases ty,
{
    match ty {
        Ty::Record(fields) => {
            let n = fields@.len();
            assert(shape_ok(fields@[n - 1].ty));
            assert(refs_defined(named.len(), fields@[n - 1].ty));
            lemma_size_positive(named, fields@[n - 1].ty);
            assert(fields_layout(named, fields@, n).size >= size_of(named, fields@[n - 1].ty));
        },
        _ => {},
    }
}

/// Among the types that `ty` refers to outside its lists, one that has no
/// rank yet, where `ty` is not ready; any ranking puts it below `ty`.
pub proof fn lemma_blocked_witness(rank: Seq<usize>, unset: usize, rho: Seq<usize>, m: nat, ty: Ty)
    -> (k: int)
    requires
        !ranked_below(rank, unset as nat, ty),
        ranked_below(rho, m, ty),
        rho.len() == rank.len(),
        refs_defined(rank.len(), ty),
        forall|q: int| 0 <= q < rank.len() ==> (#[trigger] rank[q]) <= unset,
    ensures
        0 <= k < rank.len(),
        rank[k] == unset,
        rho[k] < m,
    decreases ty,
{
    match ty {
        Ty::Record(fields) => {
            let i = choose|i: int|
                0 <= i < fields@.len() && !ranked_below(
                    rank,
                    unset as nat,
                    (#[trigger] fields@[i]).ty,
                );
            lemma_blocked_witness(rank, unset, rho, m, fields@[i].ty)
        },
        Ty::Variant(cases) => {
            let i = choose|i: int|
                0 <= i < cases@.len() && !(match (#[trigger] cases@[i]).payload {
                    Some(payload) => ranked_below(rank, unset as nat, payload),
                    None => true,
                });
            assert(match cases@[i].payload {
                Some(payload) => ranked_below(rho, m, payload) && refs_defined(rank.len(), payload),
                None => true,
            });
            lemma_blocked_witness(rank, unset, rho, m, cases@[i].payload->Some_0)
        },
        Ty::Ref(j) => j as int,
        _ => 0,
    }
}

/// Every definition without a rank waits for another without a rank.
pub open spec fn blocked(tys: Seq<Ty>, rank: Seq<usize>, unset: usize) -> bool {
    forall|q: int|
        0 <= q < tys.len() && #[trigger] rank[q] == unset ==> !ranked_below(
            rank,
            unset as nat,
            tys[q],
        )
}

/// Where the definitions without a rank all wait for one another, no
/// ranking of the definitions exists.
pub proof fn lemma_no_ranking(tys: Seq<Ty>, rank: Seq<usize>, unset: usize, rho: Seq<usize>, j: int)
    requires
        rank.len() == tys.len(),
        blocked(tys, rank, unset),
        forall|q: int| 0 <= q < tys.len() ==> refs_defined(tys.len(), #[trigger] tys[q]),
        forall|q: int| 0 <= q < rank.len() ==> (#[trigger] rank[q]) <= unset,
        0 <= j < tys.len(),
        rank[j] == unset,
    ensures
        !is_ranking(tys, rho),
    decreases
            if is_ranking(tys, rho) {
                rho[j] as nat
            } else {
                0nat
            },
{
    if is_ranking(tys, rho) {
        assert(ranked_below(rho, rho[j] as nat, tys[j]));
        let k = lemma_blocked_witness(rank, unset, rho, rho[j] as nat, tys[j]);
        lemma_no_ranking(tys, rank, unset, rho, k);
    }
}

/// What holds between two passes: ranks that are set are below the number
/// of ranks given out, each definition with a rank refers, outside its
/// lists, only to definitions ranked below it, and, unless an encoding was
/// too large, has the layout that its body gives.
pub open spec fn settled(
    tys: Seq<Ty>,
    rank: Seq<usize>,
    layouts: Seq<Layout>,
    remaining: nat,
    sound: bool,
) -> bool {
    let n = tys.len();
    &&& rank.len() == n
    &&& layouts.len() == n
    &&& n <= usize::MAX
    &&& remaining <= n
    &&& remaining == count_unset(rank, n as usize, n)
    &&& forall|k: int| 0 <= k < n ==> (#[trigger] rank[k]) <= n
    &&& forall|k: int|
        0 <= k < n && (#[trigger] rank[k]) < n ==> rank[k] < n - remaining && ranked_below(
            rank,
            rank[k] as nat,
            tys[k],
        )
    &&& forall|k: int|
        0 <= k < n ==> is_align((#[trigger] layouts[k]).align as nat) && layouts[k].size >= 1
    &&& sound ==> forall|k: int|
        0 <= k < n && (#[trigger] rank[k]) < n ==> layouts[k].size as nat == size_of(
            layouts,
            tys[k],
        ) && layouts[k].align as nat == align_of(layouts, tys[k])
    &&& !sound ==> !laid(tys)
}

/// Giving the next rank to a definition that is ready keeps what holds
/// between passes.
pub proof fn lemma_step(
    tys: Seq<Ty>,
    rank: Seq<usize>,
    layouts: Seq<Layout>,
    remaining: nat,
    sound: bool,
    j: int,
    fit: Option<Layout>,
)
    requires
        settled(tys, rank, layouts, remaining, sound),
        0 <= j < tys.len(),
        rank[j] == tys.len(),
        ranked_below(rank, tys.len(), tys[j]),
        refs_defined(tys.len(), tys[j]),
        shape_ok(tys[j]),
        is_align(align_of(layouts, tys[j])),
        fit matches Some(own) ==> own.size as nat == size_of(layouts, tys[j]) && own.align as nat
            == align_of(layouts, tys[j]),
        fit is None ==> !fits(layouts, tys[j], false),
    ensures
        remaining >= 1,
        settled(
            tys,
            rank.update(j, (tys.len() - remaining) as usize),
            match fit {
                Some(own) => layouts.update(j, own),
                None => layouts,
            },
            (remaining - 1) as nat,
            sound && fit is Some,
        ),
{
    let n = tys.len();
    lemma_count_positive(rank, n as usize, j, n);
    let a = (n - remaining) as usize;
    let rank2 = rank.update(j, a);
    let layouts2 = match fit {
        Some(own) => layouts.update(j, own),
        None => layouts,
    };
    lemma_count_update(rank, n as usize, j, a, n);
    lemma_ranked_tighten(rank, n, a as nat, tys[j]);
    lemma_ranked_stable(rank, rank2, a as nat, tys[j]);
    lemma_size_positive(layouts, tys[j]);
    assert forall|k: int| 0 <= k < n && (#[trigger] rank2[k]) < n implies rank2[k] < n - (remaining
        - 1) && ranked_below(rank2, rank2[k] as nat, tys[k]) by {
        if k != j {
            assert(rank[k] < n);
            lemma_ranked_stable(rank, rank2, rank[k] as nat, tys[k]);
        }
    }
    if sound && fit is None {
        assert forall|theirs: Seq<Layout>| !(consistent(tys, theirs) && defs_fit(tys, theirs)) by {
            if consistent(tys, theirs) && defs_fit(tys, theirs) {
                lemma_unique(tys, rank, n, layouts, theirs, a as nat);
                lemma_fits_local(layouts, theirs, rank, a as nat, tys[j]);
                lemma_fits_shallow(theirs, tys[j]);
            }
        }
    }
    if sound && fit is Some {
        assert forall|k: int| 0 <= k < n && (#[trigger] rank2[k]) < n implies layouts2[k].size as nat
            == size_of(layouts2, tys[k]) && layouts2[k].align as nat == align_of(
            layouts2,
            tys[k],
        ) by {
            if k != j {
                assert(rank[k] < n);
                lemma_layout_local(layouts, layouts2, rank, rank[k] as nat, tys[k]);
            } else {
                lemma_layout_local(layouts, layouts2, rank, a as nat, tys[j]);
            }
        }
    }
}

/// The outcome of ranking.
pub struct Ranked {
    pub rank: Vec<usize>,
    pub layouts: Vec<Layout>,
    /// Every definition has a rank.
    pub complete: bool,
    /// No encoding met so far was too large.
    pub sound: bool,
}

/// Ranks the definitions and lays them out.
#[verifier::loop_isolation(false)]
pub fn rank_defs(defs: &Vec<TypeDef>) -> (out: Ranked)
    requires
        forall|q: int|
            0 <= q < defs@.len() ==> refs_defined(defs@.len(), #[trigger] tys_of(defs@)[q])
                && shape_ok(tys_of(defs@)[q]),
    ensures
        out.complete == acyclic(tys_of(defs@)),
        out.rank@.len() == defs@.len(),
        out.layouts@.len() == defs@.len(),
        forall|k: int|
            0 <= k < defs@.len() ==> is_align((#[trigger] out.layouts@[k]).align as nat)
                && out.layouts@[k].size >= 1,
        out.complete ==> is_ranking(tys_of(defs@), out.rank@) && forall|k: int|
            0 <= k < defs@.len() ==> (#[trigger] out.rank@[k]) < defs@.len(),
        out.complete && out.sound ==> forall|k: int|
            0 <= k < defs@.len() ==> (#[trigger] out.layouts@[k]).size as nat == size_of(
                out.layouts@,
                tys_of(defs@)[k],
            ) && out.layouts@[k].align as nat == align_of(out.layouts@, tys_of(defs@)[k]),
        !out.sound ==> !laid(tys_of(defs@)),
{
    let n: usize = defs.len();
    let ghost tys = tys_of(defs@);
    let mut rank: Vec<usize> = Vec::new();
    let mut layouts: Vec<Layout> = Vec::new();
    let mut i: usize = 0;
    while i < n
        invariant
            i <= n,
            rank@.len() == i,
            layouts@.len() == i,
            forall|k: int| 0 <= k < i ==> rank@[k] == n,
            forall|k: int| 0 <= k < i ==> (#[trigger] layouts@[k]) == (Layout { size: 1, align: 1 }),
        decreases n - i,
    {
        rank.push(n);
        layouts.push(Layout { size: 1, align: 1 });
        i = i + 1;
    }
    proof {
        lemma_count_all(rank@, n, n as nat);
    }
    let mut remaining: usize = n;
    let mut sound: bool = true;
    let mut progress: bool = true;
    while progress && remaining > 0
        invariant
            settled(tys, rank@, layouts@, remaining as nat, sound),
            !progress ==> blocked(tys, rank@, n),
        decreases remaining, (if progress { 1nat } else { 0nat }),
    {
        progress = false;
        let ghost at_start = remaining;
        let mut j: usize = 0;
        while j < n
            invariant
                j <= n,
                settled(tys, rank@, layouts@, remaining as nat, sound),
                remaining <= at_start,
                progress == (remaining < at_start),
                !progress ==> forall|q: int|
                    0 <= q < j && #[trigger] rank@[q] == n ==> !ranked_below(
                        rank@,
                        n as nat,
                        tys[q],
                    ),
            decreases n - j,
        {
            if rank[j] == n {
                proof {
                    assert(refs_defined(n as nat, tys[j as int]) && shape_ok(tys[j as int]));
                }
                if ready(&defs[j].ty, &rank, n) {
                    let fit = fitted(&layouts, &defs[j].ty, false);
                    proof {
                        lemma_step(tys, rank@, layouts@, remaining as nat, sound, j as int, fit);
                    }
                    match fit {
                        Some(own) => {
                            layouts.set(j, own);
                        },
                        None => {
                            sound = false;
                        },
                    }
                    rank.set(j, n - remaining);
                    remaining = remaining - 1;
                    progress = true;
                }
            }
            j = j + 1;
        }
    }
    proof {
        if remaining > 0 {
            let j = lemma_count_witness(rank@, n, n as nat);
            assert forall|rho: Seq<usize>| !is_ranking(tys, rho) by {
                lemma_no_ranking(tys, rank@, n, rho, j);
            }
        } else {
            assert forall|k: int| 0 <= k < n implies (#[trigger] rank@[k]) < n by {
                if rank@[k] == n {
                    lemma_count_positive(rank@, n, k, n as nat);
                }
            }
            assert(is_ranking(tys, rank@));
            if sound {
                assert forall|k: int| 0 <= k < n implies (#[trigger] layouts@[k]).size as nat
                    == size_of(layouts@, tys[k]) && layouts@[k].align as nat == align_of(
                    layouts@,
                    tys[k],
                ) by {
                    assert(rank@[k] < n);
                }
            }
        }
    }
    Ranked { rank, layouts, complete: remaining == 0, sound }
}

} // verus!
