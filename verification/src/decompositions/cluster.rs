//! Clustering of roots into poles with multiplicities.
//!
//! A root finder returns a repeated root as several roots that differ by
//! rounding. Roots that lie within a tolerance of one another are taken for
//! one pole, and their number for its multiplicity.

use vstd::prelude::*;
use crate::quantities::complex::Complex;
use crate::quantities::roots::{lemma_roots, Roots};
use crate::quantities::scalar::Real;

verus! {

/// A pole: the root that represents it, by its position among the roots
/// and by its value, and the number of roots that were merged into it.
#[derive(Clone, Copy, Debug, PartialEq, Eq, Structural)]
pub struct PoleCluster {
    pub root: usize,
    pub pole: Complex,
    pub multiplicity: usize,
}

/// The distance up to which two roots are taken for one: roots closer
/// than `bound` are, and roots exactly `bound` apart are if `inclusive`
/// is set.
#[derive(Clone, Copy, Debug, PartialEq, Eq, Structural)]
pub struct Tolerance {
    pub bound: Real,
    pub inclusive: bool,
}

/// The bit pattern of the default tolerance, one thousandth.
pub const DEFAULT_TOLERANCE_BITS: u64 = 0x3f50_624d_d2f1_a9fc;

/// The tolerance in force for a decomposition: the magnitude of the one
/// given, else the default; roots that are exactly as far apart stay apart.
pub open spec fn spec_tolerance(tol: Option<Real>) -> Tolerance {
    Tolerance {
        bound: match tol {
            Some(t) => t.absolute(),
            None => Real { bits: DEFAULT_TOLERANCE_BITS },
        },
        inclusive: false,
    }
}

pub fn tolerance(tol: Option<Real>) -> (t: Tolerance)
    ensures
        t == spec_tolerance(tol),
{
    Tolerance {
        bound: match tol {
            Some(t) => t.abs(),
            None => Real { bits: DEFAULT_TOLERANCE_BITS },
        },
        inclusive: false,
    }
}

/// Whether root `i` lies within the tolerance of root `j`.
pub open spec fn near(roots: Roots, tol: Tolerance, i: int, j: int) -> bool {
    roots.gap(i, j).less(tol.bound) || (tol.inclusive && roots.gap(i, j).equal(tol.bound))
}

impl Tolerance {
    /// Whether two roots at the distance `gap` are taken for one.
    pub fn admits(&self, gap: Real) -> (r: bool)
        ensures
            r == (gap.less(self.bound) || (self.inclusive && gap.equal(self.bound))),
    {
        gap.lt(self.bound) || (self.inclusive && gap.eq_value(self.bound))
    }
}

/// The position, at or after `from`, of the first cluster whose
/// representative root `i` is near to; the number of clusters if there is none.
pub open spec fn first_near(
    roots: Roots,
    tol: Tolerance,
    clusters: Seq<PoleCluster>,
    i: int,
    from: int,
) -> int
    decreases clusters.len() - from,
{
    if from >= clusters.len() {
        clusters.len() as int
    } else if near(roots, tol, i, clusters[from].root as int) {
        from
    } else {
        first_near(roots, tol, clusters, i, from + 1)
    }
}

/// The clusters after root `i` has been taken in: it joins the first
/// cluster that it is near to, or else starts a cluster of its own.
pub open spec fn absorb(roots: Roots, tol: Tolerance, clusters: Seq<PoleCluster>, i: int) -> Seq<
    PoleCluster,
> {
    let c = first_near(roots, tol, clusters, i, 0);
    if c < clusters.len() {
        clusters.update(
            c,
            PoleCluster {
                root: clusters[c].root,
                pole: clusters[c].pole,
                multiplicity: (clusters[c].multiplicity + 1) as usize,
            },
        )
    } else {
        clusters.push(PoleCluster { root: i as usize, pole: roots.value(i), multiplicity: 1 })
    }
}

/// The clusters that the first `n` roots form, taken in one by one.
pub open spec fn clusters_of(roots: Roots, tol: Tolerance, n: nat) -> Seq<PoleCluster>
    decreases n,
{
    if n == 0 {
        Seq::empty()
    } else {
        absorb(roots, tol, clusters_of(roots, tol, (n - 1) as nat), n - 1)
    }
}

/// The sum of the multiplicities.
pub open spec fn total_multiplicity(clusters: Seq<PoleCluster>) -> nat
    decreases clusters.len(),
{
    if clusters.len() == 0 {
        0
    } else {
        total_multiplicity(clusters.drop_last()) + clusters.last().multiplicity as nat
    }
}

/// What holds of every list of clusters made from the first `n` roots:
/// each cluster has at least one member, its representative is one of the
/// roots, and the representatives come in the order of the roots.
pub open spec fn well_clustered(roots: Roots, clusters: Seq<PoleCluster>, n: nat) -> bool {
    &&& forall|c: int|
        0 <= c < clusters.len() ==> {
            &&& (#[trigger] clusters[c]).multiplicity >= 1
            &&& clusters[c].root < n
            &&& clusters[c].pole == roots.value(clusters[c].root as int)
        }
    &&& forall|a: int, b: int|
        0 <= a < b < clusters.len() ==> (#[trigger] clusters[a]).root < (#[trigger] clusters[b]).root
}

proof fn lemma_first_near(
    roots: Roots,
    tol: Tolerance,
    clusters: Seq<PoleCluster>,
    i: int,
    from: int,
    c: int,
)
    requires
        0 <= from <= c <= clusters.len(),
        forall|d: int| from <= d < c ==> !near(roots, tol, i, (#[trigger] clusters[d]).root as int),
        c < clusters.len() ==> near(roots, tol, i, clusters[c].root as int),
    ensures
        first_near(roots, tol, clusters, i, from) == c,
    decreases c - from,
{
    if from < c {
        assert(!near(roots, tol, i, clusters[from].root as int));
        lemma_first_near(roots, tol, clusters, i, from + 1, c);
    }
}

proof fn lemma_first_near_range(roots: Roots, tol: Tolerance, clusters: Seq<PoleCluster>, i: int, from: int)
    requires
        0 <= from <= clusters.len(),
    ensures
        from <= first_near(roots, tol, clusters, i, from) <= clusters.len(),
        first_near(roots, tol, clusters, i, from) < clusters.len() ==> near(
            roots,
            tol,
            i,
            clusters[first_near(roots, tol, clusters, i, from)].root as int,
        ),
        forall|d: int|
            from <= d < first_near(roots, tol, clusters, i, from) ==> !near(
                roots,
                tol,
                i,
                (#[trigger] clusters[d]).root as int,
            ),
    decreases clusters.len() - from,
{
    if from < clusters.len() && !near(roots, tol, i, clusters[from].root as int) {
        lemma_first_near_range(roots, tol, clusters, i, from + 1);
    }
}

proof fn lemma_total_push(clusters: Seq<PoleCluster>, x: PoleCluster)
    ensures
        total_multiplicity(clusters.push(x)) == total_multiplicity(clusters) + x.multiplicity,
{
    assert(clusters.push(x).drop_last() =~= clusters);
}

proof fn lemma_total_update(clusters: Seq<PoleCluster>, c: int, x: PoleCluster)
    requires
        0 <= c < clusters.len(),
    ensures
        total_multiplicity(clusters.update(c, x)) == total_multiplicity(clusters)
            - clusters[c].multiplicity + x.multiplicity,
        clusters[c].multiplicity <= total_multiplicity(clusters),
    decreases clusters.len(),
{
    if c == clusters.len() - 1 {
        assert(clusters.update(c, x).drop_last() =~= clusters.drop_last());
    } else {
        lemma_total_update(clusters.drop_last(), c, x);
        assert(clusters.update(c, x).drop_last() =~= clusters.drop_last().update(c, x));
    }
}

/// Every root is counted in exactly one cluster, and the clusters are
/// well formed.
pub proof fn lemma_clusters(roots: Roots, tol: Tolerance, n: nat)
    requires
        n <= roots.count(),
    ensures
        total_multiplicity(clusters_of(roots, tol, n)) == n,
        well_clustered(roots, clusters_of(roots, tol, n), n),
        clusters_of(roots, tol, n).len() <= n,
    decreases n,
{
    lemma_roots(roots);
    if n > 0 {
        let before = clusters_of(roots, tol, (n - 1) as nat);
        lemma_clusters(roots, tol, (n - 1) as nat);
        let c = first_near(roots, tol, before, n - 1, 0);
        lemma_first_near_range(roots, tol, before, n - 1, 0);
        if c < before.len() {
            let x = PoleCluster {
                root: before[c].root,
                pole: before[c].pole,
                multiplicity: (before[c].multiplicity + 1) as usize,
            };
            lemma_total_update(before, c, x);
        } else {
            lemma_total_push(
                before,
                PoleCluster { root: (n - 1) as usize, pole: roots.value(n - 1), multiplicity: 1 },
            );
        }
    }
}

/// Roots that all lie within the tolerance of the first one form a single
/// pole, whose multiplicity is their number.
pub proof fn lemma_single_cluster(roots: Roots, tol: Tolerance, n: nat)
    requires
        1 <= n <= roots.count(),
        forall|i: int| 1 <= i < n ==> near(roots, tol, i, 0),
    ensures
        clusters_of(roots, tol, n) == seq![
            PoleCluster { root: 0, pole: roots.value(0), multiplicity: n as usize },
        ],
    decreases n,
{
    lemma_roots(roots);
    if n == 1 {
        assert(clusters_of(roots, tol, 0) =~= Seq::empty());
        assert(clusters_of(roots, tol, 1) =~= seq![
            PoleCluster { root: 0, pole: roots.value(0), multiplicity: 1 },
        ]);
    } else {
        lemma_single_cluster(roots, tol, (n - 1) as nat);
        let before = clusters_of(roots, tol, (n - 1) as nat);
        assert(near(roots, tol, n - 1, before[0].root as int));
        assert(clusters_of(roots, tol, n) =~= seq![
            PoleCluster { root: 0, pole: roots.value(0), multiplicity: n as usize },
        ]);
    }
}

/// Roots of which no two lie within the tolerance of one another are
/// poles of multiplicity one each, in the order of the roots.
pub proof fn lemma_simple_poles(roots: Roots, tol: Tolerance, n: nat)
    requires
        n <= roots.count(),
        forall|i: int, j: int| 0 <= j < i < n ==> !near(roots, tol, i, j),
    ensures
        clusters_of(roots, tol, n) == Seq::new(
            n,
            |i: int| PoleCluster { root: i as usize, pole: roots.value(i), multiplicity: 1 },
        ),
    decreases n,
{
    lemma_roots(roots);
    if n == 0 {
        assert(clusters_of(roots, tol, 0) =~= Seq::new(
            0,
            |i: int| PoleCluster { root: i as usize, pole: roots.value(i), multiplicity: 1 },
        ));
    } else {
        lemma_simple_poles(roots, tol, (n - 1) as nat);
        let before = clusters_of(roots, tol, (n - 1) as nat);
        assert forall|d: int| 0 <= d < before.len() implies !near(
            roots,
            tol,
            n - 1,
            (#[trigger] before[d]).root as int,
        ) by {
            assert(before[d].root == d);
        }
        lemma_first_near(roots, tol, before, n - 1, 0, before.len() as int);
        assert(clusters_of(roots, tol, n) =~= Seq::new(
            n,
            |i: int| PoleCluster { root: i as usize, pole: roots.value(i), multiplicity: 1 },
        ));
    }
}

/// Groups the roots into clusters. The roots are taken in order; each joins
/// the first cluster whose representative lies within `tol` of it, and a
/// root that is near to none starts a new cluster, which it represents.
pub fn cluster_poles(roots: &Roots, tol: Tolerance) -> (clusters: Vec<PoleCluster>)
    ensures
        clusters@ == clusters_of(*roots, tol, roots.count()),
{
    let n: usize = roots.len();
    let mut clusters: Vec<PoleCluster> = Vec::new();
    let mut i: usize = 0;
    while i < n
        invariant
            i <= n,
            n == roots.count(),
            clusters@ == clusters_of(*roots, tol, i as nat),
        decreases n - i,
    {
        proof {
            lemma_clusters(*roots, tol, i as nat);
        }
        let mut c: usize = 0;
        while c < clusters.len() && !tol.admits(roots.distance(i, clusters[c].root))
            invariant
                c <= clusters.len(),
                i < n,
                n == roots.count(),
                well_clustered(*roots, clusters@, i as nat),
                forall|d: int|
                    0 <= d < c ==> !near(*roots, tol, i as int, (#[trigger] clusters[d]).root as int),
            decreases clusters.len() - c,
        {
            c += 1;
        }
        proof {
            lemma_first_near(*roots, tol, clusters@, i as int, 0, c as int);
        }
        if c < clusters.len() {
            let found = clusters[c];
            proof {
                lemma_total_update(clusters@, c as int, found);
            }
            clusters.set(
                c,
                PoleCluster {
                    root: found.root,
                    pole: found.pole,
                    multiplicity: found.multiplicity + 1,
                },
            );
        } else {
            clusters.push(PoleCluster { root: i, pole: roots.get(i), multiplicity: 1 });
        }
        i += 1;
    }
    clusters
}

} // verus!
