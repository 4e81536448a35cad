//! The change of variable between a decomposition in `s` and one in `1/z`.
//!
//! A transfer function in `1/z` is decomposed by reversing and conjugating
//! its coefficients, decomposing the result as a function of `s`, and
//! mapping each term back: a pole `p` becomes `1/p`, and the residue of the
//! `m`-th power of that pole is rescaled by `(-1/p)^m`. The polynomial part
//! is reversed and conjugated in turn. The same steps, before instead of
//! after, lead from a decomposition back to a transfer function.

use vstd::prelude::*;
use crate::decompositions::cluster::{total_multiplicity, PoleCluster};
use crate::decompositions::residue::{
    is_decomposition,
    lemma_term_at,
    offset,
    replicated,
    terms_of,
    Decomposition,
    Residue,
};
use crate::quantities::complex::{lemma_conjugate, Complex};
use crate::quantities::roots::Roots;
use crate::quantities::scalar::Real;
use crate::systems::rpk::Rpk;
use crate::systems::tf::Tf;

verus! {

/// The coefficients in reverse order, each conjugated.
pub open spec fn reversed_conj(c: Seq<Complex>) -> Seq<Complex> {
    Seq::new(c.len(), |i: int| c[c.len() - 1 - i].conjugate())
}

pub fn reverse_conj(c: &Vec<Complex>) -> (r: Vec<Complex>)
    ensures
        r@ == reversed_conj(c@),
{
    let n: usize = c.len();
    let mut r: Vec<Complex> = Vec::new();
    let mut i: usize = 0;
    while i < n
        invariant
            i <= n,
            n == c.len(),
            r@ == reversed_conj(c@).take(i as int),
        decreases n - i,
    {
        r.push(c[n - 1 - i].conj());
        proof {
            assert(r@ =~= reversed_conj(c@).take(i + 1));
        }
        i += 1;
    }
    proof {
        assert(reversed_conj(c@).take(n as int) =~= reversed_conj(c@));
    }
    r
}

/// Reversing and conjugating twice gives the coefficients back.
pub proof fn lemma_reversed_conj_twice(c: Seq<Complex>)
    ensures
        reversed_conj(reversed_conj(c)) == c,
{
    assert forall|i: int| 0 <= i < c.len() implies reversed_conj(reversed_conj(c))[i] == c[i] by {
        lemma_conjugate(c[i]);
    }
    assert(reversed_conj(reversed_conj(c)) =~= c);
}

/// The place where the run of equal poles that reaches place `j` begins.
/// A pole continues a run if it equals, as a number, the pole that began it.
pub open spec fn run_start(poles: Seq<Complex>, j: int) -> int
    decreases j,
{
    if j <= 0 {
        0
    } else {
        let s = run_start(poles, j - 1);
        if poles[j].equal(poles[s]) {
            s
        } else {
            j
        }
    }
}

/// The position of pole `j` within its run, counted from one: the power of
/// the term that it stands in.
pub open spec fn run_order(poles: Seq<Complex>, j: int) -> int {
    j - run_start(poles, j) + 1
}

/// The position within its run of each pole.
pub open spec fn run_orders(poles: Seq<Complex>) -> Seq<usize> {
    Seq::new(poles.len(), |j: int| run_order(poles, j) as usize)
}

proof fn lemma_run_of_cluster(clusters: Seq<PoleCluster>, c: int, q: int)
    requires
        clusters.len() <= usize::MAX,
        forall|k: int| 0 <= k < clusters.len() ==> (#[trigger] clusters[k]).multiplicity >= 1,
        forall|k: int| 0 <= k < clusters.len() ==> (#[trigger] clusters[k]).pole.equal(clusters[k].pole),
        forall|k: int|
            0 <= k < clusters.len() - 1 ==> !(#[trigger] clusters[k]).pole.equal(clusters[k + 1].pole),
        0 <= c < clusters.len(),
        0 <= q < clusters[c].multiplicity,
    ensures
        run_start(replicated(clusters, clusters.len()), offset(clusters, c) + q) == offset(
            clusters,
            c,
        ),
    decreases c, q,
{
    let n = clusters.len();
    let poles = replicated(clusters, n);
    lemma_term_at(clusters, n, c, q);
    lemma_term_at(clusters, n, c, 0);
    if q > 0 {
        lemma_run_of_cluster(clusters, c, q - 1);
    } else if c > 0 {
        let last = clusters[c - 1].multiplicity - 1;
        lemma_run_of_cluster(clusters, c - 1, last);
        lemma_term_at(clusters, n, c - 1, 0);
        assert(offset(clusters, c) == offset(clusters, c - 1) + clusters[c - 1].multiplicity) by {
            assert(clusters.take(c).drop_last() =~= clusters.take(c - 1));
        }
        assert(!clusters[c - 1].pole.equal(clusters[c].pole));
    } else {
        assert(clusters.take(0) =~= Seq::empty());
    }
}

/// Where the poles are numbers and neighbouring clusters have different
/// poles, the power that the layout of the terms gives to a term is the
/// position of its pole within its run: a decomposition carries the powers
/// of its terms in the order of its poles alone.
pub proof fn lemma_orders_are_powers(clusters: Seq<PoleCluster>, c: int, q: int)
    requires
        clusters.len() <= usize::MAX,
        forall|k: int| 0 <= k < clusters.len() ==> (#[trigger] clusters[k]).multiplicity >= 1,
        forall|k: int| 0 <= k < clusters.len() ==> (#[trigger] clusters[k]).pole.equal(clusters[k].pole),
        forall|k: int|
            0 <= k < clusters.len() - 1 ==> !(#[trigger] clusters[k]).pole.equal(clusters[k + 1].pole),
        0 <= c < clusters.len(),
        0 <= q < clusters[c].multiplicity,
    ensures
        ({
            let t = offset(clusters, c) + q;
            &&& t < terms_of(clusters, clusters.len()).len()
            &&& terms_of(clusters, clusters.len())[t].cluster == c
            &&& run_order(replicated(clusters, clusters.len()), t) == terms_of(
                clusters,
                clusters.len(),
            )[t].power
        }),
{
    lemma_term_at(clusters, clusters.len(), c, q);
    lemma_run_of_cluster(clusters, c, q);
}

/// The clusters that the runs among the first `n` poles form: a pole that
/// starts a run starts a cluster, which it represents, and every other pole
/// adds one to the multiplicity of the cluster of its run.
pub open spec fn run_clusters(poles: Seq<Complex>, n: nat) -> Seq<PoleCluster>
    decreases n,
{
    if n == 0 {
        Seq::empty()
    } else {
        let before = run_clusters(poles, (n - 1) as nat);
        if run_start(poles, n - 1) == n - 1 {
            before.push(PoleCluster { root: (n - 1) as usize, pole: poles[n - 1], multiplicity: 1 })
        } else {
            before.update(
                before.len() - 1,
                PoleCluster {
                    root: before.last().root,
                    pole: before.last().pole,
                    multiplicity: (before.last().multiplicity + 1) as usize,
                },
            )
        }
    }
}

/// The runs of a list of poles make clusters that hold every pole once:
/// there is a cluster as soon as there is a pole, the last cluster is that
/// of the run that reaches the last pole, and the multiplicities add up to
/// the number of poles.
pub proof fn lemma_run_clusters(poles: Seq<Complex>, n: nat)
    requires
        n <= usize::MAX,
    ensures
        total_multiplicity(run_clusters(poles, n)) == n,
        run_clusters(poles, n).len() <= n,
        n > 0 ==> run_clusters(poles, n).len() > 0 && run_clusters(poles, n).last().root
            == run_start(poles, n - 1) && run_clusters(poles, n).last().multiplicity == run_order(
            poles,
            n - 1,
        ),
        forall|c: int|
            0 <= c < run_clusters(poles, n).len() ==> (#[trigger] run_clusters(
                poles,
                n,
            )[c]).multiplicity >= 1,
    decreases n,
{
    if n > 0 {
        lemma_run_clusters(poles, (n - 1) as nat);
        let before = run_clusters(poles, (n - 1) as nat);
        if run_start(poles, n - 1) == n - 1 {
            let x = PoleCluster { root: (n - 1) as usize, pole: poles[n - 1], multiplicity: 1 };
            assert(before.push(x).drop_last() =~= before);
            if n > 1 {
                lemma_bounds(poles, n - 1);
            }
        } else {
            let x = PoleCluster {
                root: before.last().root,
                pole: before.last().pole,
                multiplicity: (before.last().multiplicity + 1) as usize,
            };
            assert(before.update(before.len() - 1, x).drop_last() =~= before.drop_last());
            lemma_bounds(poles, n - 1);
        }
    }
}

proof fn lemma_bounds(poles: Seq<Complex>, j: int)
    requires
        0 <= j,
    ensures
        0 <= run_start(poles, j) <= j,
    decreases j,
{
    if j > 0 {
        lemma_bounds(poles, j - 1);
    }
}

/// The poles of a list of terms.
pub open spec fn poles_of(rp: Seq<(Complex, Complex)>) -> Seq<Complex> {
    Seq::new(rp.len(), |j: int| rp[j].1)
}

impl Tf {
    /// The transfer function with numerator and denominator each reversed
    /// and conjugated.
    pub fn reversed_conj(&self) -> (tf: Tf)
        ensures
            tf.b@ == reversed_conj(self.b@),
            tf.a@ == reversed_conj(self.a@),
    {
        Tf { b: reverse_conj(&self.b), a: reverse_conj(&self.a) }
    }
}

/// A system that can be decomposed into partial fractions in `1/z`.
pub trait ResidueZ {
    type Output;

    /// Decomposes the system as a function of `1/z`. `roots` holds the
    /// roots of its denominator with the coefficients reversed and
    /// conjugated, and `tol` the distance below which two roots are one pole.
    fn residuez(&self, roots: &Roots, tol: Option<Real>) -> Self::Output;
}

impl ResidueZ for Tf {
    type Output = Decomposition;

    /// Settles the structure of the decomposition: that of the transfer
    /// function with its coefficients reversed and conjugated, as a function
    /// of `s`. Its terms remain to be mapped to `1/z`, and its polynomial
    /// part to be reversed and conjugated in turn.
    fn residuez(&self, roots: &Roots, tol: Option<Real>) -> (d: Decomposition)
        ensures
            is_decomposition(reversed_conj(self.b@), reversed_conj(self.a@), *roots, tol, d),
    {
        self.reversed_conj().residue(roots, tol)
    }
}

impl Rpk {
    /// The power of each term: the position of its pole within the run of
    /// equal poles that it stands in.
    pub fn pole_orders(&self) -> (orders: Vec<usize>)
        ensures
            orders@ == run_orders(poles_of(self.rp@)),
    {
        let n: usize = self.rp.len();
        let ghost poles = poles_of(self.rp@);
        let mut orders: Vec<usize> = Vec::new();
        let mut start: usize = 0;
        let mut j: usize = 0;
        while j < n
            invariant
                j <= n,
                n == self.rp.len(),
                poles == poles_of(self.rp@),
                j > 0 ==> start == run_start(poles, j - 1),
                j == 0 ==> start == 0,
                start <= j,
                orders@ == run_orders(poles).take(j as int),
            decreases n - j,
        {
            if j > 0 && !self.rp[j].1.eq_value(self.rp[start].1) {
                start = j;
            }
            proof {
                assert(start == run_start(poles, j as int));
            }
            orders.push(j - start + 1);
            proof {
                assert(orders@ =~= run_orders(poles).take(j + 1));
            }
            j += 1;
        }
        proof {
            assert(run_orders(poles).take(n as int) =~= run_orders(poles));
        }
        orders
    }

    /// The poles with their multiplicities: one cluster for each run of
    /// equal poles, represented by the pole that starts the run.
    pub fn pole_clusters(&self) -> (clusters: Vec<PoleCluster>)
        ensures
            clusters@ == run_clusters(poles_of(self.rp@), self.rp.len() as nat),
    {
        let n: usize = self.rp.len();
        let ghost poles = poles_of(self.rp@);
        let mut clusters: Vec<PoleCluster> = Vec::new();
        let mut start: usize = 0;
        let mut j: usize = 0;
        while j < n
            invariant
                j <= n,
                n == self.rp.len(),
                poles == poles_of(self.rp@),
                j > 0 ==> start == run_start(poles, j - 1),
                j == 0 ==> start == 0,
                start <= j,
                clusters@ == run_clusters(poles, j as nat),
            decreases n - j,
        {
            proof {
                lemma_run_clusters(poles, j as nat);
            }
            let pole = self.rp[j].1;
            if j > 0 && pole.eq_value(self.rp[start].1) {
                let last: usize = clusters.len() - 1;
                let found = clusters[last];
                clusters.set(
                    last,
                    PoleCluster {
                        root: found.root,
                        pole: found.pole,
                        multiplicity: found.multiplicity + 1,
                    },
                );
            } else {
                start = j;
                clusters.push(PoleCluster { root: j, pole, multiplicity: 1 });
            }
            j += 1;
        }
        clusters
    }

    /// The decomposition in the other variable: the terms are replaced by
    /// `terms`, which the caller has mapped one by one, and the polynomial
    /// part is reversed and conjugated.
    pub fn change_variable(&self, terms: Vec<(Complex, Complex)>) -> (rpk: Rpk)
        ensures
            rpk.rp@ == terms@,
            rpk.k@ == reversed_conj(self.k@),
    {
        Rpk { rp: terms, k: reverse_conj(&self.k) }
    }
}

} // verus!
