//! Partial-fraction decomposition of a transfer function.
//!
//! `B / A` is written as a polynomial `K` plus one term
//! `r / (s - p)^m` for each pole `p` of `A` and each power `m` up to its
//! multiplicity. The poles are the roots of `A`, clustered and then ordered
//! by squared magnitude. What is settled here is the structure of the sum;
//! the residues themselves come from rounded polynomial arithmetic.

use vstd::prelude::*;
use crate::decompositions::cluster::{
    cluster_poles,
    clusters_of,
    lemma_clusters,
    lemma_single_cluster,
    near,
    total_multiplicity,
    spec_tolerance,
    tolerance,
    PoleCluster,
    Tolerance,
};
use crate::quantities::complex::Complex;
use crate::quantities::order::{
    is_permutation,
    is_stable_order,
    lemma_permutation_shrinks,
    lemma_stable_order_permutes,
    lemma_stable_order_unique,
    listed,
    permuted,
    stable_order,
};
use crate::quantities::roots::{lemma_roots, Roots};
use crate::quantities::scalar::{Real, ONE_BITS};
use crate::systems::rpk::Rpk;
use crate::systems::tf::{leading_zeros, lemma_trimmed, trimmed, Tf};

verus! {

/// One term of the sum: `residue / (s - pole)^power`, the pole being that of
/// `cluster`.
///
/// The residues of a repeated pole are obtained one after the other, that of
/// the highest power first; `step` counts from zero the place of this term's
/// residue among them.
#[derive(Clone, Copy, Debug, PartialEq, Eq, Structural)]
pub struct Term {
    pub cluster: usize,
    pub power: usize,
    pub step: usize,
}

/// Whether every coefficient is zero. The empty polynomial is zero.
pub open spec fn zero_polynomial(c: Seq<Complex>) -> bool {
    forall|i: int| 0 <= i < c.len() ==> (#[trigger] c[i]).zero()
}

pub fn is_zero_polynomial(c: &Vec<Complex>) -> (r: bool)
    ensures
        r == zero_polynomial(c@),
{
    let mut i: usize = 0;
    while i < c.len()
        invariant
            i <= c.len(),
            forall|k: int| 0 <= k < i ==> (#[trigger] c[k]).zero(),
        decreases c.len() - i,
    {
        if !c[i].is_zero() {
            return false;
        }
        i += 1;
    }
    true
}

/// The number of coefficients of the quotient of a numerator with `b`
/// coefficients by a denominator with `a`: none if the numerator is the
/// shorter, else one more than the difference of the degrees.
pub open spec fn quotient_len(b: nat, a: nat) -> nat {
    if b < a {
        0
    } else {
        (b - a + 1) as nat
    }
}

/// The squared magnitude of each cluster's representative.
pub open spec fn cluster_keys(roots: Roots, clusters: Seq<PoleCluster>) -> Seq<Real> {
    Seq::new(clusters.len(), |c: int| roots.norm(clusters[c].root as int))
}

/// The terms of one pole, by rising power.
pub open spec fn term_block(cluster: int, multiplicity: nat) -> Seq<Term> {
    Seq::new(
        multiplicity,
        |q: int|
            Term {
                cluster: cluster as usize,
                power: (q + 1) as usize,
                step: (multiplicity - 1 - q) as usize,
            },
    )
}

/// The terms of the first `n` clusters: cluster after cluster, and within a
/// cluster by rising power.
pub open spec fn terms_of(clusters: Seq<PoleCluster>, n: nat) -> Seq<Term>
    decreases n,
{
    if n == 0 {
        Seq::empty()
    } else {
        terms_of(clusters, (n - 1) as nat) + term_block(
            n - 1,
            clusters[n - 1].multiplicity as nat,
        )
    }
}

/// Lays out the terms of the sum for the clusters given.
pub fn partial_fraction_terms(clusters: &Vec<PoleCluster>) -> (terms: Vec<Term>)
    ensures
        terms@ == terms_of(clusters@, clusters.len() as nat),
{
    let mut terms: Vec<Term> = Vec::new();
    let mut c: usize = 0;
    while c < clusters.len()
        invariant
            c <= clusters.len(),
            terms@ == terms_of(clusters@, c as nat),
        decreases clusters.len() - c,
    {
        let m: usize = clusters[c].multiplicity;
        let ghost start = terms@;
        let mut q: usize = 0;
        while q < m
            invariant
                q <= m,
                c < clusters.len(),
                m == clusters[c as int].multiplicity,
                terms@ == start + term_block(c as int, m as nat).take(q as int),
            decreases m - q,
        {
            terms.push(Term { cluster: c, power: q + 1, step: m - 1 - q });
            proof {
                assert(terms@ =~= start + term_block(c as int, m as nat).take(q + 1));
            }
            q += 1;
        }
        proof {
            assert(term_block(c as int, m as nat).take(m as int) =~= term_block(c as int, m as nat));
        }
        c += 1;
    }
    terms
}

/// Whether `sorted` holds the clusters `found` by rising squared
/// magnitude of their representatives, in the total order, clusters of equal
/// squared magnitude in the order in which they were found.
pub open spec fn is_sorted_by_norm(roots: Roots, found: Seq<PoleCluster>, sorted: Seq<PoleCluster>) -> bool {
    exists|order: Seq<usize>| #[trigger]
        is_stable_order(cluster_keys(roots, found), order) && sorted == permuted(found, order)
}

/// Clusters can be sorted by squared magnitude in one way only.
pub proof fn lemma_sorted_by_norm_unique(
    roots: Roots,
    found: Seq<PoleCluster>,
    first: Seq<PoleCluster>,
    second: Seq<PoleCluster>,
)
    requires
        is_sorted_by_norm(roots, found, first),
        is_sorted_by_norm(roots, found, second),
    ensures
        first == second,
{
    let keys = cluster_keys(roots, found);
    let a = choose|order: Seq<usize>| #[trigger]
        is_stable_order(keys, order) && first == permuted(found, order);
    let b = choose|order: Seq<usize>| #[trigger]
        is_stable_order(keys, order) && second == permuted(found, order);
    lemma_stable_order_unique(keys, a, b);
}

/// Orders clusters by the squared magnitude of their representatives.
pub fn sort_clusters(roots: &Roots, clusters: &Vec<PoleCluster>) -> (sorted: Vec<PoleCluster>)
    requires
        forall|c: int| 0 <= c < clusters.len() ==> (#[trigger] clusters[c]).root < roots.count(),
    ensures
        is_sorted_by_norm(*roots, clusters@, sorted@),
{
    let mut keys: Vec<Real> = Vec::new();
    let mut c: usize = 0;
    while c < clusters.len()
        invariant
            c <= clusters.len(),
            forall|k: int| 0 <= k < clusters.len() ==> (#[trigger] clusters[k]).root < roots.count(),
            keys@ == cluster_keys(*roots, clusters@.take(c as int)),
        decreases clusters.len() - c,
    {
        keys.push(roots.norm_sqr(clusters[c].root));
        proof {
            assert(keys@ =~= cluster_keys(*roots, clusters@.take(c + 1)));
        }
        c += 1;
    }
    proof {
        assert(clusters@.take(clusters.len() as int) =~= clusters@);
    }
    let order = stable_order(&keys);
    let mut sorted: Vec<PoleCluster> = Vec::new();
    let mut k: usize = 0;
    while k < order.len()
        invariant
            k <= order.len(),
            order.len() == clusters.len(),
            forall|j: int| 0 <= j < order.len() ==> (#[trigger] order[j]) < clusters.len(),
            sorted@ == permuted(clusters@, order@.take(k as int)),
        decreases order.len() - k,
    {
        sorted.push(clusters[order[k]]);
        proof {
            assert(sorted@ =~= permuted(clusters@, order@.take(k + 1)));
        }
        k += 1;
    }
    proof {
        assert(order@.take(order.len() as int) =~= order@);
    }
    sorted
}

/// The pole of each cluster, repeated as often as its multiplicity says,
/// for the first `n` clusters.
pub open spec fn replicated(clusters: Seq<PoleCluster>, n: nat) -> Seq<Complex>
    decreases n,
{
    if n == 0 {
        Seq::empty()
    } else {
        replicated(clusters, (n - 1) as nat) + Seq::new(
            clusters[n - 1].multiplicity as nat,
            |q: int| clusters[n - 1].pole,
        )
    }
}

/// The pairs of the two lists, as far as the shorter one reaches.
pub open spec fn zipped(first: Seq<Complex>, second: Seq<Complex>) -> Seq<(Complex, Complex)> {
    Seq::new(
        if first.len() <= second.len() {
            first.len()
        } else {
            second.len()
        },
        |t: int| (first[t], second[t]),
    )
}

/// Sets each residue over its pole: the residues are taken in the order of
/// the terms, cluster after cluster, by rising power. Residues beyond the
/// last term, or terms beyond the last residue, are left out.
pub fn residues_over_poles(residues: &Vec<Complex>, clusters: &Vec<PoleCluster>) -> (rp: Vec<
    (Complex, Complex),
>)
    ensures
        rp@ == zipped(residues@, replicated(clusters@, clusters.len() as nat)),
{
    let mut rp: Vec<(Complex, Complex)> = Vec::new();
    let mut c: usize = 0;
    let ghost mut poles: Seq<Complex> = Seq::empty();
    while c < clusters.len()
        invariant
            c <= clusters.len(),
            poles == replicated(clusters@, c as nat),
            rp@ == zipped(residues@, poles),
        decreases clusters.len() - c,
    {
        let cluster = clusters[c];
        let ghost start = poles;
        let mut q: usize = 0;
        while q < cluster.multiplicity
            invariant
                q <= cluster.multiplicity,
                poles == start + Seq::new(q as nat, |j: int| cluster.pole),
                rp@ == zipped(residues@, poles),
            decreases cluster.multiplicity - q,
        {
            let ghost before = poles;
            proof {
                poles = poles.push(cluster.pole);
                assert(poles =~= start + Seq::new((q + 1) as nat, |j: int| cluster.pole));
            }
            if rp.len() < residues.len() {
                proof {
                    assert(rp.len() == before.len());
                }
                rp.push((residues[rp.len()], cluster.pole));
            }
            proof {
                assert(rp@ =~= zipped(residues@, poles));
            }
            q += 1;
        }
        c += 1;
    }
    rp
}

/// The structure of a decomposition whose residues are yet to be computed.
#[derive(Clone, Debug)]
pub struct PartialFractions {
    /// The poles, by rising squared magnitude.
    pub clusters: Vec<PoleCluster>,
    /// The terms of the sum, in the order of the result.
    pub terms: Vec<Term>,
    /// The number of coefficients of the polynomial part.
    pub quotient_len: usize,
}

/// What the decomposition of a transfer function arrives at.
#[derive(Clone, Debug)]
pub enum Decomposition {
    /// The decomposition itself, where it needs no arithmetic.
    Done(Rpk),
    /// The poles and terms, for which residues remain to be computed.
    Pending(PartialFractions),
}

/// The decomposition of anything over the zero polynomial: a single term
/// at the origin, with residue one, or zero if the numerator is zero too.
pub open spec fn degenerate_terms(b: Seq<Complex>) -> Seq<(Complex, Complex)> {
    let origin = Complex::of_real(Real { bits: 0 });
    let unit = Complex::of_real(Real { bits: ONE_BITS });
    seq![(if zero_polynomial(b) { origin } else { unit }, origin)]
}

/// The decomposition of zero over a polynomial with the roots given: a
/// zero residue over each root, the roots in the order `order`.
pub open spec fn vanishing_terms(roots: Roots, order: Seq<usize>) -> Seq<(Complex, Complex)> {
    Seq::new(
        order.len(),
        |k: int| (Complex::of_real(Real { bits: 0 }), roots.value(order[k] as int)),
    )
}

/// A polynomial is zero if and only if nothing is left of it without its
/// leading zeros.
pub proof fn lemma_trimmed_zero(c: Seq<Complex>)
    ensures
        zero_polynomial(c) <==> trimmed(c).len() == 0,
        zero_polynomial(c) <==> zero_polynomial(trimmed(c)),
{
    lemma_trimmed(c);
    let k = leading_zeros(c) as int;
    if zero_polynomial(c) {
        if trimmed(c).len() > 0 {
            assert(trimmed(c)[0] == c[k]);
        }
    }
    if zero_polynomial(trimmed(c)) {
        if trimmed(c).len() > 0 {
            assert(trimmed(c)[0].zero());
        }
    }
}

/// Whether `d` is what the decomposition of `b / a` arrives at, where
/// `roots` holds the roots of `a` and `tol` is the tolerance asked for.
///
/// Over a zero denominator it is a single term at the origin. A zero
/// numerator gives a zero residue over each root, the roots by rising
/// squared magnitude. Otherwise it is the plan with the clustered roots in
/// the order of their squared magnitudes, the terms laid out for them, and
/// the length of the quotient of the polynomials without their leading
/// zeros.
pub open spec fn is_decomposition(
    b: Seq<Complex>,
    a: Seq<Complex>,
    roots: Roots,
    tol: Option<Real>,
    d: Decomposition,
) -> bool {
    if zero_polynomial(a) {
        &&& d matches Decomposition::Done(rpk)
        &&& rpk.rp@ == degenerate_terms(b)
        &&& rpk.k@ == Seq::<Complex>::empty()
    } else if zero_polynomial(b) {
        &&& d matches Decomposition::Done(rpk)
        &&& exists|order: Seq<usize>| #[trigger]
            is_stable_order(roots.norms(), order) && rpk.rp@ == vanishing_terms(roots, order)
        &&& rpk.k@ == Seq::<Complex>::empty()
    } else {
        &&& d matches Decomposition::Pending(plan)
        &&& is_sorted_by_norm(
            roots,
            clusters_of(roots, spec_tolerance(tol), roots.count()),
            plan.clusters@,
        )
        &&& plan.terms@ == terms_of(plan.clusters@, plan.clusters.len() as nat)
        &&& plan.quotient_len == quotient_len(trimmed(b).len(), trimmed(a).len())
    }
}

/// A system that can be decomposed into partial fractions.
pub trait Residue {
    type Output;

    /// Decomposes the system. `roots` holds the roots of its denominator,
    /// and `tol` the distance below which two roots are one pole.
    fn residue(&self, roots: &Roots, tol: Option<Real>) -> Self::Output;
}

impl Residue for Tf {
    type Output = Decomposition;

    /// Settles the structure of the partial-fraction decomposition of this
    /// transfer function, after bringing it to normal form.
    ///
    /// Over a zero denominator the result is a single term at the origin.
    /// A zero numerator gives a zero residue over each root, the roots by
    /// rising squared magnitude. Otherwise the roots are clustered, the
    /// clusters ordered by squared magnitude, and the terms laid out.
    fn residue(&self, roots: &Roots, tol: Option<Real>) -> (d: Decomposition)
        ensures
            is_decomposition(self.b@, self.a@, *roots, tol, d),
    {
        let tf = self.normalize();
        proof {
            lemma_trimmed_zero(self.a@);
            lemma_trimmed_zero(self.b@);
        }
        if is_zero_polynomial(&tf.a) {
            let residue = if is_zero_polynomial(&tf.b) {
                Complex::zero_value()
            } else {
                Complex::one_value()
            };
            let mut rp: Vec<(Complex, Complex)> = Vec::new();
            rp.push((residue, Complex::zero_value()));
            proof {
                assert(rp@ =~= degenerate_terms(self.b@));
            }
            return Decomposition::Done(Rpk { rp, k: Vec::new() });
        }
        if is_zero_polynomial(&tf.b) {
            let order = roots.order_by_norm();
            let mut rp: Vec<(Complex, Complex)> = Vec::new();
            let mut k: usize = 0;
            while k < order.len()
                invariant
                    k <= order.len(),
                    is_stable_order(roots.norms(), order@),
                    roots.norms().len() == roots.count(),
                    rp@ == vanishing_terms(*roots, order@.take(k as int)),
                decreases order.len() - k,
            {
                rp.push((Complex::zero_value(), roots.get(order[k])));
                proof {
                    assert(rp@ =~= vanishing_terms(*roots, order@.take(k + 1)));
                }
                k += 1;
            }
            proof {
                assert(order@.take(order.len() as int) =~= order@);
            }
            return Decomposition::Done(Rpk { rp, k: Vec::new() });
        }
        let quotient_len: usize = if tf.b.len() < tf.a.len() {
            0
        } else {
            tf.b.len() - tf.a.len() + 1
        };
        let tol = tolerance(tol);
        let found = cluster_poles(roots, tol);
        proof {
            lemma_clusters(*roots, tol, roots.count());
        }
        let clusters = sort_clusters(roots, &found);
        let terms = partial_fraction_terms(&clusters);
        Decomposition::Pending(PartialFractions { clusters, terms, quotient_len })
    }
}

impl PartialFractions {
    /// Completes the decomposition with the residues, given in the order of
    /// the terms, and with the polynomial part.
    pub fn finish(&self, residues: &Vec<Complex>, quotient: Vec<Complex>) -> (rpk: Rpk)
        ensures
            rpk.rp@ == zipped(residues@, replicated(self.clusters@, self.clusters.len() as nat)),
            rpk.k@ == quotient@,
    {
        Rpk { rp: residues_over_poles(residues, &self.clusters), k: quotient }
    }
}

/// The number of roots in the clusters before cluster `c`: the place of
/// the first term of cluster `c`.
pub open spec fn offset(clusters: Seq<PoleCluster>, c: int) -> nat {
    total_multiplicity(clusters.take(c))
}

proof fn lemma_offset_step(clusters: Seq<PoleCluster>, c: int)
    requires
        0 <= c < clusters.len(),
    ensures
        offset(clusters, c + 1) == offset(clusters, c) + clusters[c].multiplicity,
{
    assert(clusters.take(c + 1).drop_last() =~= clusters.take(c));
}

/// The terms and the replicated poles of the first `n` clusters are as
/// many as the roots that these clusters hold.
pub proof fn lemma_terms_len(clusters: Seq<PoleCluster>, n: nat)
    requires
        n <= clusters.len(),
    ensures
        terms_of(clusters, n).len() == offset(clusters, n as int),
        replicated(clusters, n).len() == offset(clusters, n as int),
    decreases n,
{
    if n == 0 {
        assert(clusters.take(0) =~= Seq::empty());
    } else {
        lemma_terms_len(clusters, (n - 1) as nat);
        lemma_offset_step(clusters, n - 1);
    }
}

/// The term in place `offset(c) + q` is that of cluster `c` and power
/// `q + 1`, and the pole in that place is the pole of cluster `c`.
pub proof fn lemma_term_at(clusters: Seq<PoleCluster>, n: nat, c: int, q: int)
    requires
        n <= clusters.len() <= usize::MAX,
        0 <= c < n,
        0 <= q < clusters[c].multiplicity,
    ensures
        offset(clusters, c) + q < terms_of(clusters, n).len(),
        terms_of(clusters, n).len() == replicated(clusters, n).len(),
        terms_of(clusters, n)[offset(clusters, c) + q] == (Term {
            cluster: c as usize,
            power: (q + 1) as usize,
            step: (clusters[c].multiplicity - 1 - q) as usize,
        }),
        replicated(clusters, n)[offset(clusters, c) + q] == clusters[c].pole,
    decreases n,
{
    lemma_terms_len(clusters, n);
    lemma_terms_len(clusters, (n - 1) as nat);
    lemma_offset_step(clusters, n - 1);
    if c < n - 1 {
        lemma_term_at(clusters, (n - 1) as nat, c, q);
    }
}

proof fn lemma_total_insert(clusters: Seq<PoleCluster>, m: int, x: PoleCluster)
    requires
        0 <= m <= clusters.len(),
    ensures
        total_multiplicity(clusters.insert(m, x)) == total_multiplicity(clusters) + x.multiplicity,
    decreases clusters.len(),
{
    if m == clusters.len() {
        assert(clusters.insert(m, x).drop_last() =~= clusters);
    } else {
        lemma_total_insert(clusters.drop_last(), m, x);
        assert(clusters.insert(m, x).drop_last() =~= clusters.drop_last().insert(m, x));
    }
}

/// Reordering clusters does not change how many roots they hold.
pub proof fn lemma_permuted_total(clusters: Seq<PoleCluster>, order: Seq<usize>)
    requires
        is_permutation(order, clusters.len()),
    ensures
        total_multiplicity(permuted(clusters, order)) == total_multiplicity(clusters),
    decreases clusters.len(),
{
    let n = clusters.len();
    if n == 0 {
        assert(permuted(clusters, order) =~= Seq::empty());
    } else {
        assert(listed(order, n - 1));
        let m = choose|m: int| 0 <= m < order.len() && #[trigger] order[m] == n - 1;
        let rest = order.remove(m);
        lemma_permutation_shrinks(order, n, m);
        lemma_permuted_total(clusters.drop_last(), rest);
        assert(permuted(clusters, order) =~= permuted(clusters.drop_last(), rest).insert(
            m,
            clusters[n - 1],
        )) by {
            assert forall|k: int| 0 <= k < n implies permuted(clusters, order)[k] == permuted(
                clusters.drop_last(),
                rest,
            ).insert(m, clusters[n - 1])[k] by {
                if k < m {
                    assert(rest[k] == order[k]);
                    assert(rest[k] < n - 1);
                } else if k > m {
                    assert(rest[k - 1] == order[k]);
                    assert(rest[k - 1] < n - 1);
                }
            }
        }
        lemma_total_insert(permuted(clusters.drop_last(), rest), m, clusters[n - 1]);
    }
}

/// A denominator whose roots all lie within the tolerance of the first one
/// has a single pole: every term of the decomposition stands over that root,
/// with the powers from one up to the number of roots.
pub proof fn lemma_repeated_pole(roots: Roots, tol: Tolerance, sorted: Seq<PoleCluster>)
    requires
        roots.count() >= 1,
        forall|i: int| 1 <= i < roots.count() ==> near(roots, tol, i, 0),
        is_sorted_by_norm(roots, clusters_of(roots, tol, roots.count()), sorted),
    ensures
        sorted == seq![
            PoleCluster { root: 0, pole: roots.value(0), multiplicity: roots.count() as usize },
        ],
        replicated(sorted, 1) == Seq::new(roots.count(), |t: int| roots.value(0)),
        terms_of(sorted, 1) == term_block(0, roots.count()),
{
    let n = roots.count();
    let found = clusters_of(roots, tol, n);
    lemma_single_cluster(roots, tol, n);
    lemma_roots(roots);
    let order = choose|order: Seq<usize>| #[trigger]
        is_stable_order(cluster_keys(roots, found), order) && sorted == permuted(found, order);
    assert(order[0] == 0);
    assert(sorted =~= found);
    assert(replicated(sorted, 0) =~= Seq::empty());
    assert(replicated(sorted, 1) =~= Seq::new(n, |t: int| roots.value(0)));
    assert(terms_of(sorted, 0) =~= Seq::empty());
    assert(terms_of(sorted, 1) =~= term_block(0, n));
}

/// The decomposition has one term for each root of the denominator.
pub proof fn lemma_one_term_for_each_root(roots: Roots, tol: Tolerance, sorted: Seq<PoleCluster>)
    requires
        is_sorted_by_norm(roots, clusters_of(roots, tol, roots.count()), sorted),
    ensures
        terms_of(sorted, sorted.len()).len() == roots.count(),
        replicated(sorted, sorted.len()).len() == roots.count(),
{
    let found = clusters_of(roots, tol, roots.count());
    let order = choose|order: Seq<usize>| #[trigger]
        is_stable_order(cluster_keys(roots, found), order) && sorted == permuted(found, order);
    lemma_clusters(roots, tol, roots.count());
    lemma_roots(roots);
    lemma_stable_order_permutes(cluster_keys(roots, found), order);
    lemma_permuted_total(found, order);
    lemma_terms_len(sorted, sorted.len());
    assert(sorted.take(sorted.len() as int) =~= sorted);
}

} // verus!
