//! The denominator factors against which residues are computed.
//!
//! A factor is a product of powers of `(s - pole)`, one power for each
//! cluster. It is held by its exponents, one for each cluster in order.

use vstd::prelude::*;
use crate::decompositions::cluster::PoleCluster;

verus! {

/// The multiplicity of each cluster: the exponents of the full denominator.
pub open spec fn multiplicities(clusters: Seq<PoleCluster>) -> Seq<usize> {
    Seq::new(clusters.len(), |c: int| clusters[c].multiplicity)
}

/// The factors that belong to cluster `k`. Each has every other pole in its
/// full multiplicity. With `include_powers`, there is one factor for each
/// power of pole `k` below its multiplicity, the highest power first;
/// without, there is the one factor that leaves pole `k` out.
pub open spec fn factor_block(mults: Seq<usize>, k: int, include_powers: bool) -> Seq<Seq<usize>> {
    let m = mults[k];
    if include_powers {
        Seq::new(m as nat, |q: int| mults.update(k, (m - 1 - q) as usize))
    } else if m >= 1 {
        seq![mults.update(k, 0)]
    } else {
        Seq::empty()
    }
}

/// The factors of the first `n` clusters, cluster after cluster.
pub open spec fn factors_of(mults: Seq<usize>, n: nat, include_powers: bool) -> Seq<Seq<usize>>
    decreases n,
{
    if n == 0 {
        Seq::empty()
    } else {
        factors_of(mults, (n - 1) as nat, include_powers) + factor_block(
            mults,
            n - 1,
            include_powers,
        )
    }
}

/// The exponent lists as sequences.
pub open spec fn rows(factors: Seq<Vec<usize>>) -> Seq<Seq<usize>> {
    Seq::new(factors.len(), |i: int| factors[i]@)
}

fn with_entry(values: &Vec<usize>, k: usize, x: usize) -> (r: Vec<usize>)
    requires
        k < values.len(),
    ensures
        r@ == values@.update(k as int, x),
{
    let mut r: Vec<usize> = Vec::new();
    let mut i: usize = 0;
    while i < values.len()
        invariant
            i <= values.len(),
            k < values.len(),
            r@ == values@.update(k as int, x).take(i as int),
        decreases values.len() - i,
    {
        r.push(if i == k { x } else { values[i] });
        proof {
            assert(r@ =~= values@.update(k as int, x).take(i + 1));
        }
        i += 1;
    }
    proof {
        assert(values@.update(k as int, x).take(values.len() as int) =~= values@.update(k as int, x));
    }
    r
}

/// Lists the denominator factors for the clusters, and the full denominator
/// after them, each by its exponents.
pub fn compute_residue_factors(clusters: &Vec<PoleCluster>, include_powers: bool) -> (r: (
    Vec<Vec<usize>>,
    Vec<usize>,
))
    ensures
        rows(r.0@) == factors_of(
            multiplicities(clusters@),
            clusters.len() as nat,
            include_powers,
        ),
        r.1@ == multiplicities(clusters@),
{
    let n: usize = clusters.len();
    let mut mults: Vec<usize> = Vec::new();
    let mut c: usize = 0;
    while c < n
        invariant
            c <= n,
            n == clusters.len(),
            mults@ == multiplicities(clusters@).take(c as int),
        decreases n - c,
    {
        mults.push(clusters[c].multiplicity);
        proof {
            assert(mults@ =~= multiplicities(clusters@).take(c + 1));
        }
        c += 1;
    }
    proof {
        assert(multiplicities(clusters@).take(n as int) =~= multiplicities(clusters@));
    }
    let mut factors: Vec<Vec<usize>> = Vec::new();
    let mut k: usize = 0;
    while k < n
        invariant
            k <= n,
            n == mults.len(),
            rows(factors@) == factors_of(mults@, k as nat, include_powers),
        decreases n - k,
    {
        let m: usize = mults[k];
        let ghost start = rows(factors@);
        let ghost block = factor_block(mults@, k as int, include_powers);
        if include_powers {
            let mut q: usize = 0;
            while q < m
                invariant
                    q <= m,
                    k < n,
                    n == mults.len(),
                    m == mults[k as int],
                    include_powers,
                    block == factor_block(mults@, k as int, include_powers),
                    rows(factors@) == start + block.take(q as int),
                decreases m - q,
            {
                let ghost listed = factors@;
                let factor = with_entry(&mults, k, m - 1 - q);
                factors.push(factor);
                proof {
                    assert(rows(factors@) =~= rows(listed).push(factor@));
                    assert(block[q as int] == factor@);
                    assert(rows(factors@) =~= start + block.take(q + 1));
                }
                q += 1;
            }
            proof {
                assert(block.take(m as int) =~= block);
            }
        } else if m >= 1 {
            let ghost listed = factors@;
            let factor = with_entry(&mults, k, 0);
            factors.push(factor);
            proof {
                assert(rows(factors@) =~= rows(listed).push(factor@));
                assert(rows(factors@) =~= start + block);
            }
        } else {
            proof {
                assert(rows(factors@) =~= start + block);
            }
        }
        k += 1;
    }
    (factors, mults)
}

/// Without the powers there is one factor for each cluster that has a
/// member: the full denominator without the pole of that cluster.
pub proof fn lemma_one_factor_each(mults: Seq<usize>, n: nat)
    requires
        n <= mults.len(),
        forall|k: int| 0 <= k < n ==> (#[trigger] mults[k]) >= 1,
    ensures
        factors_of(mults, n, false) == Seq::new(n, |k: int| mults.update(k, 0)),
    decreases n,
{
    if n == 0 {
        assert(factors_of(mults, 0, false) =~= Seq::new(0, |k: int| mults.update(k, 0)));
    } else {
        lemma_one_factor_each(mults, (n - 1) as nat);
        assert(mults[n - 1] >= 1);
        assert(factors_of(mults, n, false) =~= Seq::new(n, |k: int| mults.update(k, 0)));
    }
}

} // verus!
