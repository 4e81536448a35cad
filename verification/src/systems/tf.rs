//! Transfer functions: a numerator and a denominator polynomial.

use vstd::prelude::*;
use crate::quantities::complex::Complex;

verus! {

/// The ratio `B / A` of two polynomials, each held by its coefficients
/// with the highest degree first.
#[derive(Clone, Debug)]
pub struct Tf {
    pub b: Vec<Complex>,
    pub a: Vec<Complex>,
}

/// The number of zero coefficients before the first that is not zero.
pub open spec fn leading_zeros(c: Seq<Complex>) -> nat
    decreases c.len(),
{
    if c.len() == 0 || !c[0].zero() {
        0
    } else {
        1 + leading_zeros(c.skip(1))
    }
}

/// The coefficients without the zeros in front.
pub open spec fn trimmed(c: Seq<Complex>) -> Seq<Complex> {
    c.skip(leading_zeros(c) as int)
}

proof fn lemma_leading_zeros(c: Seq<Complex>, k: nat)
    requires
        k <= c.len(),
        forall|i: int| 0 <= i < k ==> (#[trigger] c[i]).zero(),
        k < c.len() ==> !c[k as int].zero(),
    ensures
        leading_zeros(c) == k,
    decreases k,
{
    if k > 0 {
        assert(c[0].zero());
        assert forall|i: int| 0 <= i < k - 1 implies (#[trigger] c.skip(1)[i]).zero() by {
            assert(c[i + 1].zero());
        }
        lemma_leading_zeros(c.skip(1), (k - 1) as nat);
    }
}

/// Removes the zero coefficients in front of a polynomial; the zero
/// polynomial becomes the empty one.
pub fn trim_zeros_front(c: &Vec<Complex>) -> (r: Vec<Complex>)
    ensures
        r@ == trimmed(c@),
{
    let mut first: usize = 0;
    while first < c.len() && c[first].is_zero()
        invariant
            first <= c.len(),
            forall|i: int| 0 <= i < first ==> (#[trigger] c[i]).zero(),
        decreases c.len() - first,
    {
        first += 1;
    }
    proof {
        lemma_leading_zeros(c@, first as nat);
    }
    let mut r: Vec<Complex> = Vec::new();
    let mut i: usize = first;
    while i < c.len()
        invariant
            first <= i <= c.len(),
            r@ == c@.subrange(first as int, i as int),
        decreases c.len() - i,
    {
        r.push(c[i]);
        proof {
            assert(r@ =~= c@.subrange(first as int, i + 1));
        }
        i += 1;
    }
    proof {
        assert(c@.subrange(first as int, c.len() as int) =~= c@.skip(first as int));
    }
    r
}

/// What is left of a polynomial without its leading zeros begins with a
/// coefficient that is not zero, unless nothing is left.
pub proof fn lemma_trimmed(c: Seq<Complex>)
    ensures
        leading_zeros(c) <= c.len(),
        trimmed(c).len() > 0 ==> !trimmed(c)[0].zero(),
        forall|i: int| 0 <= i < leading_zeros(c) ==> (#[trigger] c[i]).zero(),
    decreases c.len(),
{
    if c.len() > 0 && c[0].zero() {
        lemma_trimmed(c.skip(1));
        assert forall|i: int| 0 <= i < leading_zeros(c) implies (#[trigger] c[i]).zero() by {
            if i > 0 {
                assert(c.skip(1)[i - 1].zero());
            }
        }
        assert(trimmed(c) =~= trimmed(c.skip(1)));
    }
}

impl Tf {
    /// The transfer function in normal form: numerator and denominator
    /// without leading zeros.
    pub fn normalize(&self) -> (tf: Tf)
        ensures
            tf.b@ == trimmed(self.b@),
            tf.a@ == trimmed(self.a@),
    {
        Tf { b: trim_zeros_front(&self.b), a: trim_zeros_front(&self.a) }
    }

    pub fn new(b: Vec<Complex>, a: Vec<Complex>) -> (tf: Tf)
        ensures
            tf.b@ == b@,
            tf.a@ == a@,
    {
        Tf { b, a }
    }
}

} // verus!
