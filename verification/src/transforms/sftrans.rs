//! The analog frequency transform of a normalised low-pass prototype.
//!
//! The transform replaces every root of the prototype by one or two roots
//! of the target filter, adds the zeros that the prototype had at infinity,
//! and rescales the gain. What is decided here is the recipe: which rule
//! gives each root of the result, from which root of the prototype, and
//! in which order. Evaluating a rule is rounded arithmetic.

use vstd::prelude::*;
use crate::quantities::scalar::Real;
use crate::systems::zpk::Zpk;

verus! {

#[derive(Debug, Clone, Copy, PartialEq, Eq, Structural)]
pub enum SfTransError {
    /// The prototype has more zeros than poles.
    NonCausal,
    /// The prototype has no pole.
    ZeroPoles,
}

impl SfTransError {
    pub open spec fn spec_message(self) -> Seq<char> {
        match self {
            SfTransError::NonCausal =>
                "Non causal system, i.e. it contains one or more poles at infinity."@,
            SfTransError::ZeroPoles => "The system must contain at least one pole."@,
        }
    }

    /// The text that describes the error.
    pub fn message(&self) -> (s: &'static str)
        ensures
            s@ == self.spec_message(),
    {
        match self {
            SfTransError::NonCausal =>
                "Non causal system, i.e. it contains one or more poles at infinity.",
            SfTransError::ZeroPoles => "The system must contain at least one pole.",
        }
    }
}

/// The filter that the prototype is mapped to, with its band edges.
#[derive(Debug, Clone, Copy, PartialEq, Eq, Structural)]
pub enum Target {
    LowPass { cutoff: Real },
    HighPass { cutoff: Real },
    BandPass { low: Real, high: Real },
    BandStop { low: Real, high: Real },
}

/// The sign in front of the square root of a band transform.
#[derive(Debug, Clone, Copy, PartialEq, Eq, Structural)]
pub enum Branch {
    Upper,
    Lower,
}

/// How one root of the result is obtained. An index names a root of the
/// prototype, in its zero list for a zero and in its pole list for a pole.
#[derive(Debug, Clone, Copy, PartialEq, Eq, Structural)]
pub enum RootRule {
    /// The prototype root times the cut-off.
    Scaled(usize),
    /// The cut-off divided by the prototype root.
    Inverted(usize),
    /// `b ± sqrt(b² - high·low)` with `b = root·(high - low)/2`.
    Pass(usize, Branch),
    /// `b ± sqrt(b² - high·low)` with `b = (high - low)/(2·root)`.
    Stop(usize, Branch),
    /// A root at zero.
    Origin,
    /// `± sqrt(-high·low)`.
    Edge(Branch),
}

/// How the gain of the result is obtained from that of the prototype.
#[derive(Debug, Clone, Copy, PartialEq, Eq, Structural)]
pub enum GainRule {
    /// Multiply by the width raised to `exponent`; the width is the cut-off
    /// of a low-pass and `high - low` of a band-pass.
    Power { exponent: usize },
    /// Divide by the real part of the product of the negated poles and, if
    /// `zeros` is set, by the real part of the product of the negated zeros.
    Products { zeros: bool },
}

/// The recipe for a transformed system.
#[derive(Debug, Clone)]
pub struct SfTransPlan {
    pub target: Target,
    pub zeros: Vec<RootRule>,
    pub poles: Vec<RootRule>,
    pub gain: GainRule,
}

/// The rule applied to every root of the prototype.
#[derive(Debug, Clone, Copy, PartialEq, Eq, Structural)]
pub enum RootMap {
    Scaled,
    Inverted,
    Pass(Branch),
    Stop(Branch),
}

impl RootMap {
    pub open spec fn spec_apply(self, index: usize) -> RootRule {
        match self {
            RootMap::Scaled => RootRule::Scaled(index),
            RootMap::Inverted => RootRule::Inverted(index),
            RootMap::Pass(branch) => RootRule::Pass(index, branch),
            RootMap::Stop(branch) => RootRule::Stop(index, branch),
        }
    }

    pub fn apply(self, index: usize) -> (rule: RootRule)
        ensures
            rule == self.spec_apply(index),
    {
        match self {
            RootMap::Scaled => RootRule::Scaled(index),
            RootMap::Inverted => RootRule::Inverted(index),
            RootMap::Pass(branch) => RootRule::Pass(index, branch),
            RootMap::Stop(branch) => RootRule::Stop(index, branch),
        }
    }
}

/// One or two edges and the `stop` flag select the target.
pub open spec fn target_of(w: Seq<Real>, stop: bool) -> Target {
    if w.len() == 2 {
        if stop {
            Target::BandStop { low: w[0], high: w[1] }
        } else {
            Target::BandPass { low: w[0], high: w[1] }
        }
    } else {
        if stop {
            Target::HighPass { cutoff: w[0] }
        } else {
            Target::LowPass { cutoff: w[0] }
        }
    }
}

/// `map` applied to the roots `0 .. n`, in order.
pub open spec fn mapped(map: RootMap, n: nat) -> Seq<RootRule> {
    Seq::new(n, |i: int| map.spec_apply(i as usize))
}

/// `n` copies of `rule`.
pub open spec fn copies(rule: RootRule, n: nat) -> Seq<RootRule> {
    Seq::new(n, |i: int| rule)
}

/// `2·n` edge roots, the lower one first.
pub open spec fn edges(n: nat) -> Seq<RootRule> {
    Seq::new(
        2 * n,
        |i: int|
            if i % 2 == 0 {
                RootRule::Edge(Branch::Lower)
            } else {
                RootRule::Edge(Branch::Upper)
            },
    )
}

/// The image of `n` prototype roots: one root each for a single edge, and
/// for a band all upper roots followed by all lower roots.
pub open spec fn images(target: Target, n: nat) -> Seq<RootRule> {
    match target {
        Target::LowPass { .. } => mapped(RootMap::Scaled, n),
        Target::HighPass { .. } => mapped(RootMap::Inverted, n),
        Target::BandPass { .. } => mapped(RootMap::Pass(Branch::Upper), n) + mapped(
            RootMap::Pass(Branch::Lower),
            n,
        ),
        Target::BandStop { .. } => mapped(RootMap::Stop(Branch::Upper), n) + mapped(
            RootMap::Stop(Branch::Lower),
            n,
        ),
    }
}

/// The zeros that stand for the `missing` zeros at infinity of the
/// prototype: at the origin for a low-pass and a band-pass, none for a
/// high-pass, and a pair on the imaginary axis each for a band-stop.
pub open spec fn padding(target: Target, missing: nat) -> Seq<RootRule> {
    match target {
        Target::LowPass { .. } => copies(RootRule::Origin, missing),
        Target::HighPass { .. } => Seq::empty(),
        Target::BandPass { .. } => copies(RootRule::Origin, missing),
        Target::BandStop { .. } => edges(missing),
    }
}

/// The rules for the poles of the result.
pub open spec fn pole_rules(target: Target, poles: nat) -> Seq<RootRule> {
    images(target, poles)
}

/// The rules for the zeros of the result.
pub open spec fn zero_rules(target: Target, zeros: nat, poles: nat) -> Seq<RootRule>
    recommends
        zeros <= poles,
{
    images(target, zeros) + padding(target, (poles - zeros) as nat)
}

/// The rule for the gain of the result.
pub open spec fn gain_rule(target: Target, zeros: nat, poles: nat) -> GainRule
    recommends
        zeros <= poles,
{
    match target {
        Target::LowPass { .. } => GainRule::Power { exponent: (poles - zeros) as usize },
        Target::HighPass { .. } => GainRule::Products { zeros: zeros > 0 },
        Target::BandPass { .. } => GainRule::Power { exponent: (poles - zeros) as usize },
        Target::BandStop { .. } => GainRule::Products { zeros: zeros > 0 },
    }
}

/// A low-pass has a root for each pole of the prototype, zeros as well as
/// poles: root `i` of the prototype, scaled, stands in place `i`, and the
/// zeros that the prototype lacks stand behind them at the origin. The gain
/// is multiplied once by the cut-off for each zero that was lacking.
pub proof fn lemma_low_pass_keeps_roots(cutoff: Real, zeros: nat, poles: nat)
    requires
        zeros <= poles <= usize::MAX,
    ensures
        ({
            let target = Target::LowPass { cutoff };
            let p = pole_rules(target, poles);
            let z = zero_rules(target, zeros, poles);
            &&& p.len() == poles
            &&& z.len() == poles
            &&& forall|i: int| 0 <= i < poles ==> #[trigger] p[i] == RootRule::Scaled(i as usize)
            &&& forall|i: int| 0 <= i < zeros ==> #[trigger] z[i] == RootRule::Scaled(i as usize)
            &&& forall|i: int| zeros <= i < poles ==> #[trigger] z[i] == RootRule::Origin
            &&& gain_rule(target, zeros, poles) == GainRule::Power {
                exponent: (poles - zeros) as usize,
            }
        }),
{
}

/// A band-pass has two roots for each root of the prototype: root `i` of
/// the prototype gives the root in place `i` by the upper branch, and the
/// root in place `n + i` by the lower branch of the same square root.
pub proof fn lemma_band_pass_doubles(low: Real, high: Real, n: nat)
    requires
        n <= usize::MAX,
    ensures
        ({
            let p = pole_rules(Target::BandPass { low, high }, n);
            &&& p.len() == 2 * n
            &&& forall|i: int|
                0 <= i < n ==> #[trigger] p[i] == RootRule::Pass(i as usize, Branch::Upper)
            &&& forall|i: int|
                0 <= i < n ==> #[trigger] p[n + i] == RootRule::Pass(i as usize, Branch::Lower)
        }),
{
}

/// The number of roots of the result: a band filter has twice the poles
/// of the prototype. A low-pass and a band-stop have as many zeros as poles,
/// a band-pass has one zero for each zero and each pole of the prototype,
/// and a high-pass has the zeros of the prototype and no others.
pub proof fn lemma_root_counts(target: Target, zeros: nat, poles: nat)
    requires
        zeros <= poles,
    ensures
        pole_rules(target, poles).len() == match target {
            Target::LowPass { .. } => poles,
            Target::HighPass { .. } => poles,
            Target::BandPass { .. } => 2 * poles,
            Target::BandStop { .. } => 2 * poles,
        },
        zero_rules(target, zeros, poles).len() == match target {
            Target::LowPass { .. } => poles,
            Target::HighPass { .. } => zeros,
            Target::BandPass { .. } => zeros + poles,
            Target::BandStop { .. } => 2 * poles,
        },
{
}

fn append_mapped(rules: &mut Vec<RootRule>, map: RootMap, n: usize)
    ensures
        final(rules)@ == old(rules)@ + mapped(map, n as nat),
{
    let mut i: usize = 0;
    while i < n
        invariant
            i <= n,
            rules@ == old(rules)@ + mapped(map, i as nat),
        decreases n - i,
    {
        rules.push(map.apply(i));
        i += 1;
    }
}

fn append_copies(rules: &mut Vec<RootRule>, rule: RootRule, n: usize)
    ensures
        final(rules)@ == old(rules)@ + copies(rule, n as nat),
{
    let mut i: usize = 0;
    while i < n
        invariant
            i <= n,
            rules@ == old(rules)@ + copies(rule, i as nat),
        decreases n - i,
    {
        rules.push(rule);
        i += 1;
    }
}

fn append_edges(rules: &mut Vec<RootRule>, n: usize)
    ensures
        final(rules)@ == old(rules)@ + edges(n as nat),
{
    let mut i: usize = 0;
    while i < n
        invariant
            i <= n,
            rules@ == old(rules)@ + edges(i as nat),
        decreases n - i,
    {
        rules.push(RootRule::Edge(Branch::Lower));
        rules.push(RootRule::Edge(Branch::Upper));
        i += 1;
    }
}

fn append_images(rules: &mut Vec<RootRule>, target: Target, n: usize)
    ensures
        final(rules)@ == old(rules)@ + images(target, n as nat),
{
    match target {
        Target::LowPass { .. } => append_mapped(rules, RootMap::Scaled, n),
        Target::HighPass { .. } => append_mapped(rules, RootMap::Inverted, n),
        Target::BandPass { .. } => {
            append_mapped(rules, RootMap::Pass(Branch::Upper), n);
            append_mapped(rules, RootMap::Pass(Branch::Lower), n);
        },
        Target::BandStop { .. } => {
            append_mapped(rules, RootMap::Stop(Branch::Upper), n);
            append_mapped(rules, RootMap::Stop(Branch::Lower), n);
        },
    }
}

fn append_padding(rules: &mut Vec<RootRule>, target: Target, missing: usize)
    ensures
        final(rules)@ == old(rules)@ + padding(target, missing as nat),
{
    match target {
        Target::LowPass { .. } => append_copies(rules, RootRule::Origin, missing),
        Target::HighPass { .. } => {},
        Target::BandPass { .. } => append_copies(rules, RootRule::Origin, missing),
        Target::BandStop { .. } => append_edges(rules, missing),
    }
}

/// A system that can serve as the prototype of a frequency transform.
pub trait SfTrans {
    type Output;

    /// Transforms this low-pass prototype to the filter that the edges `w`
    /// and the flag `stop` select: one edge gives a low-pass, or with
    /// `stop` a high-pass; two edges give a band-pass, or with `stop` a
    /// band-stop.
    fn sftrans<const W: usize>(&self, w: [Real; W], stop: bool) -> (r: Result<
        Self::Output,
        SfTransError,
    >)
        requires
            1 <= W <= 2,
    ;
}

impl SfTrans for Zpk {
    type Output = SfTransPlan;

    /// Plans the transform of this prototype.
    ///
    /// A prototype with more zeros than poles is refused as non-causal, and
    /// otherwise one without poles is refused too.
    fn sftrans<const W: usize>(&self, w: [Real; W], stop: bool) -> (r: Result<
        SfTransPlan,
        SfTransError,
    >)
        ensures
            r == Err::<SfTransPlan, SfTransError>(SfTransError::NonCausal) <==> self.z.len()
                > self.p.len(),
            r == Err::<SfTransPlan, SfTransError>(SfTransError::ZeroPoles) <==> self.z.len()
                == 0 && self.p.len() == 0,
            r is Ok <==> self.z.len() <= self.p.len() && self.p.len() >= 1,
            r matches Ok(plan) ==> {
                &&& plan.target == target_of(w@, stop)
                &&& plan.poles@ == pole_rules(plan.target, self.p.len() as nat)
                &&& plan.zeros@ == zero_rules(
                    plan.target,
                    self.z.len() as nat,
                    self.p.len() as nat,
                )
                &&& plan.gain == gain_rule(plan.target, self.z.len() as nat, self.p.len() as nat)
            },
    {
        let p: usize = self.p.len();
        let z: usize = self.z.len();
        if z > p {
            return Err(SfTransError::NonCausal);
        }
        if p == 0 {
            return Err(SfTransError::ZeroPoles);
        }
        let target = if W == 2 {
            if stop {
                Target::BandStop { low: w[0], high: w[1] }
            } else {
                Target::BandPass { low: w[0], high: w[1] }
            }
        } else {
            if stop {
                Target::HighPass { cutoff: w[0] }
            } else {
                Target::LowPass { cutoff: w[0] }
            }
        };
        let gain = match target {
            Target::LowPass { .. } => GainRule::Power { exponent: p - z },
            Target::HighPass { .. } => GainRule::Products { zeros: z > 0 },
            Target::BandPass { .. } => GainRule::Power { exponent: p - z },
            Target::BandStop { .. } => GainRule::Products { zeros: z > 0 },
        };
        let mut poles: Vec<RootRule> = Vec::new();
        append_images(&mut poles, target, p);
        let mut zeros: Vec<RootRule> = Vec::new();
        append_images(&mut zeros, target, z);
        append_padding(&mut zeros, target, p - z);
        Ok(SfTransPlan { target, zeros, poles, gain })
    }
}

} // verus!
