use num::complex::Complex64;
use signal_processing::quantities::complex::Complex;
use signal_processing::quantities::scalar::Real;
use signal_processing::systems::zpk::Zpk;
use signal_processing::transforms::sftrans::{
    Branch, GainRule, RootRule, SfTrans, SfTransError, SfTransPlan, Target,
};

fn num(x: f64) -> Real {
    Real { bits: x.to_bits() }
}

fn float(x: Real) -> f64 {
    f64::from_bits(x.bits)
}

fn pack(c: Complex64) -> Complex {
    Complex { re: num(c.re), im: num(c.im) }
}

fn unpack(c: Complex) -> Complex64 {
    Complex64::new(float(c.re), float(c.im))
}

fn c(re: f64, im: f64) -> Complex64 {
    Complex64::new(re, im)
}

fn prototype(z: &[Complex64], p: &[Complex64], k: f64) -> Zpk {
    Zpk::new(
        z.iter().map(|&x| pack(x)).collect(),
        p.iter().map(|&x| pack(x)).collect(),
        pack(c(k, 0.0)),
    )
}

fn apply(rule: RootRule, target: Target, source: &[Complex]) -> Complex64 {
    let band = |root: Complex64, low: f64, high: f64, stop: bool, branch: Branch| {
        let b = if stop { c((high - low) / 2.0, 0.0) / root } else { root * ((high - low) / 2.0) };
        let s = (b * b - high * low).sqrt();
        match branch {
            Branch::Upper => s + b,
            Branch::Lower => -s + b,
        }
    };
    match (rule, target) {
        (RootRule::Scaled(i), Target::LowPass { cutoff }) => unpack(source[i]) * float(cutoff),
        (RootRule::Inverted(i), Target::HighPass { cutoff }) => {
            c(float(cutoff), 0.0) / unpack(source[i])
        },
        (RootRule::Pass(i, branch), Target::BandPass { low, high }) => {
            band(unpack(source[i]), float(low), float(high), false, branch)
        },
        (RootRule::Stop(i, branch), Target::BandStop { low, high }) => {
            band(unpack(source[i]), float(low), float(high), true, branch)
        },
        (RootRule::Origin, _) => c(0.0, 0.0),
        (RootRule::Edge(branch), Target::BandStop { low, high }) => {
            let e = c(-float(high) * float(low), 0.0).sqrt();
            match branch {
                Branch::Upper => e,
                Branch::Lower => -e,
            }
        },
        _ => panic!("the rule does not belong to the target"),
    }
}

fn evaluate(plan: &SfTransPlan, zpk: &Zpk) -> (Vec<Complex64>, Vec<Complex64>, Complex64) {
    let z = plan.zeros.iter().map(|&rule| apply(rule, plan.target, &zpk.z)).collect();
    let p = plan.poles.iter().map(|&rule| apply(rule, plan.target, &zpk.p)).collect();
    let width = match plan.target {
        Target::LowPass { cutoff } | Target::HighPass { cutoff } => float(cutoff),
        Target::BandPass { low, high } | Target::BandStop { low, high } => float(high) - float(low),
    };
    let product = |roots: &[Complex]| roots.iter().map(|&x| -unpack(x)).product::<Complex64>().re;
    let k = match plan.gain {
        GainRule::Power { exponent } => unpack(zpk.k) * width.powi(exponent as i32),
        GainRule::Products { zeros } => {
            let k = unpack(zpk.k) / product(&zpk.p);
            if zeros {
                k / product(&zpk.z)
            } else {
                k
            }
        },
    };
    (z, p, k)
}

fn near(x: Complex64, y: Complex64) -> bool {
    (x - y).norm() <= 1e-12 * y.norm().max(1.0)
}

fn butterworth3() -> Vec<Complex64> {
    let h = 0.75f64.sqrt();
    vec![c(-0.5, h), c(-1.0, 0.0), c(-0.5, -h)]
}

#[test]
fn sftrans_refuses_a_prototype_without_poles() {
    let zpk = prototype(&[], &[], 1.0);
    assert_eq!(zpk.sftrans([num(1.0)], false).unwrap_err(), SfTransError::ZeroPoles);
    assert_eq!(zpk.sftrans([num(1.0), num(2.0)], true).unwrap_err(), SfTransError::ZeroPoles);
}

#[test]
fn sftrans_refuses_more_zeros_than_poles() {
    let zpk = prototype(&[c(0.0, 1.0), c(0.0, -1.0)], &[c(-1.0, 0.0)], 1.0);
    assert_eq!(zpk.sftrans([num(1.0)], false).unwrap_err(), SfTransError::NonCausal);
    assert_eq!(zpk.sftrans([num(1.0), num(2.0)], false).unwrap_err(), SfTransError::NonCausal);
}

#[test]
fn sftrans_calls_zeros_without_poles_non_causal() {
    let zpk = prototype(&[c(0.0, 1.0)], &[], 1.0);
    assert_eq!(zpk.sftrans([num(1.0)], true).unwrap_err(), SfTransError::NonCausal);
}

#[test]
fn errors_describe_themselves() {
    assert_eq!(
        SfTransError::NonCausal.message(),
        "Non causal system, i.e. it contains one or more poles at infinity."
    );
    assert_eq!(SfTransError::ZeroPoles.message(), "The system must contain at least one pole.");
}

#[test]
fn low_pass_scales_roots_and_pads_zeros_at_the_origin() {
    let zpk = prototype(&[c(0.0, 2.0)], &butterworth3(), 1.0);
    let plan = zpk.sftrans([num(10.0)], false).unwrap();
    assert_eq!(plan.target, Target::LowPass { cutoff: num(10.0) });
    assert_eq!(
        plan.poles,
        vec![RootRule::Scaled(0), RootRule::Scaled(1), RootRule::Scaled(2)]
    );
    assert_eq!(plan.zeros, vec![RootRule::Scaled(0), RootRule::Origin, RootRule::Origin]);
    assert_eq!(plan.gain, GainRule::Power { exponent: 2 });
    let (z, p, k) = evaluate(&plan, &zpk);
    assert_eq!(z, vec![c(0.0, 20.0), c(0.0, 0.0), c(0.0, 0.0)]);
    assert!(near(p[1], c(-10.0, 0.0)));
    assert!(near(k, c(100.0, 0.0)));
}

#[test]
fn low_pass_to_the_cutoff_of_the_prototype_changes_no_root() {
    let zpk = prototype(&[], &butterworth3(), 3.5);
    let plan = zpk.sftrans([num(1.0)], false).unwrap();
    let (z, p, k) = evaluate(&plan, &zpk);
    assert_eq!(p, butterworth3());
    assert_eq!(z, vec![c(0.0, 0.0); 3]);
    assert_eq!(k, c(3.5, 0.0));
}

#[test]
fn high_pass_inverts_roots_and_adds_no_zero() {
    let zpk = prototype(&[c(0.0, 2.0), c(0.0, -2.0)], &butterworth3(), 1.0);
    let plan = zpk.sftrans([num(4.0)], true).unwrap();
    assert_eq!(plan.target, Target::HighPass { cutoff: num(4.0) });
    assert_eq!(
        plan.poles,
        vec![RootRule::Inverted(0), RootRule::Inverted(1), RootRule::Inverted(2)]
    );
    assert_eq!(plan.zeros, vec![RootRule::Inverted(0), RootRule::Inverted(1)]);
    assert_eq!(plan.gain, GainRule::Products { zeros: true });
    let (z, p, k) = evaluate(&plan, &zpk);
    assert!(near(z[0], c(0.0, -2.0)));
    assert!(near(p[1], c(-4.0, 0.0)));
    // the product of the negated poles is 1, that of the negated zeros is 4
    assert!(near(k, c(0.25, 0.0)));
}

#[test]
fn high_pass_without_zeros_divides_by_the_poles_alone() {
    let zpk = prototype(&[], &[c(-2.0, 0.0)], 6.0);
    let plan = zpk.sftrans([num(1.0)], true).unwrap();
    assert_eq!(plan.gain, GainRule::Products { zeros: false });
    assert!(plan.zeros.is_empty());
    let (_, p, k) = evaluate(&plan, &zpk);
    assert!(near(p[0], c(-0.5, 0.0)));
    assert!(near(k, c(3.0, 0.0)));
}

#[test]
fn band_pass_lists_upper_roots_then_lower_roots() {
    let zpk = prototype(&[c(0.0, 2.0)], &butterworth3(), 1.0);
    let plan = zpk.sftrans([num(1.0), num(3.0)], false).unwrap();
    assert_eq!(plan.target, Target::BandPass { low: num(1.0), high: num(3.0) });
    assert_eq!(
        plan.poles,
        vec![
            RootRule::Pass(0, Branch::Upper),
            RootRule::Pass(1, Branch::Upper),
            RootRule::Pass(2, Branch::Upper),
            RootRule::Pass(0, Branch::Lower),
            RootRule::Pass(1, Branch::Lower),
            RootRule::Pass(2, Branch::Lower),
        ]
    );
    assert_eq!(
        plan.zeros,
        vec![
            RootRule::Pass(0, Branch::Upper),
            RootRule::Pass(0, Branch::Lower),
            RootRule::Origin,
            RootRule::Origin,
        ]
    );
    assert_eq!(plan.gain, GainRule::Power { exponent: 2 });
    let (_, _, k) = evaluate(&plan, &zpk);
    assert!(near(k, c(4.0, 0.0)));
}

#[test]
fn band_pass_doubles_a_single_pole() {
    for (pole, low, high) in [
        (c(-1.0, 0.0), 1.0, 2.0),
        (c(-1.0, 0.0), 0.1, 10.0),
        (c(-0.5, 0.75f64.sqrt()), 2.0, 2.5),
    ] {
        let zpk = prototype(&[], &[pole], 1.0);
        let plan = zpk.sftrans([num(low), num(high)], false).unwrap();
        let (z, p, _) = evaluate(&plan, &zpk);
        assert_eq!(p.len(), 2);
        assert_eq!(z, vec![c(0.0, 0.0)]);
        let b = pole * ((high - low) / 2.0);
        assert!(near(p[0] * p[1], c(low * high, 0.0)));
        assert!(near(p[0] + p[1], 2.0 * b));
    }
}

#[test]
fn band_stop_pads_zeros_on_the_imaginary_axis() {
    let zpk = prototype(&[c(0.0, 2.0)], &butterworth3(), 1.0);
    let plan = zpk.sftrans([num(1.0), num(4.0)], true).unwrap();
    assert_eq!(plan.target, Target::BandStop { low: num(1.0), high: num(4.0) });
    assert_eq!(plan.poles.len(), 6);
    assert_eq!(plan.poles[2], RootRule::Stop(2, Branch::Upper));
    assert_eq!(plan.poles[3], RootRule::Stop(0, Branch::Lower));
    assert_eq!(
        plan.zeros,
        vec![
            RootRule::Stop(0, Branch::Upper),
            RootRule::Stop(0, Branch::Lower),
            RootRule::Edge(Branch::Lower),
            RootRule::Edge(Branch::Upper),
            RootRule::Edge(Branch::Lower),
            RootRule::Edge(Branch::Upper),
        ]
    );
    assert_eq!(plan.gain, GainRule::Products { zeros: true });
    let (z, p, _) = evaluate(&plan, &zpk);
    assert!(near(z[2], c(0.0, -2.0)));
    assert!(near(z[3], c(0.0, 2.0)));
    // each pair of poles multiplies to the product of the edges
    for i in 0..3 {
        assert!(near(p[i] * p[i + 3], c(4.0, 0.0)));
    }
}

#[test]
fn a_prototype_with_as_many_zeros_as_poles_is_not_padded() {
    let zpk = prototype(&[c(0.0, 1.0)], &[c(-1.0, 0.0)], 1.0);
    for stop in [false, true] {
        assert_eq!(zpk.sftrans([num(2.0)], stop).unwrap().zeros.len(), 1);
        assert_eq!(zpk.sftrans([num(2.0), num(3.0)], stop).unwrap().zeros.len(), 2);
    }
    assert_eq!(zpk.sftrans([num(2.0)], false).unwrap().gain, GainRule::Power { exponent: 0 });
}
