use num::complex::Complex64;
use signal_processing::decompositions::cluster::PoleCluster;
use signal_processing::decompositions::factors::compute_residue_factors;
use signal_processing::decompositions::residue::{Decomposition, PartialFractions};
use signal_processing::decompositions::residuez::{reverse_conj, ResidueZ};
use signal_processing::quantities::complex::Complex;
use signal_processing::quantities::roots::Roots;
use signal_processing::quantities::scalar::Real;
use signal_processing::quantities::table::PairTable;
use signal_processing::systems::rpk::Rpk;
use signal_processing::systems::tf::Tf;

fn num(x: f64) -> Real {
    Real { bits: x.to_bits() }
}

fn pack(c: Complex64) -> Complex {
    Complex { re: num(c.re), im: num(c.im) }
}

fn unpack(c: Complex) -> Complex64 {
    Complex64::new(f64::from_bits(c.re.bits), f64::from_bits(c.im.bits))
}

fn c(re: f64, im: f64) -> Complex64 {
    Complex64::new(re, im)
}

fn pack_all(values: &[Complex64]) -> Vec<Complex> {
    values.iter().map(|&x| pack(x)).collect()
}

fn unpack_all(values: &[Complex]) -> Vec<Complex64> {
    values.iter().map(|&x| unpack(x)).collect()
}

fn reals(values: &[f64]) -> Vec<Complex64> {
    values.iter().map(|&x| c(x, 0.0)).collect()
}

fn measure(roots: &[Complex64]) -> Roots {
    let norms = roots.iter().map(|p| num(p.norm_sqr())).collect();
    let gaps = roots
        .iter()
        .map(|p| roots.iter().map(|q| num((p - q).norm())).collect())
        .collect();
    Roots::new(pack_all(roots), norms, PairTable::from_rows(gaps).unwrap()).unwrap()
}

fn polyval(p: &[Complex64], s: Complex64) -> Complex64 {
    p.iter().fold(c(0.0, 0.0), |y, &a| y * s + a)
}

fn polymul(a: &[Complex64], b: &[Complex64]) -> Vec<Complex64> {
    if a.is_empty() || b.is_empty() {
        return vec![];
    }
    let mut y = vec![c(0.0, 0.0); a.len() + b.len() - 1];
    for (i, &x) in a.iter().enumerate() {
        for (j, &w) in b.iter().enumerate() {
            y[i + j] += x * w;
        }
    }
    y
}

fn polyadd(a: &[Complex64], b: &[Complex64], sign: f64) -> Vec<Complex64> {
    let n = a.len().max(b.len());
    let mut y = vec![c(0.0, 0.0); n];
    for (i, &x) in a.iter().enumerate() {
        y[n - a.len() + i] += x;
    }
    for (i, &x) in b.iter().enumerate() {
        y[n - b.len() + i] += x * sign;
    }
    y
}

fn polydiv(b: &[Complex64], a: &[Complex64]) -> (Vec<Complex64>, Vec<Complex64>) {
    if b.len() < a.len() {
        return (vec![], b.to_vec());
    }
    let mut rem = b.to_vec();
    let mut quot = vec![c(0.0, 0.0); b.len() - a.len() + 1];
    for i in 0..quot.len() {
        let q = rem[i] / a[0];
        quot[i] = q;
        for (j, &x) in a.iter().enumerate() {
            rem[i + j] -= q * x;
        }
    }
    let rest = rem[quot.len()..].to_vec();
    (quot, rest)
}

fn power_product(clusters: &[PoleCluster], exponents: &[usize]) -> Vec<Complex64> {
    let mut y = vec![c(1.0, 0.0)];
    for (cluster, &e) in clusters.iter().zip(exponents) {
        for _ in 0..e {
            y = polymul(&y, &[c(1.0, 0.0), -unpack(cluster.pole)]);
        }
    }
    y
}

fn residues(plan: &PartialFractions, numer: &[Complex64], lead: Complex64) -> Vec<Complex> {
    let (factors, _) = compute_residue_factors(&plan.clusters, false);
    let mut extracted: Vec<Vec<Complex64>> = vec![];
    for (cluster, exponents) in plan.clusters.iter().zip(&factors) {
        let monomial = [c(1.0, 0.0), -unpack(cluster.pole)];
        let (reduced, d) = polydiv(&power_product(&plan.clusters, exponents), &monomial);
        let mut running = numer.to_vec();
        let mut block = vec![];
        for _ in 0..cluster.multiplicity {
            let (next, n) = polydiv(&running, &monomial);
            let r = n.first().map_or(c(0.0, 0.0), |&n| n / d[0]);
            running = polyadd(&next, &polymul(&reduced, &[r]), -1.0);
            block.push(r);
        }
        extracted.push(block);
    }
    plan.terms
        .iter()
        .map(|term| pack(extracted[term.cluster][term.step] / lead))
        .collect()
}

/// Maps each term to the other variable.
fn change_variable(rpk: &Rpk) -> Rpk {
    let terms = rpk
        .rp
        .iter()
        .zip(rpk.pole_orders())
        .map(|(&(r, p), m)| {
            let p = unpack(p).inv();
            (pack(unpack(r) * (-p).powi(m as i32)), pack(p))
        })
        .collect();
    rpk.change_variable(terms)
}

fn complete(d: Decomposition, tf: &Tf) -> Rpk {
    match d {
        Decomposition::Done(rpk) => rpk,
        Decomposition::Pending(plan) => {
            let (b, a) = (unpack_all(&tf.b), unpack_all(&tf.a));
            let (k, r) = polydiv(&b, &a);
            plan.finish(&residues(&plan, &r, a[0]), pack_all(&k))
        },
    }
}

fn residuez(tf: &Tf, roots_of_reversed_denominator: &[Complex64]) -> Rpk {
    let d = tf.residuez(&measure(roots_of_reversed_denominator), None);
    change_variable(&complete(d, &tf.reversed_conj()))
}

/// The transfer function with the partial fractions of `rpk` summed up.
fn synthesize(rpk: &Rpk) -> Tf {
    let clusters = rpk.pole_clusters();
    let (factors, denominator) = compute_residue_factors(&clusters, true);
    let a = power_product(&clusters, &denominator);
    let mut b = polymul(&unpack_all(&rpk.k), &a);
    for (&(r, _), exponents) in rpk.rp.iter().zip(&factors) {
        b = polyadd(&b, &polymul(&power_product(&clusters, exponents), &[unpack(r)]), 1.0);
    }
    Tf::new(pack_all(&b), pack_all(&a))
}

fn inverse_residuez(rpk: &Rpk) -> Tf {
    synthesize(&change_variable(rpk)).reversed_conj()
}

/// The value at `z` of a rational function of `1/z`.
fn respond(tf: &Tf, z: Complex64) -> Complex64 {
    let x = z.inv();
    let rising = |p: &[Complex]| p.iter().rev().fold(c(0.0, 0.0), |y, &a| y * x + unpack(a));
    rising(&tf.b) / rising(&tf.a)
}

/// The value at `z` of a decomposition in `1/z`.
fn evaluate(rpk: &Rpk, z: Complex64) -> Complex64 {
    let x = z.inv();
    let mut y = rpk.k.iter().rev().fold(c(0.0, 0.0), |y, &a| y * x + unpack(a));
    for (&(r, p), m) in rpk.rp.iter().zip(rpk.pole_orders()) {
        y += unpack(r) / (c(1.0, 0.0) - unpack(p) * x).powi(m as i32);
    }
    y
}

fn close(x: Complex64, y: Complex64, tol: f64) -> bool {
    (x - y).norm() <= tol * y.norm().max(1.0)
}

fn points() -> Vec<Complex64> {
    vec![c(1.0, 0.0), c(0.0, 1.0), c(-1.0, 0.0), c(0.6, -0.8), c(2.0, 3.0)]
}

#[test]
fn residuez_test() {
    let h = Tf::new(pack_all(&reals(&[4.0, 5.0, 6.0])), pack_all(&reals(&[1.0, 2.0, 3.0])));
    // the roots of 3 x^2 + 2 x + 1
    let d = c(-8.0, 0.0).sqrt();
    let roots = [(-2.0 + d) / 6.0, (-2.0 - d) / 6.0];
    let rpk = residuez(&h, &roots);
    println!("{:?}", rpk);
    assert_eq!(rpk.rp.len(), 2);
    assert_eq!(rpk.k.len(), 1);
    assert!(close(unpack(rpk.k[0]), c(2.0, 0.0), 1e-12));
    for z in points() {
        assert!(close(evaluate(&rpk, z), respond(&h, z), 1e-9));
    }

    let back = inverse_residuez(&rpk);
    println!("\n{:?}", back);
    for z in points() {
        assert!(close(respond(&back, z), respond(&h, z), 1e-9));
    }
}

#[test]
fn residuez_round_trip_reproduces_the_coefficients() {
    let b = reals(&[1.0, -0.5, 0.25, 2.0]);
    let poles = [c(0.5, 0.0), c(-0.25, 0.5), c(-0.25, -0.5)];
    // A(x) = (1 - 0.5 x)(1 - (-0.25 + 0.5i) x)(1 - (-0.25 - 0.5i) x), x = 1/z
    let mut a = vec![c(1.0, 0.0)];
    for &p in &poles {
        a = polymul(&a, &[-p, c(1.0, 0.0)]);
    }
    a.reverse();
    let h = Tf::new(pack_all(&b), pack_all(&a));
    let roots: Vec<Complex64> = poles.iter().map(|p| p.inv()).collect();
    let rpk = residuez(&h, &roots);
    assert_eq!(rpk.rp.len(), 3);
    // by rising squared magnitude of the reciprocals
    for (&(_, p), &expected) in rpk.rp.iter().zip(&[poles[1], poles[2], poles[0]]) {
        assert!(close(unpack(p), expected, 1e-12));
    }
    let back = inverse_residuez(&rpk);
    let scale = unpack(back.a[0]);
    assert_eq!(back.a.len(), a.len());
    assert_eq!(back.b.len(), b.len());
    for (&x, &expected) in back.a.iter().zip(&a) {
        assert!(close(unpack(x) / scale, expected, 1e-9));
    }
    for (&x, &expected) in back.b.iter().zip(&b) {
        assert!(close(unpack(x) / scale, expected, 1e-9));
    }
}

#[test]
fn repeated_pole_in_the_z_domain() {
    // H = 1 / (1 - 0.5/z)^2
    let h = Tf::new(pack_all(&reals(&[1.0])), pack_all(&reals(&[1.0, -1.0, 0.25])));
    let rpk = residuez(&h, &[c(2.0, 0.0), c(2.0, 0.0)]);
    assert_eq!(rpk.pole_orders(), vec![1, 2]);
    assert!(close(unpack(rpk.rp[0].1), c(0.5, 0.0), 1e-15));
    assert!(close(unpack(rpk.rp[0].0), c(0.0, 0.0), 1e-12));
    assert!(close(unpack(rpk.rp[1].0), c(1.0, 0.0), 1e-12));
    for z in points() {
        assert!(close(evaluate(&rpk, z), respond(&h, z), 1e-9));
    }
}

#[test]
fn coefficients_are_reversed_and_conjugated() {
    let x = pack_all(&[c(1.0, 2.0), c(3.0, -4.0), c(5.0, 0.0)]);
    assert_eq!(reverse_conj(&x), pack_all(&[c(5.0, -0.0), c(3.0, 4.0), c(1.0, -2.0)]));
    assert_eq!(reverse_conj(&reverse_conj(&x)), x);
    assert_eq!(reverse_conj(&vec![]), vec![]);
    let tf = Tf::new(x.clone(), pack_all(&[c(0.0, 1.0), c(2.0, 0.0)])).reversed_conj();
    assert_eq!(tf.b, reverse_conj(&x));
    assert_eq!(tf.a, pack_all(&[c(2.0, -0.0), c(0.0, -1.0)]));
}

#[test]
fn orders_count_the_places_within_runs_of_equal_poles() {
    let r = pack(c(1.0, 0.0));
    let poles = [
        c(1.0, 0.0),
        c(1.0, 0.0),
        c(2.0, 0.0),
        c(1.0, 0.0),
        c(0.0, 0.0),
        c(-0.0, 0.0),
        c(0.0, -0.0),
        c(f64::NAN, 0.0),
        c(f64::NAN, 0.0),
    ];
    let rpk = Rpk::new(poles.iter().map(|&p| (r, pack(p))).collect(), vec![]);
    assert_eq!(rpk.pole_orders(), vec![1, 2, 1, 1, 1, 2, 3, 1, 1]);
    assert_eq!(Rpk::new(vec![], vec![]).pole_orders(), Vec::<usize>::new());
}

#[test]
fn runs_of_equal_poles_make_clusters() {
    let r = pack(c(1.0, 0.0));
    let poles = [c(1.0, 0.0), c(1.0, 0.0), c(2.0, 0.0), c(0.0, 0.0), c(-0.0, 0.0), c(0.0, -0.0)];
    let rpk = Rpk::new(poles.iter().map(|&p| (r, pack(p))).collect(), vec![]);
    assert_eq!(
        rpk.pole_clusters(),
        vec![
            PoleCluster { root: 0, pole: pack(poles[0]), multiplicity: 2 },
            PoleCluster { root: 2, pole: pack(poles[2]), multiplicity: 1 },
            PoleCluster { root: 3, pole: pack(poles[3]), multiplicity: 3 },
        ]
    );
    assert_eq!(Rpk::new(vec![], vec![]).pole_clusters(), vec![]);
}

#[test]
fn change_of_variable_replaces_terms_and_reverses_the_polynomial() {
    let rpk = Rpk::new(
        vec![(pack(c(1.0, 0.0)), pack(c(2.0, 0.0)))],
        pack_all(&[c(1.0, 1.0), c(2.0, 0.0)]),
    );
    let terms = vec![(pack(c(-0.5, 0.0)), pack(c(0.5, 0.0)))];
    let changed = rpk.change_variable(terms.clone());
    assert_eq!(changed.rp, terms);
    assert_eq!(changed.k, pack_all(&[c(2.0, -0.0), c(1.0, -1.0)]));
}
