use signal_processing::gen::butter::Butter;
use signal_processing::gen::filter::cheby2::{Cheby2, Cheby2Plan};
use signal_processing::gen::filter::design::{
    any_exceeds, is_nondecreasing, plan_filter, select_edges, Edges, FilterGenError,
    FilterGenPlane, FilterGenType, FilterPlan,
};
use signal_processing::gen::filter::sgolay::{mirror, RowRule, SGolay, SGolayError, SGolayPlan};

fn sgolay(order: usize, numtaps: usize, derivative: usize) -> Result<SGolayPlan, SGolayError> {
    SGolay::sgolay(order, numtaps, derivative)
}
use signal_processing::plot::{is_legible, pick_colour};
use signal_processing::quantities::complex::Complex;
use signal_processing::quantities::scalar::Real;
use signal_processing::window::hamming::Hamming;
use signal_processing::window::sine::Sine;
use signal_processing::window::welch::Welch;
use signal_processing::window::{window_grid, Window, WindowGen, WindowRange};

fn num(x: f64) -> Real {
    Real { bits: x.to_bits() }
}

fn complex(re: f64, im: f64) -> Complex {
    Complex { re: num(re), im: num(im) }
}

fn grid(w: Window) -> (usize, usize) {
    match w {
        Window::Grid { len, period } => (len, period),
        Window::Samples(_) => panic!("the window is to be sampled"),
    }
}

fn samples(w: Window) -> Vec<Real> {
    match w {
        Window::Samples(samples) => samples,
        Window::Grid { .. } => panic!("the window is constant"),
    }
}

#[test]
fn sgolay_test() {
    let plan = sgolay(4, 21, 0).unwrap();
    assert_eq!(plan.numtaps, 21);
    assert_eq!(plan.order, 4);
    assert_eq!(plan.derivative, 0);
    assert_eq!(plan.rows.len(), 21);
    for row in 0..=10 {
        assert_eq!(plan.rows[row], RowRule::Fitted(row));
    }
    for row in 11..21 {
        assert_eq!(plan.rows[row], RowRule::Mirrored { source: 20 - row, negate: false });
    }
}

#[test]
fn sgolay_negates_mirrored_filters_of_odd_derivatives() {
    let plan = sgolay(2, 5, 1).unwrap();
    assert_eq!(
        plan.rows,
        vec![
            RowRule::Fitted(0),
            RowRule::Fitted(1),
            RowRule::Fitted(2),
            RowRule::Mirrored { source: 1, negate: true },
            RowRule::Mirrored { source: 0, negate: true },
        ]
    );
    assert_eq!(sgolay(2, 5, 2).unwrap().rows[4], RowRule::Mirrored { source: 0, negate: false });
    assert_eq!(sgolay(0, 1, 0).unwrap().rows, vec![RowRule::Fitted(0)]);
}

#[test]
fn sgolay_refuses_what_does_not_fit() {
    assert_eq!(sgolay(2, 6, 0).unwrap_err(), SGolayError::EvenFilterLength);
    assert_eq!(sgolay(9, 0, 9).unwrap_err(), SGolayError::EvenFilterLength);
    assert_eq!(sgolay(5, 5, 7).unwrap_err(), SGolayError::OrderOutOfRange);
    assert_eq!(sgolay(4, 5, 5).unwrap_err(), SGolayError::DerivativeOutOfRange);
    assert!(sgolay(4, 5, 4).is_ok());
}

#[test]
fn sgolay_errors_describe_themselves() {
    assert_eq!(SGolayError::OrderOutOfRange.message(), "Order must be less than number of taps.");
    assert_eq!(
        SGolayError::DerivativeOutOfRange.message(),
        "Derivative must be less than number of taps."
    );
    assert_eq!(SGolayError::EvenFilterLength.message(), "Number of taps must be odd.");
}

#[test]
fn mirror_reverses_and_negates() {
    let taps = vec![complex(1.0, 0.0), complex(-2.0, 0.5), complex(0.0, 0.0)];
    assert_eq!(
        mirror(&taps, false),
        vec![complex(0.0, 0.0), complex(-2.0, 0.5), complex(1.0, 0.0)]
    );
    assert_eq!(
        mirror(&taps, true),
        vec![complex(-0.0, -0.0), complex(2.0, -0.5), complex(-1.0, -0.0)]
    );
    assert_eq!(mirror(&mirror(&taps, true), true), taps);
}

#[test]
fn butter_test() {
    // a digital low-pass of order 2 with its critical frequency at 40 of 500
    let plan: FilterPlan =
        Butter::butter(2, [num(40.0 / 500.0)], FilterGenType::LowPass, Some(num(1.0))).unwrap();
    assert_eq!(
        plan,
        FilterPlan { order: 2, stop: false, edges: Edges::One(0), digital: true }
    );
}

#[test]
fn cheby2_test() {
    let plan: Cheby2Plan =
        Cheby2::cheby2(5, num(60.0), [num(0.08)], FilterGenType::LowPass, Some(num(1.0))).unwrap();
    assert_eq!(
        plan,
        Cheby2Plan {
            filter: FilterPlan { order: 5, stop: false, edges: Edges::One(0), digital: true },
            ripple: num(60.0),
        }
    );
    let refused: Result<Cheby2Plan, FilterGenError> =
        Cheby2::cheby2(0, num(60.0), [num(0.08)], FilterGenType::LowPass, None);
    assert_eq!(refused.unwrap_err(), FilterGenError::ZeroOrder);
}

#[test]
fn filter_types_tell_stop_and_band() {
    assert!(!FilterGenType::LowPass.stop() && !FilterGenType::LowPass.band());
    assert!(FilterGenType::HighPass.stop() && !FilterGenType::HighPass.band());
    assert!(!FilterGenType::BandPass.stop() && FilterGenType::BandPass.band());
    assert!(FilterGenType::BandStop.stop() && FilterGenType::BandStop.band());
}

#[test]
fn edges_are_selected_by_type_and_number() {
    assert_eq!(select_edges(FilterGenType::LowPass, 1), Edges::One(0));
    assert_eq!(select_edges(FilterGenType::HighPass, 1), Edges::One(0));
    assert_eq!(select_edges(FilterGenType::LowPass, 2), Edges::One(1));
    assert_eq!(select_edges(FilterGenType::HighPass, 2), Edges::One(0));
    assert_eq!(select_edges(FilterGenType::BandPass, 1), Edges::Two(0, 0));
    assert_eq!(select_edges(FilterGenType::BandStop, 1), Edges::Two(0, 0));
    assert_eq!(select_edges(FilterGenType::BandPass, 2), Edges::Two(0, 1));
    assert_eq!(select_edges(FilterGenType::BandStop, 2), Edges::Two(0, 1));
}

#[test]
fn filter_requests_are_refused_in_order() {
    let band = FilterGenType::BandPass;
    assert_eq!(
        plan_filter(0, [num(3.0), num(2.0)], band, Some(num(1.0))).unwrap_err(),
        FilterGenError::ZeroOrder
    );
    assert_eq!(
        plan_filter(1, [num(3.0), num(2.0)], band, Some(num(1.0))).unwrap_err(),
        FilterGenError::FrequenciesNotNondecreasing
    );
    assert_eq!(
        plan_filter(1, [num(f64::NAN), num(2.0)], band, None).unwrap_err(),
        FilterGenError::FrequenciesNotNondecreasing
    );
    assert_eq!(
        plan_filter(1, [num(0.5), num(2.0)], band, Some(num(1.0))).unwrap_err(),
        FilterGenError::FrequenciesOutOfRange
    );
    assert_eq!(
        plan_filter(3, [num(0.5), num(2.0)], band, None).unwrap(),
        FilterPlan { order: 3, stop: false, edges: Edges::Two(0, 1), digital: false }
    );
    assert_eq!(
        plan_filter(3, [num(0.5), num(0.5)], FilterGenType::BandStop, Some(num(0.5))).unwrap(),
        FilterPlan { order: 3, stop: true, edges: Edges::Two(0, 0 + 1), digital: true }
    );
}

#[test]
fn frequencies_are_compared_as_numbers() {
    assert!(is_nondecreasing(&[num(-0.0), num(0.0)]));
    assert!(is_nondecreasing(&[num(0.0), num(-0.0)]));
    assert!(is_nondecreasing(&[num(1.0)]));
    assert!(is_nondecreasing(&[num(f64::NAN)]));
    assert!(!is_nondecreasing(&[num(1.0), num(f64::NAN)]));
    assert!(!is_nondecreasing(&[num(1.0), num(2.0), num(1.5)]));
    assert!(any_exceeds(&[num(0.1), num(0.6)], num(0.5)));
    assert!(!any_exceeds(&[num(0.1), num(0.5)], num(0.5)));
    assert!(!any_exceeds(&[num(f64::NAN)], num(0.5)));
}

#[test]
fn sine_test() {
    assert_eq!(grid(Sine.window_gen(512, WindowRange::Symmetric)), (512, 511));
    assert_eq!(grid(Sine.window_gen(512, WindowRange::Periodic)), (512, 512));
}

#[test]
fn welch_test() {
    assert_eq!(grid(Welch.window_gen(512, WindowRange::Symmetric)), (512, 511));
    assert_eq!(grid(Welch.window_gen(2, WindowRange::Symmetric)), (2, 1));
}

#[test]
fn hamming_test() {
    assert_eq!(grid(Hamming.window_gen(512, WindowRange::Symmetric)), (512, 511));
    assert_eq!(grid(Hamming.window_gen(3, WindowRange::Periodic)), (3, 3));
}

#[test]
fn short_windows_are_constant_one() {
    for range in [WindowRange::Symmetric, WindowRange::Periodic] {
        assert_eq!(samples(window_grid(0, range)), vec![]);
        assert_eq!(samples(window_grid(1, range)), vec![num(1.0)]);
        assert_eq!(samples(Sine.window_gen(1, range)), vec![num(1.0)]);
        assert_eq!(samples(Welch.window_gen(0, range)), vec![]);
        assert_eq!(samples(Hamming.window_gen(1, range)), vec![num(1.0)]);
    }
}

#[test]
fn colours_are_picked_that_show_on_white() {
    assert!(is_legible((0, 0, 0)));
    assert!(is_legible((255, 203, 0)));
    assert!(!is_legible((255, 204, 0)));
    assert!(!is_legible((255, 255, 255)));
    let palette = vec![(255, 255, 255), (10, 20, 30), (250, 250, 250), (255, 0, 0)];
    assert_eq!(pick_colour(&palette, 0), Some(1));
    assert_eq!(pick_colour(&palette, 1), Some(1));
    assert_eq!(pick_colour(&palette, 2), Some(3));
    assert_eq!(pick_colour(&palette, 4), Some(5));
    assert_eq!(pick_colour(&palette, 6), Some(7));
    assert_eq!(pick_colour(&vec![(255, 255, 255)], 0), None);
    assert_eq!(pick_colour(&vec![], 3), None);
    assert_eq!(pick_colour(&palette, usize::MAX - 2), None);
}

#[test]
fn digital_filters_are_sampled_at_two_by_default() {
    assert_eq!(FilterGenPlane::S.sampling_frequency(), None);
    assert_eq!(
        FilterGenPlane::Z { sampling_frequency: None }.sampling_frequency(),
        Some(num(2.0))
    );
    assert_eq!(
        FilterGenPlane::Z { sampling_frequency: Some(num(1000.0)) }.sampling_frequency(),
        Some(num(1000.0))
    );
}
