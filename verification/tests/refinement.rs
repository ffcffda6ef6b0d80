use natal_chart_solver::refinement::{start_search, WindowRefinement};
use natal_chart_solver::segments::WindowSweep;
use natal_chart_solver::validation::SearchInputError;
use natal_chart_solver::windows::Window;

fn bits(x: f64) -> u64 {
    x.to_bits()
}

fn w(a: f64, b: f64) -> Window {
    (a.to_bits(), b.to_bits())
}

fn unbits(v: Vec<u64>) -> Vec<f64> {
    v.into_iter().map(f64::from_bits).collect()
}

/// A finished sweep of `window` that found exactly `found` (ordered, inside
/// the window): each window is entered at its start and left at its end.
fn sweep_finding(window: Window, found: &[(f64, f64)]) -> WindowSweep {
    let mut sweep = WindowSweep::new(window.0, window.1, false);
    for &(a, b) in found {
        assert!(sweep.accepts_segment(bits(a), false, true, Some(bits(a))));
        sweep.advance(bits(a), false, true, Some(bits(a)));
        assert!(sweep.accepts_segment(bits(b), true, false, Some(bits(b))));
        sweep.advance(bits(b), true, false, Some(bits(b)));
    }
    sweep.advance(window.1, false, false, None);
    assert!(sweep.is_done());
    sweep
}

#[test]
fn refinement_without_features_returns_the_range() {
    let refinement = WindowRefinement::new(bits(1.0), bits(5.0), 0);
    assert_eq!(refinement.next_request(), None);
    assert_eq!(unbits(refinement.finish()), vec![1.0, 5.0]);
}

#[test]
fn refinement_intersects_feature_windows() {
    let mut refinement = WindowRefinement::new(bits(0.0), bits(100.0), 2);

    assert_eq!(refinement.next_request(), Some((0, w(0.0, 100.0))));
    refinement = refinement.accept(sweep_finding(w(0.0, 100.0), &[(0.0, 10.0), (10.0, 20.0), (50.0, 60.0)]));

    assert_eq!(refinement.next_request(), Some((1, w(0.0, 20.0))));
    refinement = refinement.accept(sweep_finding(w(0.0, 20.0), &[(5.0, 7.0)]));
    assert_eq!(refinement.next_request(), Some((1, w(50.0, 60.0))));
    refinement = refinement.accept(sweep_finding(w(50.0, 60.0), &[(50.0, 51.0), (59.0, 60.0)]));

    assert_eq!(refinement.next_request(), None);
    assert_eq!(unbits(refinement.finish()), vec![5.0, 7.0, 50.0, 51.0, 59.0, 60.0]);
}

#[test]
fn refinement_stops_sweeping_once_nothing_matches() {
    let mut refinement = WindowRefinement::new(bits(0.0), bits(100.0), 3);
    assert_eq!(refinement.next_request(), Some((0, w(0.0, 100.0))));
    refinement = refinement.accept(sweep_finding(w(0.0, 100.0), &[]));
    assert_eq!(refinement.next_request(), None);
    assert!(refinement.finish().is_empty());
}

#[test]
fn refinement_merges_windows_that_touch_across_sweeps() {
    let mut refinement = WindowRefinement::new(bits(0.0), bits(30.0), 1);
    refinement = refinement.accept(sweep_finding(w(0.0, 30.0), &[(0.0, 12.5), (12.5, 20.0), (25.0, 30.0)]));
    assert_eq!(refinement.next_request(), None);
    assert_eq!(unbits(refinement.finish()), vec![0.0, 20.0, 25.0, 30.0]);
}

#[test]
fn start_search_validates_before_refining() {
    let start = bits(2_453_371.5);
    let end = bits(2_453_736.5);
    let refinement = start_search(start, end, &[10, 0], &[5, 6]).unwrap();
    assert_eq!(refinement.next_request(), Some((0, (start, end))));

    assert!(matches!(start_search(end, start, &[10], &[5]), Err(SearchInputError::StartNotBeforeEnd)));
    assert!(matches!(start_search(start, end, &[10], &[12]), Err(SearchInputError::InvalidSign)));
    assert!(matches!(start_search(start, bits(f64::NAN), &[10], &[5]), Err(SearchInputError::NonFiniteDate)));
}
