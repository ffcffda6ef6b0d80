use natal_chart_solver::segments::{
    close_open_window, open_window_at_start, process_monotonic_segment, segment_has_interior_station,
    segment_needs_boundary_crossing,
};
use natal_chart_solver::segments::WindowSweep;
use natal_chart_solver::windows::Window;

fn bits(x: f64) -> u64 {
    x.to_bits()
}

fn w(a: f64, b: f64) -> Window {
    (a.to_bits(), b.to_bits())
}

#[test]
fn brackets_only_stations_inside_a_coarse_segment() {
    assert!(segment_has_interior_station(bits(0.5), bits(-0.5)));
    assert!(!segment_has_interior_station(bits(0.0), bits(-0.5)));
    assert!(!segment_has_interior_station(bits(0.5), bits(0.0)));
    assert!(!segment_has_interior_station(bits(5e-12), bits(-0.5)));
    assert!(!segment_has_interior_station(bits(0.5), bits(-5e-12)));
    assert!(!segment_has_interior_station(bits(0.5), bits(0.25)));
}

#[test]
fn station_detection_uses_a_strict_tolerance() {
    assert!(!segment_has_interior_station(bits(6e-12), bits(-0.5)));
    assert!(segment_has_interior_station(bits(7e-12), bits(-7e-12)));
    assert!(segment_has_interior_station(bits(-2.0), bits(1.0)));
    assert!(!segment_has_interior_station(bits(f64::NAN), bits(-1.0)));
}

#[test]
fn entering_then_leaving_emits_one_window() {
    let mut open = open_window_at_start(bits(0.0), false);
    let mut output: Vec<Window> = Vec::new();
    assert_eq!(open, None);
    assert!(segment_needs_boundary_crossing(bits(0.0), bits(1.0), false, true));
    process_monotonic_segment(bits(0.0), bits(1.0), false, true, Some(bits(0.25)), &mut open, &mut output);
    assert_eq!(open, Some(bits(0.25)));
    assert!(output.is_empty());
    assert!(!segment_needs_boundary_crossing(bits(1.0), bits(2.0), true, true));
    process_monotonic_segment(bits(1.0), bits(2.0), true, true, None, &mut open, &mut output);
    assert_eq!(open, Some(bits(0.25)));
    process_monotonic_segment(bits(2.0), bits(3.0), true, false, Some(bits(2.5)), &mut open, &mut output);
    assert_eq!(open, None);
    assert_eq!(output, vec![w(0.25, 2.5)]);
    process_monotonic_segment(bits(3.0), bits(4.0), false, false, None, &mut open, &mut output);
    close_open_window(open, bits(4.0), &mut output);
    assert_eq!(output, vec![w(0.25, 2.5)]);
}

#[test]
fn windows_open_at_the_range_edges_are_clipped_to_them() {
    let mut open = open_window_at_start(bits(10.0), true);
    let mut output: Vec<Window> = Vec::new();
    assert_eq!(open, Some(bits(10.0)));
    process_monotonic_segment(bits(10.0), bits(20.0), true, true, None, &mut open, &mut output);
    close_open_window(open, bits(20.0), &mut output);
    assert_eq!(output, vec![w(10.0, 20.0)]);

    let mut open = None;
    let mut output: Vec<Window> = Vec::new();
    process_monotonic_segment(bits(10.0), bits(20.0), true, true, None, &mut open, &mut output);
    assert_eq!(open, Some(bits(10.0)));
    process_monotonic_segment(bits(20.0), bits(30.0), true, false, Some(bits(25.0)), &mut open, &mut output);
    assert_eq!(output, vec![w(10.0, 25.0)]);
}

#[test]
fn exit_without_open_window_starts_at_the_segment() {
    let mut open = None;
    let mut output: Vec<Window> = Vec::new();
    process_monotonic_segment(bits(5.0), bits(6.0), true, false, Some(bits(5.5)), &mut open, &mut output);
    assert_eq!(output, vec![w(5.0, 5.5)]);
    process_monotonic_segment(bits(6.0), bits(7.0), true, false, Some(bits(6.0)), &mut open, &mut output);
    assert_eq!(output, vec![w(5.0, 5.5)]);
}

#[test]
fn empty_segments_change_nothing() {
    let mut open = Some(bits(1.0));
    let mut output: Vec<Window> = Vec::new();
    assert!(!segment_needs_boundary_crossing(bits(2.0), bits(2.0), true, false));
    process_monotonic_segment(bits(2.0), bits(2.0), true, false, None, &mut open, &mut output);
    process_monotonic_segment(bits(3.0), bits(2.0), false, true, None, &mut open, &mut output);
    assert_eq!(open, Some(bits(1.0)));
    assert!(output.is_empty());
    close_open_window(Some(bits(4.0)), bits(4.0), &mut output);
    close_open_window(None, bits(4.0), &mut output);
    assert!(output.is_empty());
}

#[test]
fn sweep_emits_ordered_windows_inside_its_window() {
    // A body that enters, leaves, re-enters during a retrograde loop, and is
    // still in the sign at the end of the window [0, 40].
    let segments: [(f64, f64, bool, bool, Option<f64>); 6] = [
        (0.0, 5.0, false, true, Some(3.0)),
        (5.0, 10.0, true, true, None),
        (10.0, 15.0, true, false, Some(12.0)),
        (15.0, 20.0, false, false, None),
        (20.0, 30.0, false, true, Some(26.0)),
        (30.0, 40.0, true, true, None),
    ];
    let mut open = open_window_at_start(bits(0.0), false);
    let mut output: Vec<Window> = Vec::new();
    for (start, end, start_valid, end_valid, crossing) in segments {
        process_monotonic_segment(bits(start), bits(end), start_valid, end_valid, crossing.map(bits), &mut open, &mut output);
    }
    close_open_window(open, bits(40.0), &mut output);
    assert_eq!(output, vec![w(3.0, 12.0), w(26.0, 40.0)]);
    let mut previous_end = 0.0;
    for &(a, b) in &output {
        let (a, b) = (f64::from_bits(a), f64::from_bits(b));
        assert!(previous_end <= a && a < b && b <= 40.0);
        previous_end = b;
    }
}

#[test]
fn window_sweep_clips_segments_and_stops_at_the_window_end() {
    let mut sweep = WindowSweep::new(bits(0.0), bits(10.0), true);
    assert_eq!(sweep.window(), w(0.0, 10.0));
    assert_eq!(sweep.frontier(), bits(0.0));
    assert!(!sweep.is_done());
    assert_eq!(sweep.segment_end(bits(4.0)), bits(4.0));
    assert_eq!(sweep.segment_end(bits(14.0)), bits(10.0));
    assert_eq!(sweep.segment_end(bits(f64::NAN)), bits(10.0));

    // A station at 3.0 splits the first coarse segment [0, 4].
    assert!(sweep.accepts_segment(bits(3.0), true, true, None));
    sweep.advance(bits(3.0), true, true, None);
    assert!(sweep.accepts_segment(bits(4.0), true, false, Some(bits(3.5))));
    sweep.advance(bits(4.0), true, false, Some(bits(3.5)));
    assert_eq!(sweep.frontier(), bits(4.0));
    let end = sweep.segment_end(bits(8.0));
    sweep.advance(end, false, true, Some(bits(6.0)));
    let end = sweep.segment_end(bits(12.0));
    assert_eq!(end, bits(10.0));
    sweep.advance(end, true, true, None);
    assert!(sweep.is_done());
    assert_eq!(sweep.finish(), vec![w(0.0, 3.5), w(6.0, 10.0)]);
}

#[test]
fn window_sweep_refuses_segments_that_break_its_order() {
    let mut sweep = WindowSweep::new(bits(0.0), bits(10.0), false);
    sweep.advance(bits(5.0), false, false, None);
    assert!(!sweep.accepts_segment(bits(4.0), false, false, None));
    assert!(!sweep.accepts_segment(bits(11.0), false, false, None));
    assert!(!sweep.accepts_segment(bits(6.0), false, true, None));
    assert!(!sweep.accepts_segment(bits(6.0), false, true, Some(bits(7.0))));
    assert!(!sweep.accepts_segment(bits(6.0), false, true, Some(bits(4.0))));
    assert!(!sweep.accepts_segment(bits(f64::NAN), false, false, None));
    assert!(sweep.accepts_segment(bits(6.0), false, true, Some(bits(5.5))));
    assert!(sweep.accepts_segment(bits(5.0), true, false, None));
}

#[test]
fn empty_or_nan_windows_yield_nothing() {
    let sweep = WindowSweep::new(bits(5.0), bits(5.0), true);
    assert!(sweep.is_done());
    assert!(sweep.finish().is_empty());
    let sweep = WindowSweep::new(bits(6.0), bits(5.0), true);
    assert!(sweep.is_done());
    assert!(sweep.finish().is_empty());
    let sweep = WindowSweep::new(bits(f64::NAN), bits(5.0), true);
    assert!(sweep.is_done());
    assert!(sweep.finish().is_empty());
    let sweep = WindowSweep::new(bits(1.0), bits(5.0), true);
    assert_eq!(sweep.finish(), vec![w(1.0, 5.0)]);
}

#[test]
fn sweep_windows_are_exactly_the_in_sign_dates() {
    // (end, in sign at start, in sign at end, crossing); segments tile [0, 40]
    // and each starts with the flag the previous one ended with.
    let segments: [(f64, bool, bool, Option<f64>); 8] = [
        (4.0, true, true, None),
        (4.0, true, true, None),
        (7.0, true, false, Some(5.5)),
        (9.0, false, false, None),
        (15.0, false, true, Some(12.25)),
        (18.0, true, false, Some(18.0)),
        (25.0, false, true, Some(20.0)),
        (40.0, true, true, None),
    ];
    let mut sweep = WindowSweep::new(bits(0.0), bits(40.0), true);
    let mut starts = Vec::new();
    for &(end, start_valid, end_valid, crossing) in &segments {
        starts.push(f64::from_bits(sweep.frontier()));
        let crossing = crossing.map(bits);
        assert!(sweep.accepts_segment(bits(end), start_valid, end_valid, crossing));
        sweep.advance(bits(end), start_valid, end_valid, crossing);
    }
    assert!(sweep.is_done());
    let found = sweep.finish();
    let in_sign = |t: f64| {
        segments.iter().zip(&starts).any(|(&(end, sv, ev, crossing), &start)| {
            start <= t && t < end && match (sv, ev, crossing) {
                (true, true, _) => true,
                (false, true, Some(c)) => c <= t,
                (true, false, Some(c)) => t < c,
                _ => false,
            }
        })
    };
    let covered = |t: f64| found.iter().any(|&(a, b)| f64::from_bits(a) <= t && t < f64::from_bits(b));
    let mut t = -1.0;
    while t < 41.0 {
        assert_eq!(covered(t), in_sign(t), "t = {t}");
        t += 0.125;
    }
    assert_eq!(found, vec![w(0.0, 5.5), w(12.25, 18.0), w(20.0, 40.0)]);
}
