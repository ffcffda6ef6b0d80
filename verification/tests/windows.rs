use natal_chart_solver::windows::{flatten_windows, merge_adjacent_or_overlapping_windows, Window};

fn w(a: f64, b: f64) -> Window {
    (a.to_bits(), b.to_bits())
}

#[test]
fn merges_only_adjacent_or_overlapping_windows() {
    let mut windows = vec![w(1.0, 2.0), w(2.0, 3.0), w(2.5, 4.0), w(5.0, 6.0)];

    merge_adjacent_or_overlapping_windows(&mut windows);

    assert_eq!(windows, vec![w(1.0, 4.0), w(5.0, 6.0)]);
}

#[test]
fn leaves_separated_windows_unchanged() {
    let original = vec![w(1.0, 2.0), w(2.5, 3.0), w(10.0, 11.0)];
    let mut windows = original.clone();
    merge_adjacent_or_overlapping_windows(&mut windows);
    assert_eq!(windows, original);

    let mut empty: Vec<Window> = Vec::new();
    merge_adjacent_or_overlapping_windows(&mut empty);
    assert!(empty.is_empty());

    let mut single = vec![w(3.0, 1.0)];
    merge_adjacent_or_overlapping_windows(&mut single);
    assert_eq!(single, vec![w(3.0, 1.0)]);
}

#[test]
fn merge_keeps_the_later_end_of_a_contained_window() {
    let mut windows = vec![w(1.0, 10.0), w(2.0, 3.0), w(4.0, 12.0), w(12.0, 13.0), w(13.5, 14.0)];
    merge_adjacent_or_overlapping_windows(&mut windows);
    assert_eq!(windows, vec![w(1.0, 13.0), w(13.5, 14.0)]);
}

#[test]
fn merge_preserves_covered_dates() {
    let input = vec![w(0.0, 1.0), w(0.5, 1.5), w(1.5, 2.0), w(3.0, 4.0), w(3.5, 3.75)];
    let mut merged = input.clone();
    merge_adjacent_or_overlapping_windows(&mut merged);
    let covers = |ws: &[Window], t: f64| {
        ws.iter().any(|&(a, b)| f64::from_bits(a) <= t && t < f64::from_bits(b))
    };
    let mut t = -1.0;
    while t < 5.0 {
        assert_eq!(covers(&merged, t), covers(&input, t), "t = {t}");
        t += 0.125;
    }
    for pair in merged.windows(2) {
        assert!(f64::from_bits(pair[0].1) < f64::from_bits(pair[1].0));
    }
}

#[test]
fn flattens_windows_into_pairs() {
    let windows = vec![w(1.0, 2.0), w(3.5, 4.5)];
    let flat: Vec<f64> = flatten_windows(&windows).into_iter().map(f64::from_bits).collect();
    assert_eq!(flat, vec![1.0, 2.0, 3.5, 4.5]);
    assert!(flatten_windows(&Vec::new()).is_empty());
}

#[test]
fn merging_twice_changes_nothing() {
    let inputs = vec![
        vec![w(5.0, 6.0), w(1.0, 2.0), w(1.5, 3.0), w(4.0, 3.5), w(3.6, 9.0)],
        vec![w(1.0, 4.0), w(0.0, 1.0), w(2.0, 2.5), w(8.0, 9.0), w(9.0, 9.5)],
        vec![w(3.0, 1.0), w(2.0, 0.5), w(0.6, 4.0)],
    ];
    for input in inputs {
        let mut once = input.clone();
        merge_adjacent_or_overlapping_windows(&mut once);
        let mut twice = once.clone();
        merge_adjacent_or_overlapping_windows(&mut twice);
        assert_eq!(twice, once);
        for pair in once.windows(2) {
            assert!(f64::from_bits(pair[0].1) < f64::from_bits(pair[1].0));
        }
    }
}
