use natal_chart_solver::features::{coarse_step_for_feature, feature_from_id, feature_id, is_supported_feature_id, Feature};

#[test]
fn uses_safe_coarse_step_for_each_supported_feature() {
    assert_eq!(f64::from_bits(coarse_step_for_feature(0)), 3.5);
    assert_eq!(f64::from_bits(coarse_step_for_feature(1)), 12.0);
    assert_eq!(f64::from_bits(coarse_step_for_feature(3)), 18.0);
    assert_eq!(f64::from_bits(coarse_step_for_feature(4)), 60.0);
    assert_eq!(f64::from_bits(coarse_step_for_feature(5)), 67.0);
    assert_eq!(f64::from_bits(coarse_step_for_feature(6)), 75.0);
    assert_eq!(f64::from_bits(coarse_step_for_feature(7)), 78.0);
    assert_eq!(f64::from_bits(coarse_step_for_feature(10)), 14.0);
    assert_eq!(f64::from_bits(coarse_step_for_feature(2)), 1.0);
    assert_eq!(f64::from_bits(coarse_step_for_feature(255)), 1.0);
}

#[test]
fn every_coarse_step_is_finite_and_positive() {
    for id in 0..=255u8 {
        let step = f64::from_bits(coarse_step_for_feature(id));
        assert!(step.is_finite() && step > 0.0);
    }
}

#[test]
fn feature_ids_round_trip() {
    let all = [
        Feature::Mercury,
        Feature::Venus,
        Feature::Mars,
        Feature::Jupiter,
        Feature::Saturn,
        Feature::Uranus,
        Feature::Neptune,
        Feature::Sun,
    ];
    for feature in all {
        assert_eq!(feature_from_id(feature_id(feature)), Some(feature));
    }
    assert_eq!(feature_id(Feature::Sun), 10);
    assert_eq!(feature_from_id(3), Some(Feature::Mars));
    for id in [2u8, 8, 9, 11, 255] {
        assert_eq!(feature_from_id(id), None);
        assert!(!is_supported_feature_id(id));
    }
    let supported: Vec<u8> = (0..=255u8).filter(|id| is_supported_feature_id(*id)).collect();
    assert_eq!(supported, vec![0, 1, 3, 4, 5, 6, 7, 10]);
}
