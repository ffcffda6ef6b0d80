use natal_chart_solver::validation::{validate_search_inputs, SearchInputError};

fn bits(x: f64) -> u64 {
    x.to_bits()
}

#[test]
fn validates_every_search_input() {
    assert!(validate_search_inputs(bits(2_453_371.5), bits(2_453_736.5), &[10], &[5]).is_ok());
    assert!(validate_search_inputs(bits(f64::NAN), bits(2_453_736.5), &[10], &[5]).is_err());
    assert!(validate_search_inputs(bits(2_453_371.5), bits(f64::INFINITY), &[10], &[5]).is_err());
    assert!(validate_search_inputs(bits(2_453_736.5), bits(2_453_371.5), &[10], &[5]).is_err());
    assert!(validate_search_inputs(bits(2_453_371.5), bits(2_453_371.5), &[10], &[5]).is_err());
    assert!(validate_search_inputs(bits(2_453_371.5), bits(2_453_736.5), &[], &[]).is_err());
    assert!(validate_search_inputs(bits(2_453_371.5), bits(2_453_736.5), &[10, 0], &[5]).is_err());
    assert!(validate_search_inputs(bits(2_453_371.5), bits(2_453_736.5), &[2], &[5]).is_err());
    assert!(validate_search_inputs(bits(2_453_371.5), bits(2_453_736.5), &[11], &[5]).is_err());
    assert!(validate_search_inputs(bits(2_453_371.5), bits(2_453_736.5), &[10], &[12]).is_err());
}

#[test]
fn reports_each_input_error_variant() {
    let start = bits(2_453_371.5);
    let end = bits(2_453_736.5);
    assert_eq!(validate_search_inputs(bits(f64::NEG_INFINITY), end, &[10], &[5]), Err(SearchInputError::NonFiniteDate));
    assert_eq!(validate_search_inputs(start, bits(f64::NAN), &[10], &[5]), Err(SearchInputError::NonFiniteDate));
    assert_eq!(validate_search_inputs(end, start, &[10], &[5]), Err(SearchInputError::StartNotBeforeEnd));
    assert_eq!(validate_search_inputs(bits(0.0), bits(-0.0), &[10], &[5]), Err(SearchInputError::StartNotBeforeEnd));
    assert_eq!(validate_search_inputs(start, end, &[10], &[]), Err(SearchInputError::MissingFeatures));
    assert_eq!(validate_search_inputs(start, end, &[], &[5]), Err(SearchInputError::MissingFeatures));
    assert_eq!(validate_search_inputs(start, end, &[10, 0], &[5]), Err(SearchInputError::LengthMismatch));
    assert_eq!(validate_search_inputs(start, end, &[0, 8], &[5, 5]), Err(SearchInputError::UnsupportedFeature));
    assert_eq!(validate_search_inputs(start, end, &[9], &[0]), Err(SearchInputError::UnsupportedFeature));
    assert_eq!(validate_search_inputs(start, end, &[0, 1], &[11, 200]), Err(SearchInputError::InvalidSign));
    assert_eq!(validate_search_inputs(start, end, &[2], &[12]), Err(SearchInputError::UnsupportedFeature));
    assert_eq!(validate_search_inputs(start, end, &[0, 1, 3, 4, 5, 6, 7, 10], &[0, 1, 2, 3, 4, 5, 6, 11]), Ok(()));
    assert_eq!(validate_search_inputs(bits(-10.0), bits(-5.0), &[10], &[0]), Ok(()));
}

#[test]
fn input_error_messages_match_reference_text() {
    assert_eq!(SearchInputError::NonFiniteDate.message(), "search dates must be finite");
    assert_eq!(SearchInputError::StartNotBeforeEnd.message(), "search start date must be earlier than end date");
    assert_eq!(SearchInputError::MissingFeatures.message(), "search requires at least one feature and sign");
    assert_eq!(SearchInputError::LengthMismatch.message(), "feature and sign lists must have equal lengths");
    assert_eq!(SearchInputError::UnsupportedFeature.message(), "search contains an unsupported feature ID");
    assert_eq!(SearchInputError::InvalidSign.message(), "sign IDs must be between 0 and 11");
}
