//! The checks a search request must pass before any computation starts.
use vstd::prelude::*;
use crate::binary64::{is_finite, value_le, is_finite_bits, le};
use crate::features::{is_supported_feature, is_valid_sign, is_supported_feature_id, SIGN_COUNT};

verus! {

/// Why a search request was refused.
#[derive(Clone, Copy, Debug, PartialEq, Eq, Structural)]
pub enum SearchInputError {
    /// A search date is infinite or NaN.
    NonFiniteDate,
    /// The start date is not earlier than the end date.
    StartNotBeforeEnd,
    /// The feature list or the sign list is empty.
    MissingFeatures,
    /// The feature list and the sign list differ in length.
    LengthMismatch,
    /// A feature identifier names no supported body.
    UnsupportedFeature,
    /// A sign identifier is above 11.
    InvalidSign,
}

impl SearchInputError {
    /// The message reported for this error.
    pub fn message(&self) -> (r: &'static str)
        ensures
            *self is NonFiniteDate ==> r == "search dates must be finite",
            *self is StartNotBeforeEnd ==> r == "search start date must be earlier than end date",
            *self is MissingFeatures ==> r == "search requires at least one feature and sign",
            *self is LengthMismatch ==> r == "feature and sign lists must have equal lengths",
            *self is UnsupportedFeature ==> r == "search contains an unsupported feature ID",
            *self is InvalidSign ==> r == "sign IDs must be between 0 and 11",
    {
        match self {
            SearchInputError::NonFiniteDate => "search dates must be finite",
            SearchInputError::StartNotBeforeEnd => "search start date must be earlier than end date",
            SearchInputError::MissingFeatures => "search requires at least one feature and sign",
            SearchInputError::LengthMismatch => "feature and sign lists must have equal lengths",
            SearchInputError::UnsupportedFeature => "search contains an unsupported feature ID",
            SearchInputError::InvalidSign => "sign IDs must be between 0 and 11",
        }
    }
}

/// Every identifier in the list names a supported body.
pub open spec fn all_supported(feature_ids: Seq<u8>) -> bool {
    forall|i: int| 0 <= i < feature_ids.len() ==> is_supported_feature(#[trigger] feature_ids[i])
}

/// Every identifier in the list names a sign.
pub open spec fn all_valid_signs(feature_signs: Seq<u8>) -> bool {
    forall|i: int| 0 <= i < feature_signs.len() ==> is_valid_sign(#[trigger] feature_signs[i])
}

/// The outcome of validating a request, the first failing check deciding
/// the error: dates finite, start before end, both lists nonempty, equal
/// lengths, supported bodies, valid signs.
pub open spec fn validation_outcome(
    start_julian_date: u64,
    end_julian_date: u64,
    feature_ids: Seq<u8>,
    feature_signs: Seq<u8>,
) -> Result<(), SearchInputError> {
    if !is_finite(start_julian_date) || !is_finite(end_julian_date) {
        Err(SearchInputError::NonFiniteDate)
    } else if value_le(end_julian_date, start_julian_date) {
        Err(SearchInputError::StartNotBeforeEnd)
    } else if feature_ids.len() == 0 || feature_signs.len() == 0 {
        Err(SearchInputError::MissingFeatures)
    } else if feature_ids.len() != feature_signs.len() {
        Err(SearchInputError::LengthMismatch)
    } else if !all_supported(feature_ids) {
        Err(SearchInputError::UnsupportedFeature)
    } else if !all_valid_signs(feature_signs) {
        Err(SearchInputError::InvalidSign)
    } else {
        Ok(())
    }
}

/// A request that passes validation: the conditions under which the search
/// runs.
pub open spec fn is_valid_request(
    start_julian_date: u64,
    end_julian_date: u64,
    feature_ids: Seq<u8>,
    feature_signs: Seq<u8>,
) -> bool {
    validation_outcome(start_julian_date, end_julian_date, feature_ids, feature_signs) is Ok
}

/// Returns whether every identifier in the list names a supported body.
pub fn all_feature_ids_supported(feature_ids: &[u8]) -> (r: bool)
    ensures
        r == all_supported(feature_ids@),
{
    let mut i: usize = 0;
    while i < feature_ids.len()
        invariant
            i <= feature_ids@.len(),
            forall|j: int| 0 <= j < i ==> is_supported_feature(#[trigger] feature_ids@[j]),
        decreases feature_ids@.len() - i,
    {
        if !is_supported_feature_id(feature_ids[i]) {
            assert(!is_supported_feature(feature_ids@[i as int]));
            return false;
        }
        i = i + 1;
    }
    true
}

/// Returns whether every identifier in the list names a sign.
pub fn all_feature_signs_valid(feature_signs: &[u8]) -> (r: bool)
    ensures
        r == all_valid_signs(feature_signs@),
{
    let mut k: usize = 0;
    while k < feature_signs.len()
        invariant
            k <= feature_signs@.len(),
            forall|j: int| 0 <= j < k ==> is_valid_sign(#[trigger] feature_signs@[j]),
        decreases feature_signs@.len() - k,
    {
        if feature_signs[k] >= SIGN_COUNT {
            assert(!is_valid_sign(feature_signs@[k as int]));
            return false;
        }
        k = k + 1;
    }
    true
}

/// Checks a search request; the dates are the encodings of the Julian dates.
pub fn validate_search_inputs(
    start_julian_date: u64,
    end_julian_date: u64,
    feature_ids: &[u8],
    feature_signs: &[u8],
) -> (r: Result<(), SearchInputError>)
    ensures
        r == validation_outcome(start_julian_date, end_julian_date, feature_ids@, feature_signs@),
{
    if !is_finite_bits(start_julian_date) || !is_finite_bits(end_julian_date) {
        return Err(SearchInputError::NonFiniteDate);
    }
    if le(end_julian_date, start_julian_date) {
        return Err(SearchInputError::StartNotBeforeEnd);
    }
    if feature_ids.len() == 0 || feature_signs.len() == 0 {
        return Err(SearchInputError::MissingFeatures);
    }
    if feature_ids.len() != feature_signs.len() {
        return Err(SearchInputError::LengthMismatch);
    }
    if !all_feature_ids_supported(feature_ids) {
        return Err(SearchInputError::UnsupportedFeature);
    }
    if !all_feature_signs_valid(feature_signs) {
        return Err(SearchInputError::InvalidSign);
    }
    Ok(())
}

/// A request that passes validation has a finite start strictly before a
/// finite end, and pairs each supported body with a valid sign.
pub proof fn lemma_valid_request_shape(
    start_julian_date: u64,
    end_julian_date: u64,
    feature_ids: Seq<u8>,
    feature_signs: Seq<u8>,
)
    requires
        is_valid_request(start_julian_date, end_julian_date, feature_ids, feature_signs),
    ensures
        is_finite(start_julian_date),
        is_finite(end_julian_date),
        crate::binary64::value_lt(start_julian_date, end_julian_date),
        feature_ids.len() == feature_signs.len(),
        feature_ids.len() > 0,
        forall|i: int| 0 <= i < feature_ids.len() ==> is_supported_feature(#[trigger] feature_ids[i])
            && is_valid_sign(feature_signs[i]),
{
}

/// Which requests are accepted, over all inputs: exactly those with finite
/// dates, the start strictly before the end, equally long nonempty lists,
/// every body identifier among 0, 1, 3, 4, 5, 6, 7 and 10, and every sign
/// identifier from 0 to 11. A refused sign or body is one that is out of
/// these ranges.
pub proof fn lemma_validation_accepts_exactly(
    start_julian_date: u64,
    end_julian_date: u64,
    feature_ids: Seq<u8>,
    feature_signs: Seq<u8>,
)
    ensures
        (validation_outcome(start_julian_date, end_julian_date, feature_ids, feature_signs) == Ok::<(), SearchInputError>(())) <==> {
            &&& is_finite(start_julian_date)
            &&& is_finite(end_julian_date)
            &&& crate::binary64::value_lt(start_julian_date, end_julian_date)
            &&& feature_ids.len() > 0
            &&& feature_ids.len() == feature_signs.len()
            &&& forall|i: int| 0 <= i < feature_ids.len() ==> {
                let id = #[trigger] feature_ids[i];
                id == 0 || id == 1 || id == 3 || id == 4 || id == 5 || id == 6 || id == 7 || id == 10
            }
            &&& forall|i: int| 0 <= i < feature_signs.len() ==> #[trigger] feature_signs[i] <= 11
        },
        validation_outcome(start_julian_date, end_julian_date, feature_ids, feature_signs)
            == Err::<(), SearchInputError>(SearchInputError::InvalidSign) ==> exists|i: int|
            0 <= i < feature_signs.len() && #[trigger] feature_signs[i] > 11,
        validation_outcome(start_julian_date, end_julian_date, feature_ids, feature_signs)
            == Err::<(), SearchInputError>(SearchInputError::UnsupportedFeature) ==> exists|i: int|
            0 <= i < feature_ids.len() && {
                let id = #[trigger] feature_ids[i];
                !(id == 0 || id == 1 || id == 3 || id == 4 || id == 5 || id == 6 || id == 7 || id == 10)
            },
{
    if validation_outcome(start_julian_date, end_julian_date, feature_ids, feature_signs)
        == Err::<(), SearchInputError>(SearchInputError::InvalidSign) {
        let i = choose|i: int| 0 <= i < feature_signs.len() && !is_valid_sign(#[trigger] feature_signs[i]);
        assert(feature_signs[i] > 11);
    }
    if validation_outcome(start_julian_date, end_julian_date, feature_ids, feature_signs)
        == Err::<(), SearchInputError>(SearchInputError::UnsupportedFeature) {
        let i = choose|i: int| 0 <= i < feature_ids.len() && !is_supported_feature(#[trigger] feature_ids[i]);
        assert(!is_supported_feature(feature_ids[i]));
    }
}

} // verus!
