//! The bodies the search supports, their identifiers, the zodiac signs, and
//! the coarse sampling step used for each body.
use vstd::prelude::*;
use crate::binary64::{is_finite, value_lt};

verus! {

/// A body whose geocentric ecliptic longitude the search can follow.
#[derive(Clone, Copy, Debug, PartialEq, Eq, Structural)]
pub enum Feature {
    Mercury,
    Venus,
    Mars,
    Jupiter,
    Saturn,
    Uranus,
    Neptune,
    Sun,
}

/// Number of zodiac signs; sign identifiers run from 0 (Aries) to 11 (Pisces).
pub const SIGN_COUNT: u8 = 12;

/// The body that an identifier names: 0 to 7 follow the planets outward from
/// the Sun, with 2 (the Earth, where the observer stands) left out, and 10 is
/// the Sun. Every other identifier names nothing.
pub open spec fn feature_of_id(feature_id: u8) -> Option<Feature> {
    match feature_id {
        0 => Some(Feature::Mercury),
        1 => Some(Feature::Venus),
        3 => Some(Feature::Mars),
        4 => Some(Feature::Jupiter),
        5 => Some(Feature::Saturn),
        6 => Some(Feature::Uranus),
        7 => Some(Feature::Neptune),
        10 => Some(Feature::Sun),
        _ => None,
    }
}

/// The identifier of a body.
pub open spec fn id_of_feature(feature: Feature) -> u8 {
    match feature {
        Feature::Mercury => 0,
        Feature::Venus => 1,
        Feature::Mars => 3,
        Feature::Jupiter => 4,
        Feature::Saturn => 5,
        Feature::Uranus => 6,
        Feature::Neptune => 7,
        Feature::Sun => 10,
    }
}

/// Whether the search can follow the body with this identifier.
pub open spec fn is_supported_feature(feature_id: u8) -> bool {
    feature_of_id(feature_id) is Some
}

/// Whether a sign identifier names one of the twelve signs.
pub open spec fn is_valid_sign(sign: u8) -> bool {
    sign < SIGN_COUNT
}

/// Returns the body that an identifier names, if any.
pub fn feature_from_id(feature_id: u8) -> (r: Option<Feature>)
    ensures
        r == feature_of_id(feature_id),
{
    match feature_id {
        0 => Some(Feature::Mercury),
        1 => Some(Feature::Venus),
        3 => Some(Feature::Mars),
        4 => Some(Feature::Jupiter),
        5 => Some(Feature::Saturn),
        6 => Some(Feature::Uranus),
        7 => Some(Feature::Neptune),
        10 => Some(Feature::Sun),
        _ => None,
    }
}

/// Returns the identifier of a body.
pub fn feature_id(feature: Feature) -> (r: u8)
    ensures
        r == id_of_feature(feature),
{
    match feature {
        Feature::Mercury => 0,
        Feature::Venus => 1,
        Feature::Mars => 3,
        Feature::Jupiter => 4,
        Feature::Saturn => 5,
        Feature::Uranus => 6,
        Feature::Neptune => 7,
        Feature::Sun => 10,
    }
}

/// Returns whether the search can follow the body with this identifier.
pub fn is_supported_feature_id(feature_id: u8) -> (r: bool)
    ensures
        r == is_supported_feature(feature_id),
{
    feature_from_id(feature_id).is_some()
}

/// Identifiers and bodies correspond one to one: a body's identifier names
/// that body, and an identifier that names a body is that body's identifier.
pub proof fn lemma_feature_ids_round_trip(feature: Feature, feature_id: u8)
    ensures
        feature_of_id(id_of_feature(feature)) == Some(feature),
        feature_of_id(feature_id) matches Some(f) ==> id_of_feature(f) == feature_id,
{
}

/// Encoding of 3.5 days.
pub const MERCURY_STEP: u64 = 0x400C_0000_0000_0000;

/// Encoding of 12 days.
pub const VENUS_STEP: u64 = 0x4028_0000_0000_0000;

/// Encoding of 18 days.
pub const MARS_STEP: u64 = 0x4032_0000_0000_0000;

/// Encoding of 60 days.
pub const JUPITER_STEP: u64 = 0x404E_0000_0000_0000;

/// Encoding of 67 days.
pub const SATURN_STEP: u64 = 0x4050_C000_0000_0000;

/// Encoding of 75 days.
pub const URANUS_STEP: u64 = 0x4052_C000_0000_0000;

/// Encoding of 78 days.
pub const NEPTUNE_STEP: u64 = 0x4053_8000_0000_0000;

/// Encoding of 14 days.
pub const SUN_STEP: u64 = 0x402C_0000_0000_0000;

/// Encoding of 1 day, the step for identifiers that name no body.
pub const FALLBACK_STEP: u64 = 0x3FF0_0000_0000_0000;

/// The coarse step, in days, for each identifier.
pub open spec fn coarse_step(feature_id: u8) -> u64 {
    match feature_of_id(feature_id) {
        Some(Feature::Mercury) => MERCURY_STEP,
        Some(Feature::Venus) => VENUS_STEP,
        Some(Feature::Mars) => MARS_STEP,
        Some(Feature::Jupiter) => JUPITER_STEP,
        Some(Feature::Saturn) => SATURN_STEP,
        Some(Feature::Uranus) => URANUS_STEP,
        Some(Feature::Neptune) => NEPTUNE_STEP,
        Some(Feature::Sun) => SUN_STEP,
        None => FALLBACK_STEP,
    }
}

/// Returns a conservative search step in days for each supported feature,
/// as the encoding of the number of days: 3.5 for Mercury, 12 for Venus, 18
/// for Mars, 60 for Jupiter, 67 for Saturn, 75 for Uranus, 78 for Neptune,
/// 14 for the Sun, and 1 for any identifier that names no body. Steps are
/// bounded by sign-crossing speed and minimum retrograde duration.
pub fn coarse_step_for_feature(feature_id: u8) -> (r: u64)
    ensures
        r == coarse_step(feature_id),
        is_finite(r),
        value_lt(0, r),
{
    match feature_id {
        0 => MERCURY_STEP,
        1 => VENUS_STEP,
        3 => MARS_STEP,
        4 => JUPITER_STEP,
        5 => SATURN_STEP,
        6 => URANUS_STEP,
        7 => NEPTUNE_STEP,
        10 => SUN_STEP,
        _ => FALLBACK_STEP,
    }
}

/// The identifier scheme, over all identifiers: each body is named by
/// exactly one identifier (Mercury 0, Venus 1, Mars 3, Jupiter 4, Saturn 5,
/// Uranus 6, Neptune 7, the Sun 10), every other identifier names nothing,
/// and each body's coarse step is its own: 3.5, 12, 18, 60, 67, 75, 78 and
/// 14 days (encoded), with 1 day for identifiers that name nothing.
pub proof fn lemma_feature_scheme(feature_id: u8)
    ensures
        (feature_of_id(feature_id) == Some(Feature::Mercury)) <==> feature_id == 0,
        (feature_of_id(feature_id) == Some(Feature::Venus)) <==> feature_id == 1,
        (feature_of_id(feature_id) == Some(Feature::Mars)) <==> feature_id == 3,
        (feature_of_id(feature_id) == Some(Feature::Jupiter)) <==> feature_id == 4,
        (feature_of_id(feature_id) == Some(Feature::Saturn)) <==> feature_id == 5,
        (feature_of_id(feature_id) == Some(Feature::Uranus)) <==> feature_id == 6,
        (feature_of_id(feature_id) == Some(Feature::Neptune)) <==> feature_id == 7,
        (feature_of_id(feature_id) == Some(Feature::Sun)) <==> feature_id == 10,
        (coarse_step(feature_id) == 0x400C_0000_0000_0000u64) <==> feature_id == 0,
        (coarse_step(feature_id) == 0x4028_0000_0000_0000u64) <==> feature_id == 1,
        (coarse_step(feature_id) == 0x4032_0000_0000_0000u64) <==> feature_id == 3,
        (coarse_step(feature_id) == 0x404E_0000_0000_0000u64) <==> feature_id == 4,
        (coarse_step(feature_id) == 0x4050_C000_0000_0000u64) <==> feature_id == 5,
        (coarse_step(feature_id) == 0x4052_C000_0000_0000u64) <==> feature_id == 6,
        (coarse_step(feature_id) == 0x4053_8000_0000_0000u64) <==> feature_id == 7,
        (coarse_step(feature_id) == 0x402C_0000_0000_0000u64) <==> feature_id == 10,
        (coarse_step(feature_id) == 0x3FF0_0000_0000_0000u64) <==> feature_of_id(feature_id) is None,
        id_of_feature(Feature::Jupiter) == 4 && id_of_feature(Feature::Saturn) == 5,
        is_valid_sign(feature_id) <==> feature_id <= 11,
{
}

} // verus!
