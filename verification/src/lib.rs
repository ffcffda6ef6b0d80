//! Window search over the zodiac signs occupied by the planets and the Sun.
//!
//! Given a Julian-date range and a list of (body, sign) pairs, the search
//! returns the windows `[start, end)` in which every body is in its sign.
//! Dates and other real quantities are carried as the bit patterns of their
//! IEEE 754 binary64 values and compared with the IEEE semantics
//! (`binary64`). The modules:
//!
//! * `features`: body and sign identifiers, and the coarse step per body;
//! * `validation`: the checks on a search request;
//! * `windows`: windows, merging adjacent or overlapping ones, flattening;
//! * `segments`: the bookkeeping of a sweep through one window;
//! * `bisection`: the decisions of the station and crossing bisections;
//! * `refinement`: the feature-by-feature refinement of the search range.

pub mod binary64;
pub mod bisection;
pub mod features;
pub mod validation;
pub mod windows;
pub mod segments;
pub mod refinement;
