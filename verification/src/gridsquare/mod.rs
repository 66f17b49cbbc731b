//! The grid square code hierarchy, its coordinates and its enumeration.

pub mod arith;
pub mod code;
pub mod eighth;
pub mod half;
pub mod iterator;
pub mod level;
pub mod lnglat;
pub mod primary;
pub mod quad;
pub mod quarter;
pub mod secondary;
pub mod standard;
pub mod text;

pub use code::{CodeText, GridSquareCode, Subdivide};
pub use iterator::{
    eighth_codes,
    eighth_patches,
    half_codes,
    half_patches,
    primaries_from_bounds,
    primary_codes,
    primary_patches,
    quarter_codes,
    quarter_patches,
    secondary_codes,
    secondary_patches,
    standard_codes,
    standard_patches,
    CodeStream,
    EighthCodes,
    HalfCodes,
    Patches,
    PrimaryCodes,
    QuarterCodes,
    SecondaryCodes,
    Seeds,
    Stage,
    StandardCodes,
};
pub use level::LevelAndCode;
pub use lnglat::{LngLat, LngLatBox, DEGREE, MAX_UNSCALED, MULTIPLIER};
pub use primary::PrimaryCode;
pub use quad::{EighthCode, HalfCode, Quad, QuarterCode};
pub use secondary::SecondaryCode;
pub use standard::StandardCode;
