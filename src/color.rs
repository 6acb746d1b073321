//! Palette selection and the interior rule of smooth colouring.
//!
//! The palettes' ramps work on a continuous parameter and are evaluated by
//! the caller; what is decided here is which palette is active and that
//! points that never escape are painted black whatever the palette.

use vstd::prelude::*;
use crate::raster::Rgb;

verus! {

/// Hue-rotated scheme.
#[derive(Clone, Copy, PartialEq, Eq, Debug, Structural)]
pub struct ClassicScheme;

/// Warm ramp: red first, then green, then blue.
#[derive(Clone, Copy, PartialEq, Eq, Debug, Structural)]
pub struct FireScheme;

/// Cool ramp: blue first, then green, then red.
#[derive(Clone, Copy, PartialEq, Eq, Debug, Structural)]
pub struct OceanScheme;

/// Cyclic hue scheme.
#[derive(Clone, Copy, PartialEq, Eq, Debug, Structural)]
pub struct RainbowScheme;

/// Grey levels.
#[derive(Clone, Copy, PartialEq, Eq, Debug, Structural)]
pub struct GrayscaleScheme;

/// Which palette is selected.
#[derive(Clone, Copy, PartialEq, Eq, Debug, Structural)]
pub enum ActiveColorSchemeType {
    Classic,
    Fire,
    Ocean,
    Rainbow,
    Grayscale,
}

/// The selected palette itself.
#[derive(Clone, Copy, PartialEq, Eq, Debug, Structural)]
pub enum ActiveColorScheme {
    Classic(ClassicScheme),
    Fire(FireScheme),
    Ocean(OceanScheme),
    Rainbow(RainbowScheme),
    Grayscale(GrayscaleScheme),
}

pub open spec fn kind_of(s: ActiveColorScheme) -> ActiveColorSchemeType {
    match s {
        ActiveColorScheme::Classic(_) => ActiveColorSchemeType::Classic,
        ActiveColorScheme::Fire(_) => ActiveColorSchemeType::Fire,
        ActiveColorScheme::Ocean(_) => ActiveColorSchemeType::Ocean,
        ActiveColorScheme::Rainbow(_) => ActiveColorSchemeType::Rainbow,
        ActiveColorScheme::Grayscale(_) => ActiveColorSchemeType::Grayscale,
    }
}

impl ActiveColorScheme {
    /// The palette for a selection.
    pub fn from_type(scheme_type: ActiveColorSchemeType) -> (r: Self)
        ensures
            kind_of(r) == scheme_type,
    {
        match scheme_type {
            ActiveColorSchemeType::Classic => ActiveColorScheme::Classic(ClassicScheme),
            ActiveColorSchemeType::Fire => ActiveColorScheme::Fire(FireScheme),
            ActiveColorSchemeType::Ocean => ActiveColorScheme::Ocean(OceanScheme),
            ActiveColorSchemeType::Rainbow => ActiveColorScheme::Rainbow(RainbowScheme),
            ActiveColorSchemeType::Grayscale => ActiveColorScheme::Grayscale(GrayscaleScheme),
        }
    }

    /// Which selection this palette is.
    pub fn scheme_type(&self) -> (r: ActiveColorSchemeType)
        ensures
            r == kind_of(*self),
    {
        match self {
            ActiveColorScheme::Classic(_) => ActiveColorSchemeType::Classic,
            ActiveColorScheme::Fire(_) => ActiveColorSchemeType::Fire,
            ActiveColorScheme::Ocean(_) => ActiveColorSchemeType::Ocean,
            ActiveColorScheme::Rainbow(_) => ActiveColorSchemeType::Rainbow,
            ActiveColorScheme::Grayscale(_) => ActiveColorSchemeType::Grayscale,
        }
    }
}

/// The colour of interior (never escaping) points.
pub const BLACK: Rgb = (0, 0, 0);

/// Colour of a point that took `iterations` of at most `max_iterations`
/// steps: black when it never escaped, otherwise whatever the palette's
/// smoothed ramp `escaped` gives (it is evaluated only then).
pub fn smooth_color<F: FnOnce() -> Rgb>(iterations: u32, max_iterations: u32, escaped: F) -> (r: Rgb)
    requires
        iterations != max_iterations ==> escaped.requires(()),
    ensures
        iterations == max_iterations ==> r == BLACK,
        iterations != max_iterations ==> escaped.ensures((), r),
{
    if iterations == max_iterations {
        BLACK
    } else {
        escaped()
    }
}

} // verus!
