//! The colour themes the interface can use, by name.
use vstd::prelude::*;

verus! {

/// A built-in theme.
#[derive(Debug, Clone, Copy, PartialEq, Eq, Structural)]
pub enum ThemeName {
    CatppuccinMocha,
    Neon,
    CandyLandPink,
}

impl Default for ThemeName {
    /// Catppuccin Mocha.
    fn default() -> (r: Self)
        ensures
            r == ThemeName::CatppuccinMocha,
    {
        ThemeName::CatppuccinMocha
    }
}

} // verus!
