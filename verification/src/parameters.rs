//! How a batch of scene spheres is generated.

use vstd::prelude::*;
use crate::util::str_eq;

verus! {

/// The source of a batch of spheres: a fixed built-in scene, uniformly random
/// placement, or interpolation along a line between the configured bounds.
#[derive(Clone, Copy, Debug, PartialEq, Eq, Structural)]
pub enum SphereGenerationMode {
    Hardcoded,
    Random,
    InLine,
}

impl SphereGenerationMode {
    /// The mode's name, as the configuration files spell it.
    pub fn to_string(&self) -> (r: &str)
        ensures
            self is Hardcoded ==> r@ == "Hardcoded"@,
            self is Random ==> r@ == "Random"@,
            self is InLine ==> r@ == "InLine"@,
    {
        match *self {
            Self::Hardcoded => "Hardcoded",
            Self::Random => "Random",
            Self::InLine => "InLine",
        }
    }

    /// The mode named by a configuration string; any unknown name falls back
    /// to the hardcoded scene.
    pub fn from_string(string: &str) -> (m: Self)
        ensures
            m == (if string@ == "Random"@ {
                SphereGenerationMode::Random
            } else if string@ == "InLine"@ {
                SphereGenerationMode::InLine
            } else {
                SphereGenerationMode::Hardcoded
            }),
    {
        if str_eq(string, "Random") {
            Self::Random
        } else if str_eq(string, "InLine") {
            Self::InLine
        } else {
            Self::Hardcoded
        }
    }
}

} // verus!
