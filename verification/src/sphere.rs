//! The material kind of a scene sphere.

use vstd::prelude::*;
use crate::util::str_eq;

verus! {

/// How a sphere's surface deviates a ray that hits it: a mirror bounce, or
/// Snell's-law refraction with reflection as the fallback past the critical
/// angle.
#[derive(Clone, Copy, Debug, PartialEq, Eq, Structural)]
pub enum SphereType {
    Reflexive,
    Refractive,
}

impl SphereType {
    /// The kind's name, as the configuration files spell it.
    pub fn to_string(&self) -> (r: &str)
        ensures
            self is Reflexive ==> r@ == "Reflexive"@,
            self is Refractive ==> r@ == "Refractive"@,
    {
        match *self {
            Self::Reflexive => "Reflexive",
            Self::Refractive => "Refractive",
        }
    }

    /// The kind named by a configuration string; any unknown name falls back
    /// to the reflexive kind.
    pub fn from_string(string: &str) -> (t: Self)
        ensures
            t == (if string@ == "Refractive"@ {
                SphereType::Refractive
            } else {
                SphereType::Reflexive
            }),
    {
        if str_eq(string, "Refractive") {
            Self::Refractive
        } else {
            Self::Reflexive
        }
    }
}

} // verus!
