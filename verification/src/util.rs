//! Small shared helpers: string comparison for the name-based enum
//! conversions, and the random draws used when scene colors are generated.

use vstd::prelude::*;
use crate::color::Color;
use rand::Rng;

verus! {

/// Whether two string slices hold the same characters.
pub fn str_eq(a: &str, b: &str) -> (r: bool)
    ensures
        r == (a@ == b@),
{
    let a_len = a.unicode_len();
    let b_len = b.unicode_len();
    if a_len != b_len {
        return false;
    }
    let mut i: usize = 0;
    while i < a_len
        invariant
            a_len == a@.len(),
            b_len == b@.len(),
            a_len == b_len,
            i <= a_len,
            forall|k: int| 0 <= k < i ==> a@[k] == b@[k],
        decreases a_len - i,
    {
        if a.get_char(i) != b.get_char(i) {
            return false;
        }
        i = i + 1;
    }
    proof {
        assert(a@ =~= b@);
    }
    true
}

/// The thread-local random generator of the `rand` crate, used for scene
/// generation and for the roughness perturbation of bounced rays.
#[verifier::external_type_specification]
#[verifier::external_body]
pub struct ExThreadRng(rand::rngs::ThreadRng);

/// Relies on rand's `Rng::gen_range` over `low..high`: it returns a value of
/// the half-open range, and panics only when the range is empty, which the
/// precondition rules out.
#[verifier::external_body]
fn sample_u8_range(rng: &mut rand::rngs::ThreadRng, low: u8, high: u8) -> (r: u8)
    requires
        low < high,
    ensures
        low <= r < high,
{
    rng.gen_range(low..high)
}

/// A draw from `low..high`, where an empty range yields `low` instead of a
/// panic.
pub fn rand_range(rng: &mut rand::rngs::ThreadRng, low: u8, high: u8) -> (r: u8)
    requires
        low <= high,
    ensures
        low <= r,
        low == high ==> r == low,
        low < high ==> r < high,
{
    if low == high {
        low
    } else {
        sample_u8_range(rng, low, high)
    }
}

/// An opaque color whose three channels are drawn from `0..255` each.
pub fn rand_color(rng: &mut rand::rngs::ThreadRng) -> (c: Color)
    ensures
        c.r < 255,
        c.g < 255,
        c.b < 255,
        c.a == 255,
{
    let r = rand_range(rng, 0, 255);
    let g = rand_range(rng, 0, 255);
    let b = rand_range(rng, 0, 255);
    Color::rgb(r, g, b)
}

} // verus!
