//! The decision kernel of the recursive tracer. The geometric work of a
//! bounce — finding the nearest intersection and deviating the ray — happens
//! outside; this module decides, from the bounce budget and what the step
//! found, which color samples are pushed and whether the trace goes on.

use vstd::prelude::*;

verus! {

/// What one step of a ray's trace decides.
#[derive(Clone, Copy, Debug, PartialEq, Eq, Structural)]
pub struct TraceStep {
    /// Push the background color and light factor as a terminal sample.
    pub push_background: bool,
    /// Push the hit sphere's attenuated color as a sample.
    pub push_sample: bool,
    /// Deviate the ray and keep tracing.
    pub bounce: bool,
    /// The bounce budget left for the next step.
    pub next_remaining: u64,
}

/// The decision for one step of a ray's trace.
///
/// `hit` says whether the intersection search found a sphere;
/// `remaining_bounces` is the budget left before this step; `has_traveled`
/// says whether the ray has already covered distance (it is not the primary
/// camera ray); `reflect_background` is the configured flag for sampling the
/// background on a miss.
///
/// A hit always contributes a sample, and the trace goes on exactly while
/// budget remains. A miss ends the trace; it contributes the background
/// sample only for a secondary ray with budget left, and only when the
/// configuration asks for it.
pub fn trace_step(hit: bool, remaining_bounces: u64, has_traveled: bool, reflect_background: bool) -> (step: TraceStep)
    ensures
        step.push_sample == hit,
        step.push_background == (!hit && reflect_background && remaining_bounces > 0
            && has_traveled),
        step.bounce == (hit && remaining_bounces > 0),
        step.bounce ==> step.next_remaining == remaining_bounces - 1,
        !step.bounce ==> step.next_remaining == 0,
{
    if hit {
        if remaining_bounces > 0 {
            TraceStep {
                push_background: false,
                push_sample: true,
                bounce: true,
                next_remaining: remaining_bounces - 1,
            }
        } else {
            TraceStep {
                push_background: false,
                push_sample: true,
                bounce: false,
                next_remaining: 0,
            }
        }
    } else {
        TraceStep {
            push_background: reflect_background && remaining_bounces > 0 && has_traveled,
            push_sample: false,
            bounce: false,
            next_remaining: 0,
        }
    }
}

} // verus!
