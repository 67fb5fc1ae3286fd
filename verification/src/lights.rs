//! Light source classification.
//!
//! The renderer supports point lights only: a light is a world-space position
//! with an intensity color, both floating-point values held by the caller.
//! The variant tag is the part of a light the shading decisions branch on.

use vstd::prelude::*;

verus! {

/// The kinds of light source a scene can hold.
#[derive(Copy, Clone, Debug, PartialEq, Eq, Structural)]
pub enum LightType {
    PointLight,
}

impl LightType {
    /// Point lights cast hard shadows from a single position; every variant
    /// currently does.
    pub fn casts_hard_shadows(&self) -> (r: bool)
        ensures
            r == (*self is PointLight),
    {
        matches!(*self, LightType::PointLight)
    }
}

} // verus!
