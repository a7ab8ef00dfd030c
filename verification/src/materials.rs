//! What the integrator needs to know of a surface material: whether a bounce
//! off it ends the path. The materials whose shading moves colours without
//! computing on them shade here as well.

use vstd::prelude::*;

verus! {

/// A surface material, as the bounce state machine sees it.
pub trait Material {
    /// Whether a bounce off this material is terminal: whether it sends no
    /// ray on, so that the path ends.
    fn is_terminal(&self) -> bool;
}

/// A material that shows nothing of its own: it sends no ray on.
#[derive(Clone, Copy, Debug, PartialEq, Eq, Structural)]
pub struct BaseMaterial;

/// Shades a surface by the direction of its normal, ignoring light; it sends no ray on.
#[derive(Clone, Copy, Debug, PartialEq, Eq, Structural)]
pub struct NormalMaterial;

/// Reflects every ray about the surface normal.
#[derive(Clone, Copy, Debug, PartialEq, Eq, Structural)]
pub struct PerfectMirror;

/// Covers a surface with one colour; it sends no ray on.
#[derive(Debug, PartialEq)]
pub struct SolidColor<C> {
    pub color: C,
}

/// Scatters rays between the mirror direction and a random one, as far as
/// its roughness says, and blends its own colour with the light that
/// arrives, as far as its albedo says.
#[derive(Debug, PartialEq)]
pub struct Diffuse<C, S> {
    pub color: C,
    pub roughness: S,
    pub albedo: S,
}

impl<C: Copy> SolidColor<C> {
    /// The colour of a hit on this material: the material's own colour,
    /// whatever light arrives.
    pub fn add_color(&self, previous: &C) -> (c: C)
        ensures
            c == self.color,
    {
        self.color
    }
}

impl PerfectMirror {
    /// The colour of a hit on the mirror: the light that arrives, unchanged.
    pub fn add_color<C: Copy>(&self, previous: &C) -> (c: C)
        ensures
            c == *previous,
    {
        *previous
    }
}

impl Material for BaseMaterial {
    fn is_terminal(&self) -> (t: bool)
        ensures
            t == true,
    {
        true
    }
}

impl Material for NormalMaterial {
    fn is_terminal(&self) -> (t: bool)
        ensures
            t == true,
    {
        true
    }
}

impl<C> Material for SolidColor<C> {
    fn is_terminal(&self) -> (t: bool)
        ensures
            t == true,
    {
        true
    }
}

impl<C, S> Material for Diffuse<C, S> {
    fn is_terminal(&self) -> (t: bool)
        ensures
            t == false,
    {
        false
    }
}

impl Material for PerfectMirror {
    fn is_terminal(&self) -> (t: bool)
        ensures
            t == false,
    {
        false
    }
}

} // verus!
