//! Color-space interpolation wrappers: a color tagged with the space it is
//! blended through.
use vstd::prelude::*;

verus! {

/// Interpolates a color through CIE L*a*b* space.
///
/// Lab interpolation is useful for perceptually smoother color transitions
/// than direct gamma-encoded RGB interpolation.
#[derive(Clone, Copy, Debug, PartialEq)]
pub struct InLab<C>(pub C);

/// Interpolates a color through Oklch space.
///
/// Oklch is a perceptual cylindrical color space with lightness, chroma,
/// and hue components.
#[derive(Clone, Copy, Debug, PartialEq)]
pub struct InOklch<C>(pub C);

/// Interpolates a color through linear-light sRGB.
///
/// Linear interpolation avoids blending directly in gamma-encoded sRGB.
#[derive(Clone, Copy, Debug, PartialEq)]
pub struct InLinear<C>(pub C);

impl<C> InLab<C> {
    /// Wrap a color for Lab interpolation.
    pub fn new(color: C) -> (wrapped: Self)
        ensures
            wrapped.0 == color,
    {
        InLab(color)
    }

    /// Return a shared reference to the wrapped color.
    pub fn as_inner(&self) -> (inner: &C)
        ensures
            *inner == self.0,
    {
        &self.0
    }

    /// Consume the wrapper and return the wrapped color.
    pub fn into_inner(self) -> (inner: C)
        ensures
            inner == self.0,
    {
        self.0
    }
}

impl<C> InOklch<C> {
    /// Wrap a color for Oklch interpolation.
    pub fn new(color: C) -> (wrapped: Self)
        ensures
            wrapped.0 == color,
    {
        InOklch(color)
    }

    /// Return a shared reference to the wrapped color.
    pub fn as_inner(&self) -> (inner: &C)
        ensures
            *inner == self.0,
    {
        &self.0
    }

    /// Consume the wrapper and return the wrapped color.
    pub fn into_inner(self) -> (inner: C)
        ensures
            inner == self.0,
    {
        self.0
    }
}

impl<C> InLinear<C> {
    /// Wrap a color for linear-light sRGB interpolation.
    pub fn new(color: C) -> (wrapped: Self)
        ensures
            wrapped.0 == color,
    {
        InLinear(color)
    }

    /// Return a shared reference to the wrapped color.
    pub fn as_inner(&self) -> (inner: &C)
        ensures
            *inner == self.0,
    {
        &self.0
    }

    /// Consume the wrapper and return the wrapped color.
    pub fn into_inner(self) -> (inner: C)
        ensures
            inner == self.0,
    {
        self.0
    }
}

/// Wrapping a color and unwrapping it again gives the same color, in each
/// of the three spaces.
pub proof fn law_wrap_unwrap<C>(color: C)
    ensures
        InLab(color).0 == color,
        InOklch(color).0 == color,
        InLinear(color).0 == color,
{
}

} // verus!
