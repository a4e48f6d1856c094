//! The point light of a scene.

use vstd::prelude::*;
use crate::color::{Color, ColorView};
use crate::tuple::{Tuple, TupleView};

verus! {

/// A light without size that shines in all directions.
#[derive(Clone, Copy, Debug)]
pub struct Light {
    pub intensity: Color,
    pub position: Tuple,
}

/// A light in raw values.
pub struct LightView {
    pub intensity: ColorView,
    pub position: TupleView,
}

impl View for Light {
    type V = LightView;

    open spec fn view(&self) -> LightView {
        LightView { intensity: self.intensity@, position: self.position@ }
    }
}

impl Light {
    /// The light at `position` with the given intensity.
    pub fn new(position: Tuple, intensity: Color) -> (l: Light)
        ensures
            l@ == (LightView { intensity: intensity@, position: position@ }),
    {
        Light { intensity, position }
    }
}

} // verus!
