//! The panel's background material.

use vstd::prelude::*;

verus! {

/// The backgrounds the panel can have.
#[derive(Debug, Clone, Copy, PartialEq, Eq, Structural)]
pub enum Material {
    /// Liquid Glass (recent macOS).
    Glass,
    /// Vibrancy (older macOS).
    Vibrancy,
    /// Acrylic (Windows).
    Acrylic,
    /// An opaque surface.
    Solid,
}

/// The name the UI knows a material by.
pub open spec fn material_name(m: Material) -> Seq<char> {
    match m {
        Material::Glass => "glass"@,
        Material::Vibrancy => "vibrancy"@,
        Material::Acrylic => "acrylic"@,
        Material::Solid => "solid"@,
    }
}

impl Material {
    /// The name of this material.
    pub fn name(self) -> (r: &'static str)
        ensures
            r@ == material_name(self),
    {
        match self {
            Material::Glass => "glass",
            Material::Vibrancy => "vibrancy",
            Material::Acrylic => "acrylic",
            Material::Solid => "solid",
        }
    }
}

/// The material the UI tints for: the one applied at start-up, or `solid`
/// before any was applied.
pub fn current(applied: Option<Material>) -> (r: &'static str)
    ensures
        r@ == material_name(
            match applied {
                Some(m) => m,
                None => Material::Solid,
            },
        ),
{
    match applied {
        Some(m) => m.name(),
        None => Material::Solid.name(),
    }
}

} // verus!
