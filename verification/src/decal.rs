//! How decals are blended and how their vertices are joined.

use vstd::prelude::*;

verus! {

/// How a decal is blended into what lies below it.
#[derive(Debug, Clone, Copy, PartialEq, Eq, Structural)]
pub enum DecalMode {
    Normal,
    Additive,
    Multiplicative,
    Stencil,
    Illuminate,
    Wireframe,
    Model3D,
}

/// How the vertices of a decal form its shape.
#[derive(Debug, Clone, Copy, PartialEq, Eq, Structural)]
pub enum DecalStructure {
    Line,
    Fan,
    Strip,
    List,
}

} // verus!
