use vstd::prelude::*;
use crate::color::Color;
use crate::fixed::FX_LIMIT;

verus! {

/// A three-component vector in signed fixed-point (`FX_ONE` = 1.0).
#[derive(Clone, Copy, PartialEq, Eq, Structural, Debug)]
pub struct Fx3 {
    pub x: i64,
    pub y: i64,
    pub z: i64,
}

impl Fx3 {
    pub fn new(x: i64, y: i64, z: i64) -> (v: Fx3)
        ensures
            v == (Fx3 { x, y, z }),
    {
        Fx3 { x, y, z }
    }
}

/// Dot product of two vectors, as unbounded integers.
pub open spec fn dot3(a: Fx3, b: Fx3) -> int {
    a.x * b.x + a.y * b.y + a.z * b.z
}

/// All components within `lim` in magnitude.
pub open spec fn fx3_within(v: Fx3, lim: int) -> bool {
    &&& -lim <= v.x <= lim
    &&& -lim <= v.y <= lim
    &&& -lim <= v.z <= lim
}

/// A model-space vertex: position and normal in fixed point, plus a base
/// color carried through to shading.
#[derive(Clone, Copy, PartialEq, Eq, Structural, Debug)]
pub struct Vertex {
    pub position: Fx3,
    pub normal: Fx3,
    pub color: Color,
}

impl Vertex {
    pub fn new(position: Fx3, normal: Fx3, color: Color) -> (v: Vertex)
        ensures
            v == (Vertex { position, normal, color }),
    {
        Vertex { position, normal, color }
    }
}

/// Magnitude bound on a vertex that the vertex stage accepts: keeps every
/// product in the transform within `i64`.
pub open spec fn vertex_ok(v: Vertex) -> bool {
    &&& fx3_within(v.position, FX_LIMIT as int)
    &&& fx3_within(v.normal, FX_LIMIT as int)
}

/// Output of the vertex stage: a whole-pixel screen position (`x`, `y`),
/// the fixed-point depth `z`, the transformed normal, and the pass-through
/// base color.
#[derive(Clone, Copy, PartialEq, Eq, Structural, Debug)]
pub struct TransformedVertex {
    pub x: i64,
    pub y: i64,
    pub z: i64,
    pub normal: Fx3,
    pub color: Color,
}

} // verus!
