//! Values that describe a 3D scene: bounding boxes, transforms, shadow casters.
use vstd::prelude::*;

verus! {

/// An axis-aligned bounding box between two corners.
#[derive(Clone, Copy, Debug)]
pub struct AABB<V> {
    pub min: V,
    pub max: V,
}

/// How the view is split for shadow maps.
#[derive(Clone, Copy, Debug, PartialEq, Eq, Structural)]
pub enum ShadowSplit {
    Orthogonal,
    PSSM2,
    PSSM4,
}

/// A light that casts shadows in `direction`.
pub struct ShadowCaster<V> {
    pub direction: V,
    pub split: ShadowSplit,
}

/// Position, scale and rotation of a model.
pub struct Transform<V, Q> {
    pub translation: V,
    pub scale: V,
    pub rotation: Q,
}

/// The number of a model in its scene.
#[derive(Clone, Copy, Debug, PartialEq, Eq, Structural)]
pub struct ModelHandle(pub usize);

} // verus!
