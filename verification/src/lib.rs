//! Offline compiler and runtime loader for a compact, big-endian binary
//! asset format: meshes with optional skeletal rigs, keyframe animation
//! clips, and raster images.
//!
//! Floating-point samples (vertex attributes, matrices) travel through the
//! pipeline untouched, so this crate stores and moves them as their 32-bit
//! IEEE bit patterns (`u32` words); turning a word back into a float is the
//! renderer's business.

use vstd::prelude::*;

pub mod animation;
pub mod codec;
pub mod compiler;
pub mod cursor;
pub mod mat;
pub mod mesh;
pub mod roundtrip;
pub mod skeleton;
pub mod texture;
pub mod vertex;

verus! {

/// Everything that can go wrong while compiling or decoding an asset.
#[derive(Clone, Copy, PartialEq, Eq, Structural, Debug)]
pub enum AssetError {
    /// The buffer ended before a whole field could be read.
    Truncated,
    /// The leading magic byte does not match the expected asset kind.
    BadMagic,
    /// The vertex-variant name in a mesh file is not a known variant.
    UnknownVertexType,
    /// The mesh's vertex variant cannot be bound to the given material.
    IncompatibleMaterial,
    /// A skeleton's joint count is at or above the fixed capacity.
    TooManyJoints,
    /// A joint names a parent index that is neither the root sentinel nor a
    /// valid joint index.
    InvalidParent,
    /// Following parent links from some joint never reaches the root.
    CyclicHierarchy,
    /// A skinned mesh primitive lacks normals, UVs, joints or weights.
    MissingAttribute,
    /// A skinned mesh document carries no skin.
    MissingSkin,
    /// An index-buffer entry points past the end of a vertex attribute.
    IndexOutOfRange,
}

} // verus!
