//! Per-instance records and group metadata.
//!
//! Every numeric attribute is a `u32` word: the bit pattern of whatever
//! host-side scalar the application uses.  The core never interprets the
//! words; it only stores, copies and uploads them, so carrying bit patterns
//! loses nothing and keeps the whole data path exactly representable.

use vstd::prelude::*;

verus! {

/// Identifies the texture bound to a sprite group or batch.
#[derive(Clone, Copy, PartialEq, Eq, Structural, Debug, Hash)]
pub struct TextureRef(pub u32);

/// Blending mode of a batch; part of the draw key.
#[derive(Clone, Copy, PartialEq, Eq, Structural, Debug, Hash)]
pub enum BlendMode {
    Additive,
}

/// Errors reported by the group table and instance store.
#[derive(Clone, Copy, PartialEq, Eq, Structural, Debug)]
pub enum GroupError {
    /// The operation referenced a removed or unknown group.
    InvalidGroup,
    /// The requested range exceeds the group's logical length.
    OutOfBounds,
}

/// World transform of one sprite instance: position, extent and rotation,
/// each field a scalar bit pattern.
#[derive(Clone, Copy, PartialEq, Eq, Debug)]
pub struct Transform {
    pub x: u32,
    pub y: u32,
    pub w: u32,
    pub h: u32,
    pub rot: u32,
}

/// Texture-sheet region of one sprite instance: which sheet and which
/// sub-rectangle of it the sprite samples.
#[derive(Clone, Copy, PartialEq, Eq, Debug)]
pub struct SheetRegion {
    pub sheet: u32,
    pub x: u32,
    pub y: u32,
    pub w: u32,
    pub h: u32,
}

impl Transform {
    /// The all-zero transform used for newly exposed instance slots.
    pub open spec fn spec_zero() -> Transform {
        Transform { x: 0, y: 0, w: 0, h: 0, rot: 0 }
    }

    /// Returns the all-zero transform.
    pub fn zero() -> (r: Transform)
        ensures
            r == Transform::spec_zero(),
    {
        Transform { x: 0, y: 0, w: 0, h: 0, rot: 0 }
    }
}

impl SheetRegion {
    /// The all-zero region used for newly exposed instance slots.
    pub open spec fn spec_zero() -> SheetRegion {
        SheetRegion { sheet: 0, x: 0, y: 0, w: 0, h: 0 }
    }

    /// Returns the all-zero region.
    pub fn zero() -> (r: SheetRegion)
        ensures
            r == SheetRegion::spec_zero(),
    {
        SheetRegion { sheet: 0, x: 0, y: 0, w: 0, h: 0 }
    }
}

/// World transform of one mesh instance: translation, rotation (as a
/// quaternion) and uniform scale, each field a scalar bit pattern.
#[derive(Clone, Copy, PartialEq, Eq, Debug)]
pub struct Transform3D {
    pub tx: u32,
    pub ty: u32,
    pub tz: u32,
    pub rx: u32,
    pub ry: u32,
    pub rz: u32,
    pub rw: u32,
    pub scale: u32,
}

impl Transform3D {
    /// The all-zero transform used for newly exposed instance slots.
    pub open spec fn spec_zero() -> Transform3D {
        Transform3D { tx: 0, ty: 0, tz: 0, rx: 0, ry: 0, rz: 0, rw: 0, scale: 0 }
    }

    /// Returns the all-zero transform.
    pub fn zero() -> (r: Transform3D)
        ensures
            r == Transform3D::spec_zero(),
    {
        Transform3D { tx: 0, ty: 0, tz: 0, rx: 0, ry: 0, rz: 0, rw: 0, scale: 0 }
    }
}

/// Public record describing one billboard instance: a texture-sheet
/// sub-rectangle, a position with rotation, and an extent with opacity.
/// Each array element is a scalar bit pattern.
#[derive(Clone, Copy, PartialEq, Debug)]
pub struct SingleRenderState {
    pub uv_region: [u32; 4],
    pub position_rot: [u32; 4],
    pub size_alpha: [u32; 3],
}

/// GPU-layout twin of [`SingleRenderState`]: same fields, same order, same
/// widths.  Kept distinct so the public record and the buffer layout can
/// evolve separately; the two are related only through the checked
/// field-by-field conversion below.
#[derive(Clone, Copy, PartialEq, Debug)]
pub struct InstanceData {
    pub uv_region: [u32; 4],
    pub position_rot: [u32; 4],
    pub size_alpha: [u32; 3],
}

impl SingleRenderState {
    /// Builds a record from its three word groups.
    pub fn new(uv_region: [u32; 4], position_rot: [u32; 4], size_alpha: [u32; 3]) -> (r:
        SingleRenderState)
        ensures
            r.uv_region == uv_region,
            r.position_rot == position_rot,
            r.size_alpha == size_alpha,
    {
        SingleRenderState { uv_region, position_rot, size_alpha }
    }
}

/// What the field-by-field conversion produces: the same words under the
/// GPU-layout type.
pub open spec fn spec_instance_data_of(s: SingleRenderState) -> InstanceData {
    InstanceData {
        uv_region: s.uv_region,
        position_rot: s.position_rot,
        size_alpha: s.size_alpha,
    }
}

/// Converts the public record into its GPU-layout twin, field by field.
/// This replaces any bit-level reinterpretation: the conversion is explicit
/// and its result is pinned down exactly.
pub fn instance_data_of(s: &SingleRenderState) -> (r: InstanceData)
    ensures
        r == spec_instance_data_of(*s),
{
    InstanceData {
        uv_region: s.uv_region,
        position_rot: s.position_rot,
        size_alpha: s.size_alpha,
    }
}

/// Converts a GPU-layout record back into the public record, field by field.
pub fn single_render_state_of(d: &InstanceData) -> (r: SingleRenderState)
    ensures
        spec_instance_data_of(r) == *d,
{
    SingleRenderState {
        uv_region: d.uv_region,
        position_rot: d.position_rot,
        size_alpha: d.size_alpha,
    }
}

} // verus!
