//! A real-time rendering front-end core: GPU-resident instance data grouped
//! into sprite and mesh batches, dirty-range tracking of in-memory edits,
//! and a deferred per-frame flush that replays the queued edits as
//! coalesced buffer writes.
//!
//! All numeric per-instance attributes are carried as `u32` words (bit
//! patterns of the host-side scalar values); the device-side buffers are
//! modeled as plain arrays so that the whole edit/flush/read-back cycle is
//! verified.

mod batch;
mod frenderer;
mod instance;
mod meshes;
mod sprites;
mod textures;

pub use batch::BatchAggregator;
pub use batch::BatchKey;
pub use batch::DrawCall;
pub use frenderer::Renderer;
pub use frenderer::Upload;
pub use instance::BlendMode;
pub use instance::GroupError;
pub use instance::InstanceData;
pub use instance::SheetRegion;
pub use instance::SingleRenderState;
pub use instance::TextureRef;
pub use instance::Transform;
pub use instance::Transform3D;
pub use instance::instance_data_of;
pub use instance::single_render_state_of;
pub use meshes::MeshGroup;
pub use meshes::MeshRenderer;
pub use sprites::SpriteGroup;
pub use sprites::SpriteRenderer;
pub use textures::concat_layers;
