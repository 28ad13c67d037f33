//! Per-frame draw batching for terrain and mesh render passes: two-level
//! (material, mesh) batches, frame-slot buffers with change detection, a
//! material interner, a skinning aggregator and the draw-group state machine.
pub mod change;
pub mod frame;
pub mod gather;
pub mod ids;
pub mod material;
pub mod ordered;
pub mod pass;
pub mod skinning;
pub mod terrain;
pub mod unordered;

pub use change::ChangeDetection;
pub use frame::FrameBuffers;
pub use gather::{AssetState, EntityData};
pub use material::MaterialInterner;
pub use ids::{GroupRange, InstanceRecord, JointMatrix, MaterialId, MeshId, SameAs};
pub use ordered::OrderedTwoLevelBatch;
pub use pass::{ResidentMesh, DrawState, DrawTerrain, DrawTerrainDesc, DrawTerrainTransparent, DrawTerrainTransparentDesc, PipelineSettings, PrepareResult, VertexAttribute};
pub use skinning::SkinningAggregator;
pub use terrain::{ShaderModule, TerrainFlatPassDef, TerrainMaterial, TerrainShadedPassDef, TextureSlot};
pub use unordered::TwoLevelBatch;
