//! Scene-graph traversal and frame composition for a forward-lit renderer.
//!
//! The library keeps the node hierarchy in an arena addressed by integer
//! handles, composes world transforms along the ancestor chain, gathers the
//! draw list and the light list of a frame in one walk, lays out per-instance
//! uniform slots at aligned byte offsets, and turns a frame plan into the
//! ordered steps that a GPU backend performs.
pub mod linalg;
pub mod node;
pub mod scene;
pub mod instance;
pub mod traversal;
pub mod animation;
pub mod frame;
pub mod input;
pub mod geometry;

pub use animation::{OrbitRig, RigPose};
pub use frame::{frame_action, surface_size, FrameAction, FrameStep, SurfaceStatus};
pub use instance::{align_to, InstanceLayout, LayoutError};
pub use node::{Node, Variant};
pub use scene::{Scene, SceneError, MAX_ENTITY, MAX_LIGHT, ROOT};
pub use traversal::{DrawItem, FramePlan, Light};
