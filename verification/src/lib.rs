//! A frame-graph compiler and executor for GPU rendering pipelines.
//!
//! A renderer describes a set of named render passes, each declaring the
//! textures and buffers it reads and writes.  The graph turns that
//! declarative description into an execution order that respects data
//! dependencies and into a physical-slot assignment that reuses memory
//! between resources whose lifetimes do not overlap.

pub mod alias;
pub mod compile;
pub mod graph;
pub mod laws;
pub mod pass;
pub mod record;
pub mod resource;
pub mod schedule;

pub use alias::ResKey;
pub use alias::ResWindow;
pub use graph::CompiledPlan;
pub use graph::RenderGraph;

pub use pass::RenderPass;
pub use record::CallbackLog;
pub use record::PassCallback;
pub use record::RecordingContext;

pub use resource::AttachmentCreateInfo;
pub use resource::AttachmentInfo;
pub use resource::AttachmentSize;
pub use resource::BufferAttachmentInfo;
pub use resource::BufferInfo;
pub use resource::RenderGraphBuffer;
pub use resource::RenderGraphError;
pub use resource::RenderGraphTexture;
