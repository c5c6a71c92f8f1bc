//! Logical resources: named textures and buffers, described independently of
//! any physical memory that later backs them.

use vstd::prelude::*;

verus! {

/// Every way a graph operation can fail.  All failures are reported as
/// recoverable result values; none aborts or is silently dropped.
#[derive(Clone, Copy, Debug, PartialEq, Eq, Structural)]
pub enum RenderGraphError {
    /// A pass name given to a lookup does not resolve.
    NonExistentPass,
    /// An `Existing(name)` reference does not resolve in the registry.
    NonExistentResource,
    /// The name is already registered for another resource or pass.
    RedundantResource,
    /// No execution order consistent with the dependency graph exists.
    CyclicDependency,
    /// `execute` was called before any successful `compile`.
    NotCompiled,
}

/// The declared extent of a texture: either absolute pixels, or a scale of
/// the externally supplied swapchain extent.  Scales are stored in
/// thousandths, so `SwapchainRelative(1000, 500)` means full width and half
/// height of the reference extent.
#[derive(Clone, Copy, Debug, PartialEq, Eq, Structural)]
pub enum AttachmentSize {
    Absolute(u32, u32),
    SwapchainRelative(u32, u32),
}

impl AttachmentSize {
    /// The absolute dimensions this descriptor denotes against a reference
    /// extent, with relative scales applied in thousandths.
    pub open spec fn spec_resolve(self, ref_width: u32, ref_height: u32) -> (u64, u64) {
        match self {
            AttachmentSize::Absolute(w, h) => (w as u64, h as u64),
            AttachmentSize::SwapchainRelative(sx, sy) => (
                ((ref_width * sx) / 1000) as u64,
                ((ref_height * sy) / 1000) as u64,
            ),
        }
    }

    /// Resolve the descriptor to absolute dimensions, given the reference
    /// extent of the swapchain.
    pub fn resolve(&self, ref_width: u32, ref_height: u32) -> (r: (u64, u64))
        ensures
            r == self.spec_resolve(ref_width, ref_height),
    {
        match self {
            AttachmentSize::Absolute(w, h) => (*w as u64, *h as u64),
            AttachmentSize::SwapchainRelative(sx, sy) => {
                proof {
                    assert((ref_width as int) * (*sx as int) < 0x1_0000_0000_0000_0000) by (nonlinear_arith)
                        requires
                            ref_width < 0x1_0000_0000,
                            *sx < 0x1_0000_0000,
                    ;
                    assert((ref_height as int) * (*sy as int) < 0x1_0000_0000_0000_0000) by (nonlinear_arith)
                        requires
                            ref_height < 0x1_0000_0000,
                            *sy < 0x1_0000_0000,
                    ;
                }
                ((ref_width as u64) * (*sx as u64) / 1000, (ref_height as u64) * (*sy as u64)
                    / 1000)
            },
        }
    }
}

/// Everything needed to create a texture: its unique name, extent
/// descriptor, and pixel format code.
#[derive(Clone, Debug)]
pub struct AttachmentCreateInfo {
    pub size: AttachmentSize,
    pub format: u32,
    pub name: String,
}

impl Default for AttachmentCreateInfo {
    /// A swapchain-sized attachment with the zero format code and an empty
    /// name.
    fn default() -> (r: Self)
        ensures
            r.size == AttachmentSize::SwapchainRelative(1000u32, 1000u32),
            r.format == 0u32,
            r.name@ == Seq::<char>::empty(),
    {
        AttachmentCreateInfo {
            size: AttachmentSize::SwapchainRelative(1000, 1000),
            format: 0,
            name: String::new(),
        }
    }
}

/// How a pass declares an image it touches: by the name of a texture that
/// must already exist, or by creating a new one on the spot.
#[derive(Clone, Debug)]
pub enum AttachmentInfo {
    Existing(String),
    New(AttachmentCreateInfo),
}

/// The creation parameters of a buffer: its size in bytes.
#[derive(Clone, Copy, Debug, PartialEq, Eq, Structural)]
pub struct BufferInfo {
    pub size: u64,
}

/// How a pass declares a buffer it touches: by the name of a buffer that
/// must already exist, or by creating a new one on the spot under the given
/// name.
#[derive(Clone, Debug)]
pub enum BufferAttachmentInfo {
    Existing(String),
    New(String, BufferInfo),
}

/// A logical texture: its declared extent and format, and whether its
/// backing is supplied from outside the graph.  External textures are never
/// eligible for aliasing.
#[derive(Clone, Copy, Debug, PartialEq, Eq, Structural)]
pub struct RenderGraphTexture {
    pub size: AttachmentSize,
    pub format: u32,
    pub external: bool,
}

impl RenderGraphTexture {
    /// Whether two textures are layout-compatible for sharing one physical
    /// slot: identical format and extent descriptor, and neither external.
    pub fn aliasable(&self, other: &RenderGraphTexture) -> (r: bool)
        ensures
            r == (self.format == other.format && self.size == other.size && !self.external
                && !other.external),
    {
        other.format == self.format && other.size == self.size && !self.external
            && !other.external
    }

    /// The internal (non-external) texture an `AttachmentCreateInfo`
    /// describes.
    pub(crate) fn from_attachment_info(info: &AttachmentCreateInfo) -> (r: RenderGraphTexture)
        ensures
            r.size == info.size,
            r.format == info.format,
            !r.external,
    {
        RenderGraphTexture { size: info.size, format: info.format, external: false }
    }
}

/// A logical buffer: its declared size in bytes.
#[derive(Clone, Copy, Debug, PartialEq, Eq, Structural)]
pub struct RenderGraphBuffer {
    pub size: u64,
}

} // verus!
