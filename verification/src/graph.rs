//! The render graph: the resource and pass registries, the declaration
//! API, and the compiled plan.

use vstd::prelude::*;
use crate::alias::ResWindow;
use crate::pass::RenderPass;
use crate::pass::contains_name;
use crate::pass::has_name;
use crate::record::RecordingContext;
use crate::resource::AttachmentCreateInfo;
use crate::resource::AttachmentInfo;
use crate::resource::BufferAttachmentInfo;
use crate::resource::BufferInfo;
use crate::resource::RenderGraphBuffer;
use crate::resource::RenderGraphError;
use crate::resource::RenderGraphTexture;

verus! {

/// The result of a successful `compile`: the pass indices in execution
/// order, the fully resolved recording context of each pass in that order,
/// the physical slot of every resource, and the lifetime window from which
/// each slot decision was derived.  Slots and windows are indexed like the
/// registries at the time of compilation.
pub struct CompiledPlan {
    pub order: Vec<usize>,
    pub records: Vec<RecordingContext>,
    pub tex_slots: Vec<usize>,
    pub buf_slots: Vec<usize>,
    pub tex_windows: Vec<ResWindow>,
    pub buf_windows: Vec<ResWindow>,
}

/// A render graph: named logical textures and buffers, named passes
/// declaring which of them they read and write, and, once compiled, an
/// executable plan.
pub struct RenderGraph {
    /// Opaque handle of the device capability the graph is bound to.  The
    /// core stores it for the backing allocator and never interprets it.
    pub device: u64,
    /// Opaque handle of the work-queue capability, stored the same way.
    pub queue: u64,
    pub textures: Vec<(String, RenderGraphTexture)>,
    pub buffers: Vec<(String, RenderGraphBuffer)>,
    pub passes: Vec<RenderPass>,
    pub plan: Option<CompiledPlan>,
}

impl RenderGraph {
    /// How many textures are registered.
    pub open spec fn tex_count(self) -> int {
        self.textures@.len() as int
    }

    /// How many buffers are registered.
    pub open spec fn buf_count(self) -> int {
        self.buffers@.len() as int
    }

    /// How many passes are registered.
    pub open spec fn pass_count(self) -> int {
        self.passes@.len() as int
    }

    /// Whether a texture named `n` is registered.
    pub open spec fn tex_exists(self, n: Seq<char>) -> bool {
        exists|t: int| 0 <= t < self.tex_count() && #[trigger] self.textures@[t].0@ == n
    }

    /// Whether a buffer named `n` is registered.
    pub open spec fn buf_exists(self, n: Seq<char>) -> bool {
        exists|b: int| 0 <= b < self.buf_count() && #[trigger] self.buffers@[b].0@ == n
    }

    /// Whether any resource named `n` is registered.  Texture and buffer
    /// names live in one namespace.
    pub open spec fn res_exists(self, n: Seq<char>) -> bool {
        self.tex_exists(n) || self.buf_exists(n)
    }

    /// Whether a pass named `n` is registered.
    pub open spec fn pass_exists(self, n: Seq<char>) -> bool {
        exists|p: int| 0 <= p < self.pass_count() && #[trigger] self.passes@[p].name@ == n
    }

    /// The index of the texture named `n`, when one exists.
    pub open spec fn tex_index_of(self, n: Seq<char>) -> int {
        choose|t: int| 0 <= t < self.tex_count() && #[trigger] self.textures@[t].0@ == n
    }

    /// The index of the buffer named `n`, when one exists.
    pub open spec fn buf_index_of(self, n: Seq<char>) -> int {
        choose|b: int| 0 <= b < self.buf_count() && #[trigger] self.buffers@[b].0@ == n
    }

    /// Every name declared by pass `p` resolves in the registries: image
    /// names to textures, buffer names to buffers.
    pub open spec fn pass_resolves(self, p: int) -> bool {
        let pass = self.passes@[p];
        &&& forall|i: int|
            0 <= i < pass.input_images@.len() ==> self.tex_exists(
                #[trigger] pass.input_images@[i]@,
            )
        &&& forall|i: int|
            0 <= i < pass.output_images@.len() ==> self.tex_exists(
                #[trigger] pass.output_images@[i]@,
            )
        &&& forall|i: int|
            0 <= i < pass.input_buffers@.len() ==> self.buf_exists(
                #[trigger] pass.input_buffers@[i]@,
            )
        &&& forall|i: int|
            0 <= i < pass.output_buffers@.len() ==> self.buf_exists(
                #[trigger] pass.output_buffers@[i]@,
            )
    }

    /// Well-formedness: resource names are unique across both registries,
    /// pass names are unique, each pass's declaration lists are
    /// duplicate-free, and every declared name resolves.  Every public
    /// operation preserves this.
    pub open spec fn wf(self) -> bool {
        &&& forall|i: int, j: int|
            0 <= i < j < self.tex_count() ==> #[trigger] self.textures@[i].0@
                != #[trigger] self.textures@[j].0@
        &&& forall|i: int, j: int|
            0 <= i < j < self.buf_count() ==> #[trigger] self.buffers@[i].0@
                != #[trigger] self.buffers@[j].0@
        &&& forall|i: int, j: int|
            0 <= i < self.tex_count() && 0 <= j < self.buf_count()
                ==> #[trigger] self.textures@[i].0@ != #[trigger] self.buffers@[j].0@
        &&& forall|i: int, j: int|
            0 <= i < j < self.pass_count() ==> #[trigger] self.passes@[i].name@
                != #[trigger] self.passes@[j].name@
        &&& forall|p: int| 0 <= p < self.pass_count() ==> (#[trigger] self.passes@[p]).lists_distinct()
        &&& forall|p: int| 0 <= p < self.pass_count() ==> self.pass_resolves(p)
    }

    /// An empty graph, not yet compiled, bound to the given device and
    /// queue capability handles.
    pub fn new(device: u64, queue: u64) -> (r: RenderGraph)
        ensures
            r.wf(),
            r.device == device,
            r.queue == queue,
            r.textures@ == Seq::<(String, RenderGraphTexture)>::empty(),
            r.buffers@ == Seq::<(String, RenderGraphBuffer)>::empty(),
            r.passes@ == Seq::<RenderPass>::empty(),
            r.plan is None,
    {
        RenderGraph {
            device,
            queue,
            textures: Vec::new(),
            buffers: Vec::new(),
            passes: Vec::new(),
            plan: None,
        }
    }

    /// The index of the texture named `name`, if one is registered.
    pub fn find_texture(&self, name: &String) -> (r: Option<usize>)
        ensures
            match r {
                Some(t) => t < self.tex_count() && self.textures@[t as int].0@ == name@,
                None => !self.tex_exists(name@),
            },
    {
        let mut t: usize = 0;
        while t < self.textures.len()
            invariant
                0 <= t <= self.tex_count(),
                forall|k: int| 0 <= k < t ==> #[trigger] self.textures@[k].0@ != name@,
            decreases self.tex_count() - t,
        {
            if self.textures[t].0.eq(name) {
                return Some(t);
            }
            t += 1;
        }
        None
    }

    /// The index of the buffer named `name`, if one is registered.
    pub fn find_buffer(&self, name: &String) -> (r: Option<usize>)
        ensures
            match r {
                Some(b) => b < self.buf_count() && self.buffers@[b as int].0@ == name@,
                None => !self.buf_exists(name@),
            },
    {
        let mut b: usize = 0;
        while b < self.buffers.len()
            invariant
                0 <= b <= self.buf_count(),
                forall|k: int| 0 <= k < b ==> #[trigger] self.buffers@[k].0@ != name@,
            decreases self.buf_count() - b,
        {
            if self.buffers[b].0.eq(name) {
                return Some(b);
            }
            b += 1;
        }
        None
    }

    /// Whether a texture named `name` is registered.
    pub fn texture_exists(&self, name: &String) -> (r: bool)
        ensures
            r == self.tex_exists(name@),
    {
        self.find_texture(name).is_some()
    }

    /// Whether a buffer named `name` is registered.
    pub fn buffers_exists(&self, name: &String) -> (r: bool)
        ensures
            r == self.buf_exists(name@),
    {
        self.find_buffer(name).is_some()
    }

    /// Whether any resource named `name` is registered.
    pub fn resource_exists(&self, name: &String) -> (r: bool)
        ensures
            r == self.res_exists(name@),
    {
        self.texture_exists(name) || self.buffers_exists(name)
    }

    /// The texture named `name`, if one is registered.
    pub fn get_texture(&self, name: &String) -> (r: Option<&RenderGraphTexture>)
        ensures
            match r {
                Some(t) => exists|i: int|
                    0 <= i < self.tex_count() && #[trigger] self.textures@[i].0@ == name@
                        && *t == self.textures@[i].1,
                None => !self.tex_exists(name@),
            },
    {
        match self.find_texture(name) {
            Some(t) => Some(&self.textures[t].1),
            None => None,
        }
    }

    /// The buffer named `name`, if one is registered.
    pub fn get_buffer(&self, name: &String) -> (r: Option<&RenderGraphBuffer>)
        ensures
            match r {
                Some(b) => exists|i: int|
                    0 <= i < self.buf_count() && #[trigger] self.buffers@[i].0@ == name@
                        && *b == self.buffers@[i].1,
                None => !self.buf_exists(name@),
            },
    {
        match self.find_buffer(name) {
            Some(b) => Some(&self.buffers[b].1),
            None => None,
        }
    }

    /// Register a new internal texture.  Fails with `RedundantResource`,
    /// changing nothing, when any resource already carries the name.
    pub fn create_texture(&mut self, info: AttachmentCreateInfo) -> (r: Result<
        (),
        RenderGraphError,
    >)
        requires
            old(self).wf(),
        ensures
            final(self).wf(),
            final(self).device == old(self).device,
            final(self).queue == old(self).queue,
            final(self).buffers == old(self).buffers,
            final(self).passes == old(self).passes,
            final(self).plan == old(self).plan,
            old(self).res_exists(info.name@) ==> r == Err::<(), RenderGraphError>(
                RenderGraphError::RedundantResource,
            ) && final(self).textures == old(self).textures,
            !old(self).res_exists(info.name@) ==> r == Ok::<(), RenderGraphError>(()) && final(self).textures@ == old(self).textures@.push(
                (
                    info.name,
                    RenderGraphTexture { size: info.size, format: info.format, external: false },
                ),
            ),
    {
        self.insert_texture(info, false)
    }

    /// Register a texture whose backing is supplied from outside the
    /// graph, such as a presentable swapchain image.  It participates in
    /// dependencies like any texture but is never eligible for aliasing.
    /// Fails with `RedundantResource`, changing nothing, when any resource
    /// already carries the name.
    pub fn import_texture(&mut self, info: AttachmentCreateInfo) -> (r: Result<
        (),
        RenderGraphError,
    >)
        requires
            old(self).wf(),
        ensures
            final(self).wf(),
            final(self).device == old(self).device,
            final(self).queue == old(self).queue,
            final(self).buffers == old(self).buffers,
            final(self).passes == old(self).passes,
            final(self).plan == old(self).plan,
            old(self).res_exists(info.name@) ==> r == Err::<(), RenderGraphError>(
                RenderGraphError::RedundantResource,
            ) && final(self).textures == old(self).textures,
            !old(self).res_exists(info.name@) ==> r == Ok::<(), RenderGraphError>(()) && final(self).textures@ == old(self).textures@.push(
                (
                    info.name,
                    RenderGraphTexture { size: info.size, format: info.format, external: true },
                ),
            ),
    {
        self.insert_texture(info, true)
    }

    /// Shared body of `create_texture` and `import_texture`.
    fn insert_texture(&mut self, info: AttachmentCreateInfo, external: bool) -> (r: Result<
        (),
        RenderGraphError,
    >)
        requires
            old(self).wf(),
        ensures
            final(self).wf(),
            final(self).device == old(self).device,
            final(self).queue == old(self).queue,
            final(self).buffers == old(self).buffers,
            final(self).passes == old(self).passes,
            final(self).plan == old(self).plan,
            old(self).res_exists(info.name@) ==> r == Err::<(), RenderGraphError>(
                RenderGraphError::RedundantResource,
            ) && final(self).textures == old(self).textures,
            !old(self).res_exists(info.name@) ==> r == Ok::<(), RenderGraphError>(()) && final(self).textures@ == old(self).textures@.push(
                (info.name, RenderGraphTexture { size: info.size, format: info.format, external }),
            ),
    {
        if self.resource_exists(&info.name) {
            return Err(RenderGraphError::RedundantResource);
        }
        let tex = RenderGraphTexture { size: info.size, format: info.format, external };
        self.textures.push((info.name, tex));
        proof {
            lemma_push_preserves_wf_tex(*old(self), *self);
        }
        Ok(())
    }

    /// Register a new buffer of `info.size` bytes.  Fails with
    /// `RedundantResource`, changing nothing, when any resource already
    /// carries the name.
    pub fn create_buffer(&mut self, name: String, info: BufferInfo) -> (r: Result<
        (),
        RenderGraphError,
    >)
        requires
            old(self).wf(),
        ensures
            final(self).wf(),
            final(self).device == old(self).device,
            final(self).queue == old(self).queue,
            final(self).textures == old(self).textures,
            final(self).passes == old(self).passes,
            final(self).plan == old(self).plan,
            old(self).res_exists(name@) ==> r == Err::<(), RenderGraphError>(
                RenderGraphError::RedundantResource,
            ) && final(self).buffers == old(self).buffers,
            !old(self).res_exists(name@) ==> r == Ok::<(), RenderGraphError>(()) && final(self).buffers@ == old(self).buffers@.push((name, RenderGraphBuffer { size: info.size })),
    {
        if self.resource_exists(&name) {
            return Err(RenderGraphError::RedundantResource);
        }
        self.buffers.push((name, RenderGraphBuffer { size: info.size }));
        proof {
            lemma_push_preserves_wf_buf(*old(self), *self);
        }
        Ok(())
    }

    /// The handle of the pass named `name`, if one is registered.
    pub fn pass_id(&self, name: &String) -> (r: Option<usize>)
        ensures
            match r {
                Some(p) => p < self.pass_count() && self.passes@[p as int].name@ == name@,
                None => !self.pass_exists(name@),
            },
    {
        let mut p: usize = 0;
        while p < self.passes.len()
            invariant
                0 <= p <= self.pass_count(),
                forall|k: int| 0 <= k < p ==> #[trigger] self.passes@[k].name@ != name@,
            decreases self.pass_count() - p,
        {
            if self.passes[p].name.eq(name) {
                return Some(p);
            }
            p += 1;
        }
        None
    }

    /// Register a new, empty pass and return its handle.  Fails with
    /// `RedundantResource`, changing nothing, when a pass already carries
    /// the name.
    pub fn add_pass(&mut self, pass_name: String) -> (r: Result<usize, RenderGraphError>)
        requires
            old(self).wf(),
        ensures
            final(self).wf(),
            final(self).device == old(self).device,
            final(self).queue == old(self).queue,
            final(self).textures == old(self).textures,
            final(self).buffers == old(self).buffers,
            final(self).plan == old(self).plan,
            old(self).pass_exists(pass_name@) ==> r == Err::<usize, RenderGraphError>(
                RenderGraphError::RedundantResource,
            ) && final(self).passes == old(self).passes,
            !old(self).pass_exists(pass_name@) ==> {
                &&& r == Ok::<usize, RenderGraphError>(old(self).passes@.len() as usize)
                &&& final(self).passes@.len() == old(self).passes@.len() + 1
                &&& forall|q: int|
                    0 <= q < old(self).passes@.len() ==> final(self).passes@[q] == old(
                        self,
                    ).passes@[q]
                &&& final(self).passes@.last().name == pass_name
                &&& final(self).passes@.last().input_images@.len() == 0
                &&& final(self).passes@.last().output_images@.len() == 0
                &&& final(self).passes@.last().input_buffers@.len() == 0
                &&& final(self).passes@.last().output_buffers@.len() == 0
                &&& final(self).passes@.last().callback == 0u64
            },
    {
        if self.pass_id(&pass_name).is_some() {
            return Err(RenderGraphError::RedundantResource);
        }
        let id = self.passes.len();
        self.passes.push(RenderPass::empty(pass_name));
        proof {
            lemma_push_preserves_wf_pass(*old(self), *self);
        }
        Ok(id)
    }

    /// Attach the recording routine handle `callback` to the pass.  A pass
    /// retains exactly one handle: the last write wins.  Fails with
    /// `NonExistentPass`, changing nothing, when the handle is invalid.
    pub fn set_callback(&mut self, pass: usize, callback: u64) -> (r: Result<
        (),
        RenderGraphError,
    >)
        requires
            old(self).wf(),
        ensures
            final(self).wf(),
            final(self).device == old(self).device,
            final(self).queue == old(self).queue,
            final(self).textures == old(self).textures,
            final(self).buffers == old(self).buffers,
            final(self).plan == old(self).plan,
            pass >= old(self).pass_count() ==> r == Err::<(), RenderGraphError>(
                RenderGraphError::NonExistentPass,
            ) && final(self).passes == old(self).passes,
            pass < old(self).pass_count() ==> {
                &&& r == Ok::<(), RenderGraphError>(())
                &&& final(self).passes@.len() == old(self).passes@.len()
                &&& forall|q: int|
                    0 <= q < old(self).passes@.len() && q != pass ==> final(self).passes@[q] == old(
                        self,
                    ).passes@[q]
                &&& final(self).passes@[pass as int].callback == callback
                &&& final(self).passes@[pass as int].name == old(self).passes@[pass as int].name
                &&& final(self).passes@[pass as int].input_images@ == old(self).passes@[pass as int].input_images@
                &&& final(self).passes@[pass as int].output_images@ == old(self).passes@[pass as int].output_images@
                &&& final(self).passes@[pass as int].input_buffers@ == old(self).passes@[pass as int].input_buffers@
                &&& final(self).passes@[pass as int].output_buffers@ == old(self).passes@[pass as int].output_buffers@
            },
    {
        if pass >= self.passes.len() {
            return Err(RenderGraphError::NonExistentPass);
        }
        let mut np = self.passes[pass].duplicate();
        np.callback = callback;
        self.passes.set(pass, np);
        proof {
            lemma_pass_meta_preserves_wf(*old(self), *self, pass as int);
        }
        Ok(())
    }

    /// Declare an image the pass consumes.  See [`image_declared`] for the
    /// exact effect of every case.
    pub fn add_color_input(&mut self, pass: usize, info: AttachmentInfo) -> (r: Result<
        (),
        RenderGraphError,
    >)
        requires
            old(self).wf(),
        ensures
            final(self).wf(),
            image_declared(*old(self), *final(self), pass as int, info, true, r),
    {
        self.add_image_resource(pass, info, true)
    }

    /// Declare an image the pass produces.  See [`image_declared`] for the
    /// exact effect of every case.
    pub fn add_color_output(&mut self, pass: usize, info: AttachmentInfo) -> (r: Result<
        (),
        RenderGraphError,
    >)
        requires
            old(self).wf(),
        ensures
            final(self).wf(),
            image_declared(*old(self), *final(self), pass as int, info, false, r),
    {
        self.add_image_resource(pass, info, false)
    }

    /// Declare a buffer the pass consumes.  See [`buffer_declared`] for
    /// the exact effect of every case.
    pub fn add_buffer_input(&mut self, pass: usize, info: BufferAttachmentInfo) -> (r: Result<
        (),
        RenderGraphError,
    >)
        requires
            old(self).wf(),
        ensures
            final(self).wf(),
            buffer_declared(*old(self), *final(self), pass as int, info, true, r),
    {
        self.add_buffer_resource(pass, info, true)
    }

    /// Declare a buffer the pass produces.  See [`buffer_declared`] for
    /// the exact effect of every case.
    pub fn add_buffer_output(&mut self, pass: usize, info: BufferAttachmentInfo) -> (r: Result<
        (),
        RenderGraphError,
    >)
        requires
            old(self).wf(),
        ensures
            final(self).wf(),
            buffer_declared(*old(self), *final(self), pass as int, info, false, r),
    {
        self.add_buffer_resource(pass, info, false)
    }

    /// Shared body of the image declaration calls.
    fn add_image_resource(&mut self, pass: usize, info: AttachmentInfo, is_input: bool) -> (r:
        Result<(), RenderGraphError>)
        requires
            old(self).wf(),
        ensures
            final(self).wf(),
            image_declared(*old(self), *final(self), pass as int, info, is_input, r),
    {
        if pass >= self.passes.len() {
            return Err(RenderGraphError::NonExistentPass);
        }
        match info {
            AttachmentInfo::Existing(name) => {
                if !self.texture_exists(&name) {
                    return Err(RenderGraphError::NonExistentResource);
                }
                let already = if is_input {
                    contains_name(&self.passes[pass].input_images, &name)
                } else {
                    contains_name(&self.passes[pass].output_images, &name)
                };
                if already {
                    return Ok(());
                }
                let mut np = self.passes[pass].duplicate();
                if is_input {
                    np.input_images.push(name);
                } else {
                    np.output_images.push(name);
                }
                self.passes.set(pass, np);
                proof {
                    lemma_image_push_preserves_wf(*old(self), *self, pass as int, is_input);
                }
                Ok(())
            },
            AttachmentInfo::New(ci) => {
                if self.resource_exists(&ci.name) {
                    return Err(RenderGraphError::RedundantResource);
                }
                let name = ci.name.clone();
                let created = self.insert_texture(ci, false);
                proof {
                    assert(created is Ok);
                }
                let ghost mid = *self;
                proof {
                    let l = if is_input {
                        self.passes@[pass as int].input_images@
                    } else {
                        self.passes@[pass as int].output_images@
                    };
                    if has_name(l, name@) {
                        let k = choose|k: int| 0 <= k < l.len() && #[trigger] l[k]@ == name@;
                        assert(old(self).pass_resolves(pass as int));
                        assert(false);
                    }
                }
                let mut np = self.passes[pass].duplicate();
                if is_input {
                    np.input_images.push(name);
                } else {
                    np.output_images.push(name);
                }
                self.passes.set(pass, np);
                proof {
                    assert(mid.textures@[mid.tex_count() - 1].0@ == name@);
                    assert(mid.tex_exists(name@));
                    lemma_image_push_preserves_wf(mid, *self, pass as int, is_input);
                }
                Ok(())
            },
        }
    }

    /// Shared body of the buffer declaration calls.
    fn add_buffer_resource(&mut self, pass: usize, info: BufferAttachmentInfo, is_input: bool) -> (
        r: Result<(), RenderGraphError>)
        requires
            old(self).wf(),
        ensures
            final(self).wf(),
            buffer_declared(*old(self), *final(self), pass as int, info, is_input, r),
    {
        if pass >= self.passes.len() {
            return Err(RenderGraphError::NonExistentPass);
        }
        match info {
            BufferAttachmentInfo::Existing(name) => {
                if !self.buffers_exists(&name) {
                    return Err(RenderGraphError::NonExistentResource);
                }
                let already = if is_input {
                    contains_name(&self.passes[pass].input_buffers, &name)
                } else {
                    contains_name(&self.passes[pass].output_buffers, &name)
                };
                if already {
                    return Ok(());
                }
                let mut np = self.passes[pass].duplicate();
                if is_input {
                    np.input_buffers.push(name);
                } else {
                    np.output_buffers.push(name);
                }
                self.passes.set(pass, np);
                proof {
                    lemma_buffer_push_preserves_wf(*old(self), *self, pass as int, is_input);
                }
                Ok(())
            },
            BufferAttachmentInfo::New(name, bi) => {
                if self.resource_exists(&name) {
                    return Err(RenderGraphError::RedundantResource);
                }
                let list_name = name.clone();
                let created = self.create_buffer(name, bi);
                proof {
                    assert(created is Ok);
                }
                let ghost mid = *self;
                proof {
                    let l = if is_input {
                        self.passes@[pass as int].input_buffers@
                    } else {
                        self.passes@[pass as int].output_buffers@
                    };
                    if has_name(l, list_name@) {
                        let k = choose|k: int| 0 <= k < l.len() && #[trigger] l[k]@ == list_name@;
                        assert(old(self).pass_resolves(pass as int));
                        assert(false);
                    }
                }
                let mut np = self.passes[pass].duplicate();
                if is_input {
                    np.input_buffers.push(list_name);
                } else {
                    np.output_buffers.push(list_name);
                }
                self.passes.set(pass, np);
                proof {
                    assert(mid.buffers@[mid.buf_count() - 1].0@ == list_name@);
                    assert(mid.buf_exists(list_name@));
                    lemma_buffer_push_preserves_wf(mid, *self, pass as int, is_input);
                }
                Ok(())
            },
        }
    }
}

/// Changing only the callback handle of one pass preserves
/// well-formedness.
proof fn lemma_pass_meta_preserves_wf(prev: RenderGraph, next: RenderGraph, p: int)
    requires
        prev.wf(),
        0 <= p < prev.pass_count(),
        next.textures == prev.textures,
        next.buffers == prev.buffers,
        next.passes@.len() == prev.passes@.len(),
        forall|q: int|
            0 <= q < prev.passes@.len() && q != p ==> next.passes@[q] == prev.passes@[q],
        next.passes@[p].name == prev.passes@[p].name,
        next.passes@[p].input_images@ == prev.passes@[p].input_images@,
        next.passes@[p].output_images@ == prev.passes@[p].output_images@,
        next.passes@[p].input_buffers@ == prev.passes@[p].input_buffers@,
        next.passes@[p].output_buffers@ == prev.passes@[p].output_buffers@,
    ensures
        next.wf(),
{
    assert forall|q: int| 0 <= q < next.pass_count() implies next.pass_resolves(q)
        && (#[trigger] next.passes@[q]).lists_distinct() by {
        assert(prev.pass_resolves(q));
        assert(prev.passes@[q].lists_distinct());
        assert forall|nm: Seq<char>| prev.tex_exists(nm) implies next.tex_exists(nm) by {
            let t = choose|t: int| 0 <= t < prev.tex_count() && prev.textures@[t].0@ == nm;
            assert(next.textures@[t].0@ == nm);
        }
        assert forall|nm: Seq<char>| prev.buf_exists(nm) implies next.buf_exists(nm) by {
            let t = choose|t: int| 0 <= t < prev.buf_count() && prev.buffers@[t].0@ == nm;
            assert(next.buffers@[t].0@ == nm);
        }
        if q == p {
            let pa = next.passes@[p];
            let pb = prev.passes@[p];
            assert forall|i: int| 0 <= i < pa.input_images@.len() implies next.tex_exists(
                #[trigger] pa.input_images@[i]@,
            ) by {
                assert(pa.input_images@[i] == pb.input_images@[i]);
                assert(prev.tex_exists(pb.input_images@[i]@));
            }
            assert forall|i: int| 0 <= i < pa.output_images@.len() implies next.tex_exists(
                #[trigger] pa.output_images@[i]@,
            ) by {
                assert(pa.output_images@[i] == pb.output_images@[i]);
                assert(prev.tex_exists(pb.output_images@[i]@));
            }
            assert forall|i: int| 0 <= i < pa.input_buffers@.len() implies next.buf_exists(
                #[trigger] pa.input_buffers@[i]@,
            ) by {
                assert(pa.input_buffers@[i] == pb.input_buffers@[i]);
                assert(prev.buf_exists(pb.input_buffers@[i]@));
            }
            assert forall|i: int| 0 <= i < pa.output_buffers@.len() implies next.buf_exists(
                #[trigger] pa.output_buffers@[i]@,
            ) by {
                assert(pa.output_buffers@[i] == pb.output_buffers@[i]);
                assert(prev.buf_exists(pb.output_buffers@[i]@));
            }
        }
    }
}

/// Appending a name that is a registered texture, and absent from the
/// target list, to one image list of one pass preserves well-formedness.
proof fn lemma_image_push_preserves_wf(prev: RenderGraph, next: RenderGraph, p: int, is_input: bool)
    requires
        prev.wf(),
        0 <= p < prev.pass_count(),
        next.textures == prev.textures,
        next.buffers == prev.buffers,
        image_list_pushed(
            prev,
            next,
            p,
            is_input,
            if is_input {
                next.passes@[p].input_images@.last()
            } else {
                next.passes@[p].output_images@.last()
            },
        ),
        prev.tex_exists(
            if is_input {
                next.passes@[p].input_images@.last()@
            } else {
                next.passes@[p].output_images@.last()@
            },
        ),
        !has_name(
            if is_input {
                prev.passes@[p].input_images@
            } else {
                prev.passes@[p].output_images@
            },
            if is_input {
                next.passes@[p].input_images@.last()@
            } else {
                next.passes@[p].output_images@.last()@
            },
        ),
    ensures
        next.wf(),
{
    assert forall|q: int| 0 <= q < next.pass_count() implies next.pass_resolves(q)
        && (#[trigger] next.passes@[q]).lists_distinct() by {
        assert(prev.pass_resolves(q));
        assert(prev.passes@[q].lists_distinct());
        if q == p {
            if is_input {
                let newl = next.passes@[p].input_images@;
                let oldl = prev.passes@[p].input_images@;
                assert forall|i: int| 0 <= i < newl.len() implies next.tex_exists(
                    #[trigger] newl[i]@,
                ) by {
                    if i < oldl.len() {
                        assert(newl[i] == oldl[i]);
                    }
                }
            } else {
                let newl = next.passes@[p].output_images@;
                let oldl = prev.passes@[p].output_images@;
                assert forall|i: int| 0 <= i < newl.len() implies next.tex_exists(
                    #[trigger] newl[i]@,
                ) by {
                    if i < oldl.len() {
                        assert(newl[i] == oldl[i]);
                    }
                }
            }
        }
    }
}

/// The buffer-list counterpart of [`lemma_image_push_preserves_wf`].
proof fn lemma_buffer_push_preserves_wf(
    prev: RenderGraph,
    next: RenderGraph,
    p: int,
    is_input: bool,
)
    requires
        prev.wf(),
        0 <= p < prev.pass_count(),
        next.textures == prev.textures,
        next.buffers == prev.buffers,
        buffer_list_pushed(
            prev,
            next,
            p,
            is_input,
            if is_input {
                next.passes@[p].input_buffers@.last()
            } else {
                next.passes@[p].output_buffers@.last()
            },
        ),
        prev.buf_exists(
            if is_input {
                next.passes@[p].input_buffers@.last()@
            } else {
                next.passes@[p].output_buffers@.last()@
            },
        ),
        !has_name(
            if is_input {
                prev.passes@[p].input_buffers@
            } else {
                prev.passes@[p].output_buffers@
            },
            if is_input {
                next.passes@[p].input_buffers@.last()@
            } else {
                next.passes@[p].output_buffers@.last()@
            },
        ),
    ensures
        next.wf(),
{
    assert forall|q: int| 0 <= q < next.pass_count() implies next.pass_resolves(q)
        && (#[trigger] next.passes@[q]).lists_distinct() by {
        assert(prev.pass_resolves(q));
        assert(prev.passes@[q].lists_distinct());
        if q == p {
            if is_input {
                let newl = next.passes@[p].input_buffers@;
                let oldl = prev.passes@[p].input_buffers@;
                assert forall|i: int| 0 <= i < newl.len() implies next.buf_exists(
                    #[trigger] newl[i]@,
                ) by {
                    if i < oldl.len() {
                        assert(newl[i] == oldl[i]);
                    }
                }
            } else {
                let newl = next.passes@[p].output_buffers@;
                let oldl = prev.passes@[p].output_buffers@;
                assert forall|i: int| 0 <= i < newl.len() implies next.buf_exists(
                    #[trigger] newl[i]@,
                ) by {
                    if i < oldl.len() {
                        assert(newl[i] == oldl[i]);
                    }
                }
            }
        }
    }
}

/// The pass at `p` gained `n` at the end of one image list (the input list
/// when `is_input` holds, the output list otherwise); everything else about
/// the passes is unchanged.
pub open spec fn image_list_pushed(
    prev: RenderGraph,
    next: RenderGraph,
    p: int,
    is_input: bool,
    n: String,
) -> bool {
    &&& next.passes@.len() == prev.passes@.len()
    &&& forall|q: int|
        0 <= q < prev.passes@.len() && q != p ==> next.passes@[q] == prev.passes@[q]
    &&& next.passes@[p].name == prev.passes@[p].name
    &&& next.passes@[p].callback == prev.passes@[p].callback
    &&& next.passes@[p].input_buffers@ == prev.passes@[p].input_buffers@
    &&& next.passes@[p].output_buffers@ == prev.passes@[p].output_buffers@
    &&& (is_input ==> next.passes@[p].input_images@ == prev.passes@[p].input_images@.push(n)
        && next.passes@[p].output_images@ == prev.passes@[p].output_images@)
    &&& (!is_input ==> next.passes@[p].output_images@ == prev.passes@[p].output_images@.push(n)
        && next.passes@[p].input_images@ == prev.passes@[p].input_images@)
}

/// The buffer-list counterpart of [`image_list_pushed`].
pub open spec fn buffer_list_pushed(
    prev: RenderGraph,
    next: RenderGraph,
    p: int,
    is_input: bool,
    n: String,
) -> bool {
    &&& next.passes@.len() == prev.passes@.len()
    &&& forall|q: int|
        0 <= q < prev.passes@.len() && q != p ==> next.passes@[q] == prev.passes@[q]
    &&& next.passes@[p].name == prev.passes@[p].name
    &&& next.passes@[p].callback == prev.passes@[p].callback
    &&& next.passes@[p].input_images@ == prev.passes@[p].input_images@
    &&& next.passes@[p].output_images@ == prev.passes@[p].output_images@
    &&& (is_input ==> next.passes@[p].input_buffers@ == prev.passes@[p].input_buffers@.push(n)
        && next.passes@[p].output_buffers@ == prev.passes@[p].output_buffers@)
    &&& (!is_input ==> next.passes@[p].output_buffers@ == prev.passes@[p].output_buffers@.push(n)
        && next.passes@[p].input_buffers@ == prev.passes@[p].input_buffers@)
}

/// What declaring an image on a pass does: every error case leaves the
/// graph unchanged, re-declaring an already declared texture is a no-op
/// success, and otherwise the texture (created first, for `New`) is
/// appended to the chosen list.
pub open spec fn image_declared(
    prev: RenderGraph,
    next: RenderGraph,
    p: int,
    info: AttachmentInfo,
    is_input: bool,
    r: Result<(), RenderGraphError>,
) -> bool {
    &&& next.device == prev.device
    &&& next.queue == prev.queue
    &&& next.buffers == prev.buffers
    &&& next.plan == prev.plan
    &&& (p >= prev.pass_count() ==> r == Err::<(), RenderGraphError>(
        RenderGraphError::NonExistentPass,
    ) && next == prev)
    &&& (0 <= p < prev.pass_count() ==> match info {
        AttachmentInfo::Existing(name) => {
            &&& next.textures == prev.textures
            &&& (!prev.tex_exists(name@) ==> r == Err::<(), RenderGraphError>(
                RenderGraphError::NonExistentResource,
            ) && next == prev)
            &&& (prev.tex_exists(name@) ==> {
                let list = if is_input {
                    prev.passes@[p].input_images@
                } else {
                    prev.passes@[p].output_images@
                };
                &&& r == Ok::<(), RenderGraphError>(())
                &&& (has_name(list, name@) ==> next == prev)
                &&& (!has_name(list, name@) ==> image_list_pushed(prev, next, p, is_input, name))
            })
        },
        AttachmentInfo::New(ci) => {
            &&& (prev.res_exists(ci.name@) ==> r == Err::<(), RenderGraphError>(
                RenderGraphError::RedundantResource,
            ) && next == prev)
            &&& (!prev.res_exists(ci.name@) ==> {
                &&& r == Ok::<(), RenderGraphError>(())
                &&& next.textures@ == prev.textures@.push(
                    (
                        ci.name,
                        RenderGraphTexture { size: ci.size, format: ci.format, external: false },
                    ),
                )
                &&& image_list_pushed(prev, next, p, is_input, ci.name)
            })
        },
    })
}

/// The buffer counterpart of [`image_declared`].
pub open spec fn buffer_declared(
    prev: RenderGraph,
    next: RenderGraph,
    p: int,
    info: BufferAttachmentInfo,
    is_input: bool,
    r: Result<(), RenderGraphError>,
) -> bool {
    &&& next.device == prev.device
    &&& next.queue == prev.queue
    &&& next.textures == prev.textures
    &&& next.plan == prev.plan
    &&& (p >= prev.pass_count() ==> r == Err::<(), RenderGraphError>(
        RenderGraphError::NonExistentPass,
    ) && next == prev)
    &&& (0 <= p < prev.pass_count() ==> match info {
        BufferAttachmentInfo::Existing(name) => {
            &&& next.buffers == prev.buffers
            &&& (!prev.buf_exists(name@) ==> r == Err::<(), RenderGraphError>(
                RenderGraphError::NonExistentResource,
            ) && next == prev)
            &&& (prev.buf_exists(name@) ==> {
                let list = if is_input {
                    prev.passes@[p].input_buffers@
                } else {
                    prev.passes@[p].output_buffers@
                };
                &&& r == Ok::<(), RenderGraphError>(())
                &&& (has_name(list, name@) ==> next == prev)
                &&& (!has_name(list, name@) ==> buffer_list_pushed(prev, next, p, is_input, name))
            })
        },
        BufferAttachmentInfo::New(name, bi) => {
            &&& (prev.res_exists(name@) ==> r == Err::<(), RenderGraphError>(
                RenderGraphError::RedundantResource,
            ) && next == prev)
            &&& (!prev.res_exists(name@) ==> {
                &&& r == Ok::<(), RenderGraphError>(())
                &&& next.buffers@ == prev.buffers@.push((name, RenderGraphBuffer { size: bi.size }))
                &&& buffer_list_pushed(prev, next, p, is_input, name)
            })
        },
    })
}

/// Appending a texture under a fresh name preserves well-formedness.
proof fn lemma_push_preserves_wf_tex(prev: RenderGraph, next: RenderGraph)
    requires
        prev.wf(),
        next.buffers == prev.buffers,
        next.passes == prev.passes,
        next.textures@.len() == prev.textures@.len() + 1,
        forall|k: int| 0 <= k < prev.tex_count() ==> next.textures@[k] == prev.textures@[k],
        !prev.res_exists(next.textures@.last().0@),
    ensures
        next.wf(),
{
    assert forall|n: Seq<char>| prev.tex_exists(n) implies next.tex_exists(n) by {
        let t = choose|t: int| 0 <= t < prev.tex_count() && prev.textures@[t].0@ == n;
        assert(next.textures@[t].0@ == n);
    }
    assert forall|p: int| 0 <= p < next.pass_count() implies next.pass_resolves(p) by {
        assert(prev.pass_resolves(p));
    }
}

/// Appending a buffer under a fresh name preserves well-formedness.
proof fn lemma_push_preserves_wf_buf(prev: RenderGraph, next: RenderGraph)
    requires
        prev.wf(),
        next.textures == prev.textures,
        next.passes == prev.passes,
        next.buffers@.len() == prev.buffers@.len() + 1,
        forall|k: int| 0 <= k < prev.buf_count() ==> next.buffers@[k] == prev.buffers@[k],
        !prev.res_exists(next.buffers@.last().0@),
    ensures
        next.wf(),
{
    assert forall|n: Seq<char>| prev.buf_exists(n) implies next.buf_exists(n) by {
        let b = choose|b: int| 0 <= b < prev.buf_count() && prev.buffers@[b].0@ == n;
        assert(next.buffers@[b].0@ == n);
    }
    assert forall|p: int| 0 <= p < next.pass_count() implies next.pass_resolves(p) by {
        assert(prev.pass_resolves(p));
    }
}

/// Appending an empty pass under a fresh name preserves well-formedness.
proof fn lemma_push_preserves_wf_pass(prev: RenderGraph, next: RenderGraph)
    requires
        prev.wf(),
        next.textures == prev.textures,
        next.buffers == prev.buffers,
        next.passes@.len() == prev.passes@.len() + 1,
        forall|k: int| 0 <= k < prev.pass_count() ==> next.passes@[k] == prev.passes@[k],
        !prev.pass_exists(next.passes@.last().name@),
        next.passes@.last().input_images@.len() == 0,
        next.passes@.last().output_images@.len() == 0,
        next.passes@.last().input_buffers@.len() == 0,
        next.passes@.last().output_buffers@.len() == 0,
    ensures
        next.wf(),
{
    let n = prev.pass_count();
    assert forall|p: int| 0 <= p < next.pass_count() implies next.pass_resolves(p)
        && (#[trigger] next.passes@[p]).lists_distinct() by {
        if p < n {
            assert(prev.pass_resolves(p));
            assert(prev.passes@[p].lists_distinct());
            assert forall|nm: Seq<char>| prev.tex_exists(nm) implies next.tex_exists(nm) by {
                let t = choose|t: int| 0 <= t < prev.tex_count() && prev.textures@[t].0@ == nm;
                assert(next.textures@[t].0@ == nm);
            }
            assert forall|nm: Seq<char>| prev.buf_exists(nm) implies next.buf_exists(nm) by {
                let b = choose|b: int| 0 <= b < prev.buf_count() && prev.buffers@[b].0@ == nm;
                assert(next.buffers@[b].0@ == nm);
            }
        }
    }
}

} // verus!
