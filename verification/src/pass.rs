//! Render passes: units of work declaring, by name, the resources they read
//! and write.

use vstd::prelude::*;

verus! {

/// Whether some entry of `v` has the character sequence `n` as its name.
pub open spec fn has_name(v: Seq<String>, n: Seq<char>) -> bool {
    exists|i: int| 0 <= i < v.len() && #[trigger] v[i]@ == n
}

/// Whether the names in `v` are pairwise distinct.
pub open spec fn distinct_names(v: Seq<String>) -> bool {
    forall|i: int, j: int| 0 <= i < j < v.len() ==> #[trigger] v[i]@ != #[trigger] v[j]@
}

/// Whether `n` names some entry of `v`.
pub fn contains_name(v: &Vec<String>, n: &String) -> (r: bool)
    ensures
        r == has_name(v@, n@),
{
    let mut i: usize = 0;
    while i < v.len()
        invariant
            0 <= i <= v.len(),
            forall|k: int| 0 <= k < i ==> #[trigger] v@[k]@ != n@,
        decreases v.len() - i,
    {
        if v[i].eq(n) {
            return true;
        }
        i += 1;
    }
    false
}

/// A copy of `v` whose entries equal `v`'s.
pub fn clone_names(v: &Vec<String>) -> (r: Vec<String>)
    ensures
        r@ == v@,
{
    let mut r: Vec<String> = Vec::new();
    let mut i: usize = 0;
    while i < v.len()
        invariant
            0 <= i <= v.len(),
            r@ == v@.subrange(0, i as int),
        decreases v.len() - i,
    {
        r.push(v[i].clone());
        proof {
            assert(r@ =~= v@.subrange(0, i as int + 1));
        }
        i += 1;
    }
    proof {
        assert(r@ =~= v@);
    }
    r
}

/// A pass declares ordered, duplicate-free sets of input and output image
/// names and input and output buffer names.  Its recording work is supplied
/// at execution time through a [`crate::record::PassCallback`].
#[derive(Clone, Debug)]
pub struct RenderPass {
    pub name: String,
    pub input_images: Vec<String>,
    pub output_images: Vec<String>,
    pub input_buffers: Vec<String>,
    pub output_buffers: Vec<String>,
    /// Opaque handle of the recording routine attached to this pass.  The
    /// core never interprets it; the executor hands it back, with the
    /// resolved bindings, to the caller's dispatcher.  Zero stands for
    /// the no-op routine every pass starts with.
    pub callback: u64,
}

impl RenderPass {
    /// Whether this pass consumes the resource named `n`.
    pub open spec fn reads_name(self, n: Seq<char>) -> bool {
        has_name(self.input_images@, n) || has_name(self.input_buffers@, n)
    }

    /// Whether this pass produces the resource named `n`.
    pub open spec fn writes_name(self, n: Seq<char>) -> bool {
        has_name(self.output_images@, n) || has_name(self.output_buffers@, n)
    }

    /// Each of the four declaration lists is duplicate-free: declaring the
    /// same resource twice on one pass leaves a single entry.
    pub open spec fn lists_distinct(self) -> bool {
        &&& distinct_names(self.input_images@)
        &&& distinct_names(self.output_images@)
        &&& distinct_names(self.input_buffers@)
        &&& distinct_names(self.output_buffers@)
    }

    /// A pass with no declared resources, under the given name.
    pub fn empty(name: String) -> (r: RenderPass)
        ensures
            r.name == name,
            r.input_images@ == Seq::<String>::empty(),
            r.output_images@ == Seq::<String>::empty(),
            r.input_buffers@ == Seq::<String>::empty(),
            r.output_buffers@ == Seq::<String>::empty(),
            r.callback == 0u64,
    {
        RenderPass {
            name,
            input_images: Vec::new(),
            output_images: Vec::new(),
            input_buffers: Vec::new(),
            output_buffers: Vec::new(),
            callback: 0,
        }
    }

    /// A copy of this pass whose name and list contents equal this one's.
    pub fn duplicate(&self) -> (r: RenderPass)
        ensures
            r.name == self.name,
            r.input_images@ == self.input_images@,
            r.output_images@ == self.output_images@,
            r.input_buffers@ == self.input_buffers@,
            r.output_buffers@ == self.output_buffers@,
            r.callback == self.callback,
    {
        RenderPass {
            name: self.name.clone(),
            input_images: clone_names(&self.input_images),
            output_images: clone_names(&self.output_images),
            input_buffers: clone_names(&self.input_buffers),
            output_buffers: clone_names(&self.output_buffers),
            callback: self.callback,
        }
    }

    /// Whether this pass consumes the resource named `n`.
    pub fn reads(&self, n: &String) -> (r: bool)
        ensures
            r == self.reads_name(n@),
    {
        contains_name(&self.input_images, n) || contains_name(&self.input_buffers, n)
    }

    /// Whether this pass produces the resource named `n`.
    pub fn writes(&self, n: &String) -> (r: bool)
        ensures
            r == self.writes_name(n@),
    {
        contains_name(&self.output_images, n) || contains_name(&self.output_buffers, n)
    }
}

} // verus!
