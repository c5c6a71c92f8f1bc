//! Compilation: lifetime analysis over the sorted order, slot assignment,
//! record resolution, and the `compile`/`execute` entry points.

use vstd::prelude::*;
use vstd::pervasive::unreached;
use crate::alias::ResKey;
use crate::alias::ResWindow;
use crate::alias::assign_slots;
use crate::alias::may_share;
use crate::graph::CompiledPlan;
use crate::graph::RenderGraph;
use crate::pass::contains_name;
use crate::pass::has_name;
use crate::record::PassCallback;
use crate::record::RecordView;
use crate::record::RecordingContext;
use crate::resource::RenderGraphError;

verus! {

impl RenderGraph {
    /// Whether pass `pi` reads or writes texture `t`.
    pub open spec fn tex_used_by_pass(self, pi: int, t: int) -> bool {
        has_name(self.passes@[pi].input_images@, self.textures@[t].0@) || has_name(
            self.passes@[pi].output_images@,
            self.textures@[t].0@,
        )
    }

    /// Whether pass `pi` reads or writes buffer `b`.
    pub open spec fn buf_used_by_pass(self, pi: int, b: int) -> bool {
        has_name(self.passes@[pi].input_buffers@, self.buffers@[b].0@) || has_name(
            self.passes@[pi].output_buffers@,
            self.buffers@[b].0@,
        )
    }

    /// `w` is texture `t`'s lifetime window in the order `ord`: `used`
    /// says whether any pass touches it, and `first` and `last` are the
    /// positions of its first and last use.
    pub open spec fn tex_window_ok(self, ord: Seq<usize>, t: int, w: ResWindow) -> bool {
        &&& (w.used <==> exists|q: int|
            0 <= q < ord.len() && self.tex_used_by_pass(#[trigger] ord[q] as int, t))
        &&& (w.used ==> w.first <= w.last < ord.len() && self.tex_used_by_pass(
            ord[w.first as int] as int,
            t,
        ) && self.tex_used_by_pass(ord[w.last as int] as int, t) && forall|q: int|
            0 <= q < ord.len() && self.tex_used_by_pass(#[trigger] ord[q] as int, t)
                ==> w.first <= q <= w.last)
    }

    /// The buffer counterpart of [`RenderGraph::tex_window_ok`].
    pub open spec fn buf_window_ok(self, ord: Seq<usize>, b: int, w: ResWindow) -> bool {
        &&& (w.used <==> exists|q: int|
            0 <= q < ord.len() && self.buf_used_by_pass(#[trigger] ord[q] as int, b))
        &&& (w.used ==> w.first <= w.last < ord.len() && self.buf_used_by_pass(
            ord[w.first as int] as int,
            b,
        ) && self.buf_used_by_pass(ord[w.last as int] as int, b) && forall|q: int|
            0 <= q < ord.len() && self.buf_used_by_pass(#[trigger] ord[q] as int, b)
                ==> w.first <= q <= w.last)
    }

    /// Texture `t`'s layout key for aliasing decisions.
    pub open spec fn tex_key(self, t: int) -> ResKey {
        ResKey::Texture(self.textures@[t].1.size, self.textures@[t].1.format)
    }

    /// Whether texture `t` is external.
    pub open spec fn tex_ext(self, t: int) -> bool {
        self.textures@[t].1.external
    }

    /// Buffer `b`'s layout key for aliasing decisions.
    pub open spec fn buf_key(self, b: int) -> ResKey {
        ResKey::Buffer(self.buffers@[b].1.size)
    }

    /// The lifetime window of texture `t` over the order `ord`.
    fn compute_tex_window(&self, ord: &Vec<usize>, t: usize) -> (w: ResWindow)
        requires
            t < self.tex_count(),
            forall|q: int| 0 <= q < ord@.len() ==> #[trigger] ord@[q] < self.pass_count(),
        ensures
            self.tex_window_ok(ord@, t as int, w),
    {
        let name = &self.textures[t].0;
        let mut w = ResWindow { used: false, first: 0, last: 0 };
        let mut p: usize = 0;
        while p < ord.len()
            invariant
                t < self.tex_count(),
                0 <= p <= ord@.len(),
                forall|q: int| 0 <= q < ord@.len() ==> #[trigger] ord@[q] < self.pass_count(),
                name == &self.textures@[t as int].0,
                (w.used <==> exists|q: int|
                    0 <= q < p && self.tex_used_by_pass(#[trigger] ord@[q] as int, t as int)),
                w.used ==> w.first <= w.last < p && self.tex_used_by_pass(
                    ord@[w.first as int] as int,
                    t as int,
                ) && self.tex_used_by_pass(ord@[w.last as int] as int, t as int) && forall|q: int|
                    0 <= q < p && self.tex_used_by_pass(#[trigger] ord@[q] as int, t as int)
                        ==> w.first <= q <= w.last,
            decreases ord@.len() - p,
        {
            let pass = ord[p];
            let uses = contains_name(&self.passes[pass].input_images, name) || contains_name(
                &self.passes[pass].output_images,
                name,
            );
            if uses {
                if !w.used {
                    w = ResWindow { used: true, first: p, last: p };
                } else {
                    w.last = p;
                }
            }
            p += 1;
        }
        w
    }

    /// The lifetime window of buffer `b` over the order `ord`.
    fn compute_buf_window(&self, ord: &Vec<usize>, b: usize) -> (w: ResWindow)
        requires
            b < self.buf_count(),
            forall|q: int| 0 <= q < ord@.len() ==> #[trigger] ord@[q] < self.pass_count(),
        ensures
            self.buf_window_ok(ord@, b as int, w),
    {
        let name = &self.buffers[b].0;
        let mut w = ResWindow { used: false, first: 0, last: 0 };
        let mut p: usize = 0;
        while p < ord.len()
            invariant
                b < self.buf_count(),
                0 <= p <= ord@.len(),
                forall|q: int| 0 <= q < ord@.len() ==> #[trigger] ord@[q] < self.pass_count(),
                name == &self.buffers@[b as int].0,
                (w.used <==> exists|q: int|
                    0 <= q < p && self.buf_used_by_pass(#[trigger] ord@[q] as int, b as int)),
                w.used ==> w.first <= w.last < p && self.buf_used_by_pass(
                    ord@[w.first as int] as int,
                    b as int,
                ) && self.buf_used_by_pass(ord@[w.last as int] as int, b as int) && forall|q: int|
                    0 <= q < p && self.buf_used_by_pass(#[trigger] ord@[q] as int, b as int)
                        ==> w.first <= q <= w.last,
            decreases ord@.len() - p,
        {
            let pass = ord[p];
            let uses = contains_name(&self.passes[pass].input_buffers, name) || contains_name(
                &self.passes[pass].output_buffers,
                name,
            );
            if uses {
                if !w.used {
                    w = ResWindow { used: true, first: p, last: p };
                } else {
                    w.last = p;
                }
            }
            p += 1;
        }
        w
    }

    /// The lifetime windows of all textures over the order `ord`.
    fn compute_tex_windows(&self, ord: &Vec<usize>) -> (ws: Vec<ResWindow>)
        requires
            forall|q: int| 0 <= q < ord@.len() ==> #[trigger] ord@[q] < self.pass_count(),
        ensures
            ws@.len() == self.tex_count(),
            forall|t: int|
                0 <= t < self.tex_count() ==> self.tex_window_ok(ord@, t, #[trigger] ws@[t]),
    {
        let mut ws: Vec<ResWindow> = Vec::new();
        let mut t: usize = 0;
        while t < self.textures.len()
            invariant
                0 <= t <= self.tex_count(),
                ws@.len() == t,
                forall|q: int| 0 <= q < ord@.len() ==> #[trigger] ord@[q] < self.pass_count(),
                forall|k: int| 0 <= k < t ==> self.tex_window_ok(ord@, k, #[trigger] ws@[k]),
            decreases self.tex_count() - t,
        {
            let w = self.compute_tex_window(ord, t);
            ws.push(w);
            t += 1;
        }
        ws
    }

    /// The resolved name-to-slot bindings pass `pi` receives: input
    /// images, input buffers, output images, output buffers, in
    /// declaration order.
    pub open spec fn pass_bindings(self, pi: int, ts: Seq<usize>, bs: Seq<usize>) -> Seq<
        (Seq<char>, usize),
    > {
        self.passes@[pi].input_images@.map_values(
            |nm: String| (nm@, ts[self.tex_index_of(nm@)]),
        ) + self.passes@[pi].input_buffers@.map_values(
            |nm: String| (nm@, bs[self.buf_index_of(nm@)]),
        ) + self.passes@[pi].output_images@.map_values(
            |nm: String| (nm@, ts[self.tex_index_of(nm@)]),
        ) + self.passes@[pi].output_buffers@.map_values(
            |nm: String| (nm@, bs[self.buf_index_of(nm@)]),
        )
    }

    /// The record view pass `pi` must receive under the given slot maps.
    pub open spec fn pass_record_view(self, pi: int, ts: Seq<usize>, bs: Seq<usize>) -> RecordView {
        RecordView {
            pass: self.passes@[pi].name@,
            callback: self.passes@[pi].callback,
            bindings: self.pass_bindings(pi, ts, bs),
        }
    }

    /// Append, for every texture name in `list`, a binding of that name
    /// to its assigned slot.
    fn append_tex_bindings(
        &self,
        list: &Vec<String>,
        tex_slots: &Vec<usize>,
        out: &mut Vec<(String, usize)>,
    )
        requires
            self.wf(),
            tex_slots@.len() == self.tex_count(),
            forall|j: int| 0 <= j < list@.len() ==> self.tex_exists(#[trigger] list@[j]@),
        ensures
            final(out)@.len() == old(out)@.len() + list@.len(),
            forall|i: int| 0 <= i < old(out)@.len() ==> #[trigger] final(out)@[i] == old(out)@[i],
            forall|i: int|
                old(out)@.len() <= i < final(out)@.len() ==> (#[trigger] final(out)@[i].0
                    == list@[i - old(out)@.len()] && final(out)@[i].1 == tex_slots@[self.tex_index_of(
                    list@[i - old(out)@.len()]@,
                )]),
    {
        let ghost base = out@;
        let mut j: usize = 0;
        while j < list.len()
            invariant
                self.wf(),
                tex_slots@.len() == self.tex_count(),
                forall|jj: int| 0 <= jj < list@.len() ==> self.tex_exists(#[trigger] list@[jj]@),
                0 <= j <= list@.len(),
                out@.len() == base.len() + j,
                forall|i: int| 0 <= i < base.len() ==> #[trigger] out@[i] == base[i],
                forall|i: int|
                    base.len() <= i < out@.len() ==> (#[trigger] out@[i].0 == list@[i
                        - base.len()] && out@[i].1 == tex_slots@[self.tex_index_of(
                        list@[i - base.len()]@,
                    )]),
            decreases list@.len() - j,
        {
            let name = &list[j];
            let t = match self.find_texture(name) {
                Some(t) => t,
                None => unreached(),
            };
            proof {
                let ti = self.tex_index_of(name@);
                assert(self.tex_exists(name@));
                assert(0 <= ti < self.tex_count() && self.textures@[ti].0@ == name@);
                if ti < t as int {
                    assert(self.textures@[ti].0@ != self.textures@[t as int].0@);
                    assert(false);
                } else if ti > t as int {
                    assert(self.textures@[t as int].0@ != self.textures@[ti].0@);
                    assert(false);
                }
            }
            out.push((name.clone(), tex_slots[t]));
            j += 1;
        }
    }

    /// Append, for every buffer name in `list`, a binding of that name to
    /// its assigned slot.
    fn append_buf_bindings(
        &self,
        list: &Vec<String>,
        buf_slots: &Vec<usize>,
        out: &mut Vec<(String, usize)>,
    )
        requires
            self.wf(),
            buf_slots@.len() == self.buf_count(),
            forall|j: int| 0 <= j < list@.len() ==> self.buf_exists(#[trigger] list@[j]@),
        ensures
            final(out)@.len() == old(out)@.len() + list@.len(),
            forall|i: int| 0 <= i < old(out)@.len() ==> #[trigger] final(out)@[i] == old(out)@[i],
            forall|i: int|
                old(out)@.len() <= i < final(out)@.len() ==> (#[trigger] final(out)@[i].0
                    == list@[i - old(out)@.len()] && final(out)@[i].1 == buf_slots@[self.buf_index_of(
                    list@[i - old(out)@.len()]@,
                )]),
    {
        let ghost base = out@;
        let mut j: usize = 0;
        while j < list.len()
            invariant
                self.wf(),
                buf_slots@.len() == self.buf_count(),
                forall|jj: int| 0 <= jj < list@.len() ==> self.buf_exists(#[trigger] list@[jj]@),
                0 <= j <= list@.len(),
                out@.len() == base.len() + j,
                forall|i: int| 0 <= i < base.len() ==> #[trigger] out@[i] == base[i],
                forall|i: int|
                    base.len() <= i < out@.len() ==> (#[trigger] out@[i].0 == list@[i
                        - base.len()] && out@[i].1 == buf_slots@[self.buf_index_of(
                        list@[i - base.len()]@,
                    )]),
            decreases list@.len() - j,
        {
            let name = &list[j];
            let b = match self.find_buffer(name) {
                Some(b) => b,
                None => unreached(),
            };
            proof {
                let bi = self.buf_index_of(name@);
                assert(self.buf_exists(name@));
                assert(0 <= bi < self.buf_count() && self.buffers@[bi].0@ == name@);
                if bi < b as int {
                    assert(self.buffers@[bi].0@ != self.buffers@[b as int].0@);
                    assert(false);
                } else if bi > b as int {
                    assert(self.buffers@[b as int].0@ != self.buffers@[bi].0@);
                    assert(false);
                }
            }
            out.push((name.clone(), buf_slots[b]));
            j += 1;
        }
    }

    /// The fully resolved recording context of pass `pi` under the given
    /// slot maps.
    fn build_record(&self, pi: usize, tex_slots: &Vec<usize>, buf_slots: &Vec<usize>) -> (r:
        RecordingContext)
        requires
            self.wf(),
            pi < self.pass_count(),
            tex_slots@.len() == self.tex_count(),
            buf_slots@.len() == self.buf_count(),
        ensures
            r@ == self.pass_record_view(pi as int, tex_slots@, buf_slots@),
    {
        proof {
            assert(self.pass_resolves(pi as int));
        }
        let mut bindings: Vec<(String, usize)> = Vec::new();
        self.append_tex_bindings(&self.passes[pi].input_images, tex_slots, &mut bindings);
        let ghost b1 = bindings@;
        self.append_buf_bindings(&self.passes[pi].input_buffers, buf_slots, &mut bindings);
        let ghost b2 = bindings@;
        self.append_tex_bindings(&self.passes[pi].output_images, tex_slots, &mut bindings);
        let ghost b3 = bindings@;
        self.append_buf_bindings(&self.passes[pi].output_buffers, buf_slots, &mut bindings);
        let r = RecordingContext {
            pass_name: self.passes[pi].name.clone(),
            callback: self.passes[pi].callback,
            bindings,
        };
        proof {
            let spec_b = self.pass_bindings(pi as int, tex_slots@, buf_slots@);
            let ii = self.passes@[pi as int].input_images@;
            let ib = self.passes@[pi as int].input_buffers@;
            let oi = self.passes@[pi as int].output_images@;
            let ob = self.passes@[pi as int].output_buffers@;
            let l1 = ii.len() as int;
            let l2 = ib.len() as int;
            let l3 = oi.len() as int;
            let l4 = ob.len() as int;
            assert(spec_b.len() == l1 + l2 + l3 + l4);
            assert(r@.bindings.len() == l1 + l2 + l3 + l4);
            assert forall|i: int| 0 <= i < spec_b.len() implies r@.bindings[i] == spec_b[i] by {
                assert(r@.bindings[i] == (bindings@[i].0@, bindings@[i].1));
                if i < l1 {
                    assert(bindings@[i] == b3[i]);
                    assert(b3[i] == b2[i]);
                    assert(b2[i] == b1[i]);
                    assert(b1[i].0 == ii[i] && b1[i].1 == tex_slots@[self.tex_index_of(ii[i]@)]);
                    assert(spec_b[i] == (ii[i]@, tex_slots@[self.tex_index_of(ii[i]@)]));
                } else if i < l1 + l2 {
                    assert(bindings@[i] == b3[i]);
                    assert(b3[i] == b2[i]);
                    assert(b2[i].0 == ib[i - l1] && b2[i].1 == buf_slots@[self.buf_index_of(
                        ib[i - l1]@,
                    )]);
                    assert(spec_b[i] == (ib[i - l1]@, buf_slots@[self.buf_index_of(ib[i - l1]@)]));
                } else if i < l1 + l2 + l3 {
                    assert(bindings@[i] == b3[i]);
                    assert(b3[i].0 == oi[i - l1 - l2] && b3[i].1 == tex_slots@[self.tex_index_of(
                        oi[i - l1 - l2]@,
                    )]);
                    assert(spec_b[i] == (
                        oi[i - l1 - l2]@,
                        tex_slots@[self.tex_index_of(oi[i - l1 - l2]@)],
                    ));
                } else {
                    assert(bindings@[i].0 == ob[i - l1 - l2 - l3] && bindings@[i].1
                        == buf_slots@[self.buf_index_of(ob[i - l1 - l2 - l3]@)]);
                    assert(spec_b[i] == (
                        ob[i - l1 - l2 - l3]@,
                        buf_slots@[self.buf_index_of(ob[i - l1 - l2 - l3]@)],
                    ));
                }
            }
            assert(r@.bindings =~= spec_b);
        }
        r
    }

    /// The lifetime windows of all buffers over the order `ord`.
    fn compute_buf_windows(&self, ord: &Vec<usize>) -> (ws: Vec<ResWindow>)
        requires
            forall|q: int| 0 <= q < ord@.len() ==> #[trigger] ord@[q] < self.pass_count(),
        ensures
            ws@.len() == self.buf_count(),
            forall|b: int|
                0 <= b < self.buf_count() ==> self.buf_window_ok(ord@, b, #[trigger] ws@[b]),
    {
        let mut ws: Vec<ResWindow> = Vec::new();
        let mut b: usize = 0;
        while b < self.buffers.len()
            invariant
                0 <= b <= self.buf_count(),
                ws@.len() == b,
                forall|q: int| 0 <= q < ord@.len() ==> #[trigger] ord@[q] < self.pass_count(),
                forall|k: int| 0 <= k < b ==> self.buf_window_ok(ord@, k, #[trigger] ws@[k]),
            decreases self.buf_count() - b,
        {
            let w = self.compute_buf_window(ord, b);
            ws.push(w);
            b += 1;
        }
        ws
    }
}

impl RenderGraph {
    /// Everything a successful `compile` guarantees about the stored
    /// plan: the order is a valid schedule, the windows are the true
    /// lifetime windows in that order, two distinct resources share a
    /// physical slot only when they may alias (identical layout, neither
    /// external, disjoint windows), a texture never shares a slot with a
    /// buffer, and each record carries the owning pass's name and its
    /// resolved bindings in execution order.
    pub open spec fn plan_ok(self, p: CompiledPlan) -> bool {
        &&& self.topo_ok(p.order@)
        &&& self.ready_in_declaration_order(p.order@)
        &&& p.tex_slots@.len() == self.tex_count()
        &&& p.buf_slots@.len() == self.buf_count()
        &&& p.tex_windows@.len() == self.tex_count()
        &&& p.buf_windows@.len() == self.buf_count()
        &&& forall|t: int|
            0 <= t < self.tex_count() ==> self.tex_window_ok(
                p.order@,
                t,
                #[trigger] p.tex_windows@[t],
            )
        &&& forall|b: int|
            0 <= b < self.buf_count() ==> self.buf_window_ok(
                p.order@,
                b,
                #[trigger] p.buf_windows@[b],
            )
        &&& forall|t1: int, t2: int|
            0 <= t1 < self.tex_count() && 0 <= t2 < self.tex_count() && t1 != t2
                && #[trigger] p.tex_slots@[t1] == #[trigger] p.tex_slots@[t2] ==> may_share(
                self.tex_key(t1),
                self.tex_ext(t1),
                p.tex_windows@[t1],
                self.tex_key(t2),
                self.tex_ext(t2),
                p.tex_windows@[t2],
            )
        &&& forall|b1: int, b2: int|
            0 <= b1 < self.buf_count() && 0 <= b2 < self.buf_count() && b1 != b2
                && #[trigger] p.buf_slots@[b1] == #[trigger] p.buf_slots@[b2] ==> may_share(
                self.buf_key(b1),
                false,
                p.buf_windows@[b1],
                self.buf_key(b2),
                false,
                p.buf_windows@[b2],
            )
        &&& forall|t: int, b: int|
            0 <= t < self.tex_count() && 0 <= b < self.buf_count()
                ==> #[trigger] p.tex_slots@[t] != #[trigger] p.buf_slots@[b]
        &&& p.records@.len() == self.pass_count()
        &&& forall|k: int|
            0 <= k < self.pass_count() ==> (#[trigger] p.records@[k])@ == self.pass_record_view(
                p.order@[k] as int,
                p.tex_slots@,
                p.buf_slots@,
            )
    }

    /// Whether every name in `list` resolves to a texture.
    fn all_textures_exist(&self, list: &Vec<String>) -> (r: bool)
        ensures
            r == (forall|j: int| 0 <= j < list@.len() ==> self.tex_exists(#[trigger] list@[j]@)),
    {
        let mut j: usize = 0;
        while j < list.len()
            invariant
                0 <= j <= list@.len(),
                forall|k: int| 0 <= k < j ==> self.tex_exists(#[trigger] list@[k]@),
            decreases list@.len() - j,
        {
            if !self.texture_exists(&list[j]) {
                return false;
            }
            j += 1;
        }
        true
    }

    /// Whether every name in `list` resolves to a buffer.
    fn all_buffers_exist(&self, list: &Vec<String>) -> (r: bool)
        ensures
            r == (forall|j: int| 0 <= j < list@.len() ==> self.buf_exists(#[trigger] list@[j]@)),
    {
        let mut j: usize = 0;
        while j < list.len()
            invariant
                0 <= j <= list@.len(),
                forall|k: int| 0 <= k < j ==> self.buf_exists(#[trigger] list@[k]@),
            decreases list@.len() - j,
        {
            if !self.buffers_exists(&list[j]) {
                return false;
            }
            j += 1;
        }
        true
    }

    /// Whether every resource every pass declares still resolves in the
    /// registries.  The safe declaration API keeps this true, so on a
    /// well-formed graph the check always succeeds; `compile` runs it
    /// anyway as its first step.
    pub fn validate_passes(&self) -> (r: bool)
        ensures
            r == (forall|p: int| 0 <= p < self.pass_count() ==> self.pass_resolves(p)),
    {
        let mut p: usize = 0;
        while p < self.passes.len()
            invariant
                0 <= p <= self.pass_count(),
                forall|k: int| 0 <= k < p ==> self.pass_resolves(k),
            decreases self.pass_count() - p,
        {
            let ok = self.all_textures_exist(&self.passes[p].input_images)
                && self.all_textures_exist(&self.passes[p].output_images)
                && self.all_buffers_exist(&self.passes[p].input_buffers)
                && self.all_buffers_exist(&self.passes[p].output_buffers);
            if !ok {
                proof {
                    assert(!self.pass_resolves(p as int));
                }
                return false;
            }
            p += 1;
        }
        true
    }

    /// Compile the graph: re-validate declarations, build the dependency
    /// graph, order the passes topologically (failing fast on a cycle),
    /// analyze lifetimes and aliasing, and store the executable plan.  A
    /// failed compile leaves any previously stored plan untouched, so the
    /// last good plan stays usable.
    #[verifier::loop_isolation(false)]
    pub fn compile(&mut self) -> (r: Result<(), RenderGraphError>)
        requires
            old(self).wf(),
        ensures
            final(self).wf(),
            final(self).device == old(self).device,
            final(self).queue == old(self).queue,
            final(self).textures == old(self).textures,
            final(self).buffers == old(self).buffers,
            final(self).passes == old(self).passes,
            old(self).schedulable() ==> r == Ok::<(), RenderGraphError>(()) && (final(self).plan matches Some(p) && old(self).plan_ok(p)),
            !old(self).schedulable() ==> r == Err::<(), RenderGraphError>(
                RenderGraphError::CyclicDependency,
            ) && final(self).plan == old(self).plan,
    {
        let valid = self.validate_passes();
        if !valid {
            // Declarations are checked when they are made and resources are
            // never removed, so on a well-formed graph this branch is
            // unreachable, as the contradiction below shows.
            proof {
                assert(false);
            }
            return Err(RenderGraphError::NonExistentResource);
        }
        let order = match self.sort_passes() {
            Err(e) => {
                return Err(e);
            },
            Ok(order) => order,
        };
        let tex_windows = self.compute_tex_windows(&order);
        let buf_windows = self.compute_buf_windows(&order);
        let tcount = self.textures.len();
        let bcount = self.buffers.len();
        let mut keys: Vec<ResKey> = Vec::new();
        let mut ext: Vec<bool> = Vec::new();
        let mut wins: Vec<ResWindow> = Vec::new();
        let mut t: usize = 0;
        while t < tcount
            invariant
                tcount == self.tex_count(),
                tex_windows@.len() == self.tex_count(),
                0 <= t <= tcount,
                keys@.len() == t,
                ext@.len() == t,
                wins@.len() == t,
                forall|k: int| 0 <= k < t ==> #[trigger] keys@[k] == self.tex_key(k),
                forall|k: int| 0 <= k < t ==> #[trigger] ext@[k] == self.tex_ext(k),
                forall|k: int| 0 <= k < t ==> #[trigger] wins@[k] == tex_windows@[k],
            decreases tcount - t,
        {
            keys.push(ResKey::Texture(self.textures[t].1.size, self.textures[t].1.format));
            ext.push(self.textures[t].1.external);
            wins.push(tex_windows[t]);
            t += 1;
        }
        let mut b: usize = 0;
        while b < bcount
            invariant
                tcount == self.tex_count(),
                bcount == self.buf_count(),
                tex_windows@.len() == self.tex_count(),
                buf_windows@.len() == self.buf_count(),
                0 <= b <= bcount,
                keys@.len() == tcount + b,
                ext@.len() == tcount + b,
                wins@.len() == tcount + b,
                forall|k: int| 0 <= k < tcount ==> #[trigger] keys@[k] == self.tex_key(k),
                forall|k: int| 0 <= k < tcount ==> #[trigger] ext@[k] == self.tex_ext(k),
                forall|k: int| 0 <= k < tcount ==> #[trigger] wins@[k] == tex_windows@[k],
                forall|i: int|
                    tcount <= i < tcount + b ==> #[trigger] keys@[i] == self.buf_key(i - tcount),
                forall|i: int| tcount <= i < tcount + b ==> #[trigger] ext@[i] == false,
                forall|i: int|
                    tcount <= i < tcount + b ==> #[trigger] wins@[i] == buf_windows@[i - tcount],
            decreases bcount - b,
        {
            keys.push(ResKey::Buffer(self.buffers[b].1.size));
            ext.push(false);
            wins.push(buf_windows[b]);
            b += 1;
        }
        let slots = assign_slots(&keys, &ext, &wins);
        let scount = slots.len();
        let mut tex_slots: Vec<usize> = Vec::new();
        let mut i: usize = 0;
        while i < tcount
            invariant
                tcount <= slots@.len(),
                0 <= i <= tcount,
                tex_slots@.len() == i,
                forall|k: int| 0 <= k < i ==> #[trigger] tex_slots@[k] == slots@[k],
            decreases tcount - i,
        {
            tex_slots.push(slots[i]);
            i += 1;
        }
        let mut buf_slots: Vec<usize> = Vec::new();
        let mut j: usize = 0;
        while j < bcount
            invariant
                scount == tcount + bcount,
                0 <= j <= bcount,
                buf_slots@.len() == j,
                forall|k: int| 0 <= k < j ==> #[trigger] buf_slots@[k] == slots@[tcount + k],
            decreases bcount - j,
        {
            buf_slots.push(slots[tcount + j]);
            j += 1;
        }
        let mut records: Vec<RecordingContext> = Vec::new();
        let mut k: usize = 0;
        while k < order.len()
            invariant
                self.wf(),
                tcount == self.tex_count(),
                bcount == self.buf_count(),
                tex_slots@.len() == self.tex_count(),
                buf_slots@.len() == self.buf_count(),
                order@.len() == self.pass_count(),
                forall|q: int| 0 <= q < order@.len() ==> #[trigger] order@[q] < self.pass_count(),
                0 <= k <= order@.len(),
                records@.len() == k,
                forall|kk: int|
                    0 <= kk < k ==> (#[trigger] records@[kk])@ == self.pass_record_view(
                        order@[kk] as int,
                        tex_slots@,
                        buf_slots@,
                    ),
            decreases order@.len() - k,
        {
            let rec = self.build_record(order[k], &tex_slots, &buf_slots);
            records.push(rec);
            k += 1;
        }
        let ghost g = *self;
        let plan = CompiledPlan { order, records, tex_slots, buf_slots, tex_windows, buf_windows };
        proof {
            assert forall|t1: int, t2: int|
                0 <= t1 < g.tex_count() && 0 <= t2 < g.tex_count() && t1 != t2
                    && #[trigger] plan.tex_slots@[t1] == #[trigger] plan.tex_slots@[t2] implies may_share(
                g.tex_key(t1),
                g.tex_ext(t1),
                plan.tex_windows@[t1],
                g.tex_key(t2),
                g.tex_ext(t2),
                plan.tex_windows@[t2],
            ) by {
                assert(slots@[t1] == slots@[t2]);
                assert(keys@[t1] == g.tex_key(t1) && keys@[t2] == g.tex_key(t2));
            }
            assert forall|b1: int, b2: int|
                0 <= b1 < g.buf_count() && 0 <= b2 < g.buf_count() && b1 != b2
                    && #[trigger] plan.buf_slots@[b1] == #[trigger] plan.buf_slots@[b2] implies may_share(
                g.buf_key(b1),
                false,
                plan.buf_windows@[b1],
                g.buf_key(b2),
                false,
                plan.buf_windows@[b2],
            ) by {
                assert(slots@[tcount + b1] == slots@[tcount + b2]);
                assert(keys@[tcount + b1] == g.buf_key(b1) && keys@[tcount + b2] == g.buf_key(b2));
                assert(ext@[tcount + b1] == false && ext@[tcount + b2] == false);
                assert(wins@[tcount + b1] == plan.buf_windows@[b1] && wins@[tcount + b2]
                    == plan.buf_windows@[b2]);
            }
            assert forall|t: int, b: int|
                0 <= t < g.tex_count() && 0 <= b < g.buf_count() implies #[trigger] plan.tex_slots@[t]
                != #[trigger] plan.buf_slots@[b] by {
                if plan.tex_slots@[t] == plan.buf_slots@[b] {
                    assert(slots@[t] == slots@[tcount + b]);
                    assert(keys@[t] == g.tex_key(t) && keys@[tcount + b] == g.buf_key(b));
                    assert(false);
                }
            }
            assert(g.plan_ok(plan));
        }
        self.plan = Some(plan);
        proof {
            lemma_wf_ignores_plan(g, *self);
        }
        Ok(())
    }

    /// Whether a successful `compile` has stored a plan.
    pub fn is_compiled(&self) -> (r: bool)
        ensures
            r == (self.plan is Some),
    {
        self.plan.is_some()
    }

    /// The physical slot the stored plan assigns to the texture named
    /// `name`, if the graph is compiled and the texture was registered at
    /// compile time.
    pub fn texture_slot(&self, name: &String) -> (r: Option<usize>)
        requires
            self.wf(),
        ensures
            r == (match self.plan {
                Some(pl) => if self.tex_exists(name@) && self.tex_index_of(name@)
                    < pl.tex_slots@.len() {
                    Some(pl.tex_slots@[self.tex_index_of(name@)])
                } else {
                    None
                },
                None => None::<usize>,
            }),
    {
        match &self.plan {
            None => None,
            Some(pl) => match self.find_texture(name) {
                Some(t) => {
                    proof {
                        let ti = self.tex_index_of(name@);
                        assert(0 <= ti < self.tex_count() && self.textures@[ti].0@ == name@);
                        if ti < t as int {
                            assert(self.textures@[ti].0@ != self.textures@[t as int].0@);
                        } else if ti > t as int {
                            assert(self.textures@[t as int].0@ != self.textures@[ti].0@);
                        }
                    }
                    if t < pl.tex_slots.len() {
                        Some(pl.tex_slots[t])
                    } else {
                        None
                    }
                },
                None => None,
            },
        }
    }

    /// The physical slot the stored plan assigns to the buffer named
    /// `name`, if the graph is compiled and the buffer was registered at
    /// compile time.
    pub fn buffer_slot(&self, name: &String) -> (r: Option<usize>)
        requires
            self.wf(),
        ensures
            r == (match self.plan {
                Some(pl) => if self.buf_exists(name@) && self.buf_index_of(name@)
                    < pl.buf_slots@.len() {
                    Some(pl.buf_slots@[self.buf_index_of(name@)])
                } else {
                    None
                },
                None => None::<usize>,
            }),
    {
        match &self.plan {
            None => None,
            Some(pl) => match self.find_buffer(name) {
                Some(b) => {
                    proof {
                        let bi = self.buf_index_of(name@);
                        assert(0 <= bi < self.buf_count() && self.buffers@[bi].0@ == name@);
                        if bi < b as int {
                            assert(self.buffers@[bi].0@ != self.buffers@[b as int].0@);
                        } else if bi > b as int {
                            assert(self.buffers@[b as int].0@ != self.buffers@[bi].0@);
                        }
                    }
                    if b < pl.buf_slots.len() {
                        Some(pl.buf_slots[b])
                    } else {
                        None
                    }
                },
                None => None,
            },
        }
    }

    /// Walk the compiled plan in order, invoking the callback once per
    /// pass with that pass's resolved bindings.  Before any successful
    /// `compile`, fails with `NotCompiled` and invokes nothing.
    pub fn execute<R: PassCallback>(&self, recorder: &mut R) -> (r: Result<(), RenderGraphError>)
        ensures
            match self.plan {
                None => r == Err::<(), RenderGraphError>(RenderGraphError::NotCompiled) && final(recorder).history() == old(recorder).history(),
                Some(pl) => r == Ok::<(), RenderGraphError>(()) && final(recorder).history() == old(recorder).history() + pl.records@.map_values(|c: RecordingContext| c@),
            },
    {
        match &self.plan {
            None => Err(RenderGraphError::NotCompiled),
            Some(pl) => {
                let ghost h0 = recorder.history();
                let mut k: usize = 0;
                while k < pl.records.len()
                    invariant
                        0 <= k <= pl.records@.len(),
                        recorder.history() == h0 + pl.records@.subrange(0, k as int).map_values(
                            |c: RecordingContext| c@,
                        ),
                    decreases pl.records@.len() - k,
                {
                    recorder.on_pass(&pl.records[k]);
                    proof {
                        assert(pl.records@.subrange(0, k as int + 1).map_values(
                            |c: RecordingContext| c@,
                        ) =~= pl.records@.subrange(0, k as int).map_values(
                            |c: RecordingContext| c@,
                        ).push(pl.records@[k as int]@));
                    }
                    k += 1;
                }
                proof {
                    assert(pl.records@.subrange(0, pl.records@.len() as int) =~= pl.records@);
                }
                Ok(())
            },
        }
    }
}

/// Well-formedness depends only on the registries and passes, never on
/// the stored plan.
proof fn lemma_wf_ignores_plan(a: RenderGraph, b: RenderGraph)
    requires
        a.wf(),
        b.textures == a.textures,
        b.buffers == a.buffers,
        b.passes == a.passes,
    ensures
        b.wf(),
{
    assert forall|p: int| 0 <= p < b.pass_count() implies b.pass_resolves(p)
        && (#[trigger] b.passes@[p]).lists_distinct() by {
        assert(a.pass_resolves(p));
        assert(a.passes@[p].lists_distinct());
        assert forall|nm: Seq<char>| a.tex_exists(nm) implies b.tex_exists(nm) by {
            let t = choose|t: int| 0 <= t < a.tex_count() && a.textures@[t].0@ == nm;
            assert(b.textures@[t].0@ == nm);
        }
        assert forall|nm: Seq<char>| a.buf_exists(nm) implies b.buf_exists(nm) by {
            let t = choose|t: int| 0 <= t < a.buf_count() && a.buffers@[t].0@ == nm;
            assert(b.buffers@[t].0@ == nm);
        }
    }
}

} // verus!
