//! The library's laws: consequences of the `compile` and `execute`
//! contracts, stated and proved once so callers need not re-derive them.

use vstd::prelude::*;
use crate::alias::may_share;
use crate::alias::windows_disjoint;
use crate::graph::CompiledPlan;
use crate::graph::RenderGraph;
use crate::pass::distinct_names;
use crate::schedule::scheduled_before;
use crate::pass::has_name;

verus! {

impl RenderGraph {
    /// Texture `t` is live at position `q` of the order: some pass at or
    /// before `q` uses it and some pass at or after `q` uses it.
    pub open spec fn tex_live_at(self, ord: Seq<usize>, t: int, q: int) -> bool {
        &&& exists|q1: int|
            0 <= q1 <= q && self.tex_used_by_pass(#[trigger] ord[q1] as int, t)
        &&& exists|q2: int|
            q <= q2 < ord.len() && self.tex_used_by_pass(#[trigger] ord[q2] as int, t)
    }
}

/// Every pass appears exactly once in a compiled plan's order, and the
/// record at that position carries the pass's name: executing the plan
/// invokes every pass callback exactly once.
pub proof fn lemma_each_pass_runs_once(g: RenderGraph, p: CompiledPlan, x: int)
    requires
        g.pass_count() <= usize::MAX,
        g.plan_ok(p),
        0 <= x < g.pass_count(),
    ensures
        exists|k: int|
            0 <= k < p.order@.len() && p.order@[k] == x as usize && (forall|k2: int|
                0 <= k2 < p.order@.len() && p.order@[k2] == x as usize ==> k2 == k)
                && (#[trigger] p.records@[k])@.pass == g.passes@[x].name@,
{
    assert(p.order@.contains(x as usize));
    let k = choose|k: int| 0 <= k < p.order@.len() && p.order@[k] == x as usize;
    assert forall|k2: int|
        0 <= k2 < p.order@.len() && p.order@[k2] == x as usize implies k2 == k by {
        if k2 < k {
            assert(p.order@[k2] != p.order@[k]);
        } else if k2 > k {
            assert(p.order@[k] != p.order@[k2]);
        }
    }
    assert(p.records@[k]@ == g.pass_record_view(p.order@[k] as int, p.tex_slots@, p.buf_slots@));
    assert(p.order@[k] as int == x);
    assert(p.records@[k]@.pass == g.passes@[x].name@);
    assert(0 <= k < p.order@.len() && p.order@[k] == x as usize && (forall|k2: int|
        0 <= k2 < p.order@.len() && p.order@[k2] == x as usize ==> k2 == k) && (
    #[trigger] p.records@[k])@.pass == g.passes@[x].name@);
}

/// In a compiled plan, every consumer of a resource runs strictly after
/// every producer of that resource.
pub proof fn lemma_consumers_run_after_producers(
    g: RenderGraph,
    p: CompiledPlan,
    n: Seq<char>,
    k1: int,
    k2: int,
)
    requires
        g.plan_ok(p),
        0 <= k1 < p.order@.len(),
        0 <= k2 < p.order@.len(),
        k1 != k2,
        g.passes@[p.order@[k1] as int].writes_name(n),
        g.passes@[p.order@[k2] as int].reads_name(n),
    ensures
        k1 < k2,
{
    let a = p.order@[k1] as int;
    let b = p.order@[k2] as int;
    if a == b {
        if k1 < k2 {
            assert(p.order@[k1] != p.order@[k2]);
        } else {
            assert(p.order@[k2] != p.order@[k1]);
        }
        assert(false);
    }
    assert(g.dep_edge(a, b));
}

/// Two passes that each consume what the other produces leave no valid
/// order, so `compile` must fail with `CyclicDependency`.
pub proof fn lemma_mutual_dependency_is_cyclic(g: RenderGraph, a: int, b: int)
    requires
        g.pass_count() <= usize::MAX,
        g.dep_edge(a, b),
        g.dep_edge(b, a),
    ensures
        !g.schedulable(),
{
    if g.schedulable() {
        let ord = choose|ord: Seq<usize>| g.topo_ok(ord);
        assert(ord.contains(a as usize));
        assert(ord.contains(b as usize));
        let ka = choose|ka: int| 0 <= ka < ord.len() && ord[ka] == a as usize;
        let kb = choose|kb: int| 0 <= kb < ord.len() && ord[kb] == b as usize;
        assert(ord[ka] as int == a && ord[kb] as int == b);
        assert(g.dep_edge(ord[ka] as int, ord[kb] as int));
        assert(ka < kb);
        assert(g.dep_edge(ord[kb] as int, ord[ka] as int));
        assert(kb < ka);
        assert(false);
    }
}

/// Two distinct textures that are both live at one position of the
/// compiled order never share a physical slot.
pub proof fn lemma_overlapping_textures_never_share(
    g: RenderGraph,
    p: CompiledPlan,
    t1: int,
    t2: int,
    q: int,
)
    requires
        g.plan_ok(p),
        0 <= t1 < g.tex_count(),
        0 <= t2 < g.tex_count(),
        t1 != t2,
        0 <= q < p.order@.len(),
        g.tex_live_at(p.order@, t1, q),
        g.tex_live_at(p.order@, t2, q),
    ensures
        p.tex_slots@[t1] != p.tex_slots@[t2],
{
    if p.tex_slots@[t1] == p.tex_slots@[t2] {
        assert(may_share(
            g.tex_key(t1),
            g.tex_ext(t1),
            p.tex_windows@[t1],
            g.tex_key(t2),
            g.tex_ext(t2),
            p.tex_windows@[t2],
        ));
        let w1 = p.tex_windows@[t1];
        let w2 = p.tex_windows@[t2];
        assert(g.tex_window_ok(p.order@, t1, w1));
        assert(g.tex_window_ok(p.order@, t2, w2));
        let q1a = choose|q1: int| 0 <= q1 <= q && g.tex_used_by_pass(ord_at(p.order@, q1), t1);
        let q1b = choose|q2: int|
            q <= q2 < p.order@.len() && g.tex_used_by_pass(ord_at(p.order@, q2), t1);
        let q2a = choose|q1: int| 0 <= q1 <= q && g.tex_used_by_pass(ord_at(p.order@, q1), t2);
        let q2b = choose|q2: int|
            q <= q2 < p.order@.len() && g.tex_used_by_pass(ord_at(p.order@, q2), t2);
        assert(w1.first <= q1a && q1b <= w1.last);
        assert(w2.first <= q2a && q2b <= w2.last);
        assert(w1.first <= q && q <= w1.last);
        assert(w2.first <= q && q <= w2.last);
        assert(!windows_disjoint(w1, w2));
        assert(false);
    }
}

/// An external texture never shares a physical slot with any other
/// resource, whatever their lifetimes and layouts.
pub proof fn lemma_external_never_shares(g: RenderGraph, p: CompiledPlan, t1: int, t2: int)
    requires
        g.plan_ok(p),
        0 <= t1 < g.tex_count(),
        0 <= t2 < g.tex_count(),
        t1 != t2,
        g.tex_ext(t1),
    ensures
        p.tex_slots@[t1] != p.tex_slots@[t2],
{
}

/// In a duplicate-free declaration list, a declared name sits at exactly
/// one position: declaring the same resource twice on one pass leaves it
/// appearing exactly once.
pub proof fn lemma_declared_name_appears_once(list: Seq<String>, n: Seq<char>)
    requires
        distinct_names(list),
        has_name(list, n),
    ensures
        exists|i: int|
            0 <= i < list.len() && #[trigger] list[i]@ == n && (forall|j: int|
                0 <= j < list.len() && list[j]@ == n ==> j == i),
{
    let i = choose|i: int| 0 <= i < list.len() && #[trigger] list[i]@ == n;
    assert forall|j: int| 0 <= j < list.len() && list[j]@ == n implies j == i by {
        if j < i {
            assert(list[j]@ != list[i]@);
        } else if j > i {
            assert(list[i]@ != list[j]@);
        }
    }
}

/// Prefixes of two valid declaration-order schedules agree: at each
/// position both must run the lowest-numbered pass that is unscheduled
/// and ready.
proof fn lemma_schedule_prefixes_agree(g: RenderGraph, ord1: Seq<usize>, ord2: Seq<usize>, k: int)
    requires
        g.pass_count() <= usize::MAX,
        g.topo_ok(ord1),
        g.ready_in_declaration_order(ord1),
        g.topo_ok(ord2),
        g.ready_in_declaration_order(ord2),
        0 <= k <= ord1.len(),
    ensures
        ord1.subrange(0, k) == ord2.subrange(0, k),
    decreases k,
{
    if k > 0 {
        lemma_schedule_prefixes_agree(g, ord1, ord2, k - 1);
        let j = k - 1;
        let x1 = ord1[j];
        let x2 = ord2[j];
        assert forall|p: int| 0 <= p < j implies ord1[p] == ord2[p] by {
            assert(ord1.subrange(0, j)[p] == ord2.subrange(0, j)[p]);
        }
        assert(!scheduled_before(ord1, j, x1)) by {
            if scheduled_before(ord1, j, x1) {
                let p = choose|p: int| 0 <= p < j && #[trigger] ord1[p] == x1;
                assert(ord1[p] != ord1[j]);
            }
        }
        assert(!scheduled_before(ord2, j, x2)) by {
            if scheduled_before(ord2, j, x2) {
                let p = choose|p: int| 0 <= p < j && #[trigger] ord2[p] == x2;
                assert(ord2[p] != ord2[j]);
            }
        }
        assert(!scheduled_before(ord2, j, x1)) by {
            if scheduled_before(ord2, j, x1) {
                let p = choose|p: int| 0 <= p < j && #[trigger] ord2[p] == x1;
                assert(ord1[p] == x1);
                assert(ord1[p] != ord1[j]);
            }
        }
        assert(!scheduled_before(ord1, j, x2)) by {
            if scheduled_before(ord1, j, x2) {
                let p = choose|p: int| 0 <= p < j && #[trigger] ord1[p] == x2;
                assert(ord2[p] == x2);
                assert(ord2[p] != ord2[j]);
            }
        }
        assert forall|a: int| #[trigger] g.dep_edge(a, x1 as int) implies
            scheduled_before(ord2, j, a as usize) by {
            assert(ord1.contains(a as usize));
            let pa = choose|pa: int| 0 <= pa < ord1.len() && ord1[pa] == a as usize;
            assert(g.dep_edge(ord1[pa] as int, ord1[j] as int));
            assert(pa < j);
            assert(ord2[pa] == a as usize);
        }
        assert forall|a: int| #[trigger] g.dep_edge(a, x2 as int) implies
            scheduled_before(ord1, j, a as usize) by {
            assert(ord2.contains(a as usize));
            let pa = choose|pa: int| 0 <= pa < ord2.len() && ord2[pa] == a as usize;
            assert(g.dep_edge(ord2[pa] as int, ord2[j] as int));
            assert(pa < j);
            assert(ord1[pa] == a as usize);
        }
        assert(ord2[j] <= x1);
        assert(ord1[j] <= x2);
        assert(x1 == x2);
        assert(ord1.subrange(0, k) =~= ord2.subrange(0, k));
    } else {
        assert(ord1.subrange(0, 0) =~= ord2.subrange(0, 0));
    }
}

/// The compiled order is unique: any two orders that respect the
/// dependency graph and take ready passes in declaration order are equal.
/// Compiling the same declarations therefore always yields the same
/// schedule.
pub proof fn lemma_schedule_is_unique(g: RenderGraph, ord1: Seq<usize>, ord2: Seq<usize>)
    requires
        g.pass_count() <= usize::MAX,
        g.topo_ok(ord1),
        g.ready_in_declaration_order(ord1),
        g.topo_ok(ord2),
        g.ready_in_declaration_order(ord2),
    ensures
        ord1 == ord2,
{
    lemma_schedule_prefixes_agree(g, ord1, ord2, ord1.len() as int);
    assert(ord1.subrange(0, ord1.len() as int) =~= ord1);
    assert(ord2.subrange(0, ord2.len() as int) =~= ord2);
}

/// Helper naming the pass index at one position of the order.
pub open spec fn ord_at(ord: Seq<usize>, q: int) -> int {
    ord[q] as int
}

} // verus!
