//! The dependency graph over passes and the scheduler: a deterministic
//! topological sort that picks ready passes in declaration order and
//! detects cycles.

use vstd::prelude::*;
use vstd::seq_lib::group_seq_properties;
use vstd::set_lib::lemma_len_subset;
use vstd::set_lib::lemma_int_range;
use vstd::set_lib::set_int_range;
use crate::graph::RenderGraph;
use crate::resource::RenderGraphError;

verus! {

impl RenderGraph {
    /// Pass `b` depends on pass `a`: `a` produces a resource `b` consumes,
    /// or both produce one resource and `a` was declared first
    /// (write-after-write keeps declaration order).  Externality plays no
    /// role here.
    pub open spec fn dep_edge(self, a: int, b: int) -> bool {
        &&& 0 <= a < self.pass_count()
        &&& 0 <= b < self.pass_count()
        &&& a != b
        &&& ((exists|n: Seq<char>|
            #[trigger] self.passes@[a].writes_name(n) && self.passes@[b].reads_name(n)) || (a < b
            && exists|n: Seq<char>|
            #[trigger] self.passes@[a].writes_name(n) && self.passes@[b].writes_name(n)))
    }

    /// `ord` is a valid execution order: every pass exactly once, and
    /// whenever one pass depends on another, the dependency runs strictly
    /// earlier.
    pub open spec fn topo_ok(self, ord: Seq<usize>) -> bool {
        &&& ord.len() == self.pass_count()
        &&& forall|p: int| 0 <= p < ord.len() ==> #[trigger] ord[p] < self.pass_count()
        &&& forall|p: int, q: int| 0 <= p < q < ord.len() ==> #[trigger] ord[p] != #[trigger] ord[q]
        &&& forall|x: usize| 0 <= x < self.pass_count() ==> ord.contains(x)
        &&& forall|p: int, q: int|
            0 <= p < ord.len() && 0 <= q < ord.len() && #[trigger] self.dep_edge(
                ord[p] as int,
                ord[q] as int,
            ) ==> p < q
    }

    /// Whether any valid execution order exists; its absence is exactly a
    /// dependency cycle.
    pub open spec fn schedulable(self) -> bool {
        exists|ord: Seq<usize>| self.topo_ok(ord)
    }

    /// `ord` takes ready passes in ascending declaration order: at each
    /// position it runs the lowest-numbered pass that is not yet
    /// scheduled and whose dependencies are all scheduled.  Together with
    /// `topo_ok` this makes the schedule deterministic.
    pub open spec fn ready_in_declaration_order(self, ord: Seq<usize>) -> bool {
        forall|k: int, x: usize|
            #![trigger ord[k], scheduled_before(ord, k, x)]
            0 <= k < ord.len() && x < self.pass_count() && !scheduled_before(ord, k, x) && (
            forall|a: int|
                #[trigger] self.dep_edge(a, x as int) ==> scheduled_before(ord, k, a as usize))
                ==> ord[k] <= x
    }

    /// Whether some resource pass `a` produces is consumed by pass `b`.
    fn writes_read_by(&self, a: usize, b: usize) -> (r: bool)
        requires
            a < self.pass_count(),
            b < self.pass_count(),
        ensures
            r == (exists|n: Seq<char>|
                #[trigger] self.passes@[a as int].writes_name(n) && self.passes@[b as int].reads_name(
                    n,
                )),
    {
        let mut i: usize = 0;
        while i < self.passes[a].output_images.len()
            invariant
                a < self.pass_count(),
                b < self.pass_count(),
                forall|k: int|
                    0 <= k < i ==> !self.passes@[b as int].reads_name(
                        #[trigger] self.passes@[a as int].output_images@[k]@,
                    ),
            decreases self.passes@[a as int].output_images@.len() - i,
        {
            if self.passes[b].reads(&self.passes[a].output_images[i]) {
                proof {
                    assert(self.passes@[a as int].writes_name(
                        self.passes@[a as int].output_images@[i as int]@,
                    ));
                }
                return true;
            }
            i += 1;
        }
        let mut j: usize = 0;
        while j < self.passes[a].output_buffers.len()
            invariant
                a < self.pass_count(),
                b < self.pass_count(),
                forall|k: int|
                    0 <= k < j ==> !self.passes@[b as int].reads_name(
                        #[trigger] self.passes@[a as int].output_buffers@[k]@,
                    ),
            decreases self.passes@[a as int].output_buffers@.len() - j,
        {
            if self.passes[b].reads(&self.passes[a].output_buffers[j]) {
                proof {
                    assert(self.passes@[a as int].writes_name(
                        self.passes@[a as int].output_buffers@[j as int]@,
                    ));
                }
                return true;
            }
            j += 1;
        }
        proof {
            if exists|n: Seq<char>|
                #[trigger] self.passes@[a as int].writes_name(n)
                    && self.passes@[b as int].reads_name(n) {
                let n = choose|n: Seq<char>|
                    #[trigger] self.passes@[a as int].writes_name(n)
                        && self.passes@[b as int].reads_name(n);
                let imgs = self.passes@[a as int].output_images@;
                let bufs = self.passes@[a as int].output_buffers@;
                if crate::pass::has_name(imgs, n) {
                    let k = choose|k: int| 0 <= k < imgs.len() && #[trigger] imgs[k]@ == n;
                    assert(false);
                } else {
                    let k = choose|k: int| 0 <= k < bufs.len() && #[trigger] bufs[k]@ == n;
                    assert(false);
                }
            }
        }
        false
    }

    /// Whether passes `a` and `b` both produce some one resource.
    fn writes_written_by(&self, a: usize, b: usize) -> (r: bool)
        requires
            a < self.pass_count(),
            b < self.pass_count(),
        ensures
            r == (exists|n: Seq<char>|
                #[trigger] self.passes@[a as int].writes_name(n)
                    && self.passes@[b as int].writes_name(n)),
    {
        let mut i: usize = 0;
        while i < self.passes[a].output_images.len()
            invariant
                a < self.pass_count(),
                b < self.pass_count(),
                forall|k: int|
                    0 <= k < i ==> !self.passes@[b as int].writes_name(
                        #[trigger] self.passes@[a as int].output_images@[k]@,
                    ),
            decreases self.passes@[a as int].output_images@.len() - i,
        {
            if self.passes[b].writes(&self.passes[a].output_images[i]) {
                proof {
                    assert(self.passes@[a as int].writes_name(
                        self.passes@[a as int].output_images@[i as int]@,
                    ));
                }
                return true;
            }
            i += 1;
        }
        let mut j: usize = 0;
        while j < self.passes[a].output_buffers.len()
            invariant
                a < self.pass_count(),
                b < self.pass_count(),
                forall|k: int|
                    0 <= k < j ==> !self.passes@[b as int].writes_name(
                        #[trigger] self.passes@[a as int].output_buffers@[k]@,
                    ),
            decreases self.passes@[a as int].output_buffers@.len() - j,
        {
            if self.passes[b].writes(&self.passes[a].output_buffers[j]) {
                proof {
                    assert(self.passes@[a as int].writes_name(
                        self.passes@[a as int].output_buffers@[j as int]@,
                    ));
                }
                return true;
            }
            j += 1;
        }
        proof {
            if exists|n: Seq<char>|
                #[trigger] self.passes@[a as int].writes_name(n)
                    && self.passes@[b as int].writes_name(n) {
                let n = choose|n: Seq<char>|
                    #[trigger] self.passes@[a as int].writes_name(n)
                        && self.passes@[b as int].writes_name(n);
                let imgs = self.passes@[a as int].output_images@;
                let bufs = self.passes@[a as int].output_buffers@;
                if crate::pass::has_name(imgs, n) {
                    let k = choose|k: int| 0 <= k < imgs.len() && #[trigger] imgs[k]@ == n;
                    assert(false);
                } else {
                    let k = choose|k: int| 0 <= k < bufs.len() && #[trigger] bufs[k]@ == n;
                    assert(false);
                }
            }
        }
        false
    }

    /// Whether pass `b` depends on pass `a`.
    pub fn has_edge(&self, a: usize, b: usize) -> (r: bool)
        requires
            a < self.pass_count(),
            b < self.pass_count(),
        ensures
            r == self.dep_edge(a as int, b as int),
    {
        if a == b {
            return false;
        }
        if self.writes_read_by(a, b) {
            return true;
        }
        if a < b && self.writes_written_by(a, b) {
            return true;
        }
        false
    }

    /// Whether every dependency of pass `i` is already placed.
    fn preds_placed(&self, i: usize, placed: &Vec<bool>) -> (r: bool)
        requires
            i < self.pass_count(),
            placed@.len() == self.pass_count(),
        ensures
            r == (forall|a: int|
                0 <= a < self.pass_count() && #[trigger] self.dep_edge(a, i as int)
                    ==> placed@[a]),
    {
        let mut a: usize = 0;
        while a < self.passes.len()
            invariant
                i < self.pass_count(),
                placed@.len() == self.pass_count(),
                forall|k: int| 0 <= k < a && #[trigger] self.dep_edge(k, i as int) ==> placed@[k],
            decreases self.pass_count() - a,
        {
            if !placed[a] && self.has_edge(a, i) {
                return false;
            }
            a += 1;
        }
        true
    }

    /// The first pass, in declaration order, that is unplaced and whose
    /// dependencies are all placed.  `None` means every unplaced pass
    /// still has an unplaced dependency.
    fn find_ready(&self, placed: &Vec<bool>) -> (r: Option<usize>)
        requires
            placed@.len() == self.pass_count(),
        ensures
            match r {
                Some(i) => i < self.pass_count() && !placed@[i as int] && (forall|a: int|
                    0 <= a < self.pass_count() && #[trigger] self.dep_edge(a, i as int)
                        ==> placed@[a]) && (forall|k: int|
                    0 <= k < i ==> placed@[k] || exists|a: int|
                        0 <= a < self.pass_count() && #[trigger] self.dep_edge(a, k)
                            && !placed@[a]),
                None => forall|i: int|
                    0 <= i < self.pass_count() && !placed@[i] ==> exists|a: int|
                        0 <= a < self.pass_count() && #[trigger] self.dep_edge(a, i)
                            && !placed@[a],
            },
    {
        let mut i: usize = 0;
        while i < self.passes.len()
            invariant
                placed@.len() == self.pass_count(),
                forall|k: int|
                    0 <= k < i && !placed@[k] ==> exists|a: int|
                        0 <= a < self.pass_count() && #[trigger] self.dep_edge(a, k)
                            && !placed@[a],
            decreases self.pass_count() - i,
        {
            if !placed[i] && self.preds_placed(i, placed) {
                return Some(i);
            }
            proof {
                if !placed@[i as int] {
                    let a = choose|a: int|
                        0 <= a < self.pass_count() && #[trigger] self.dep_edge(a, i as int)
                            && !placed@[a];
                }
            }
            i += 1;
        }
        None
    }

    /// Compute a valid execution order over all passes, processing ready
    /// passes in ascending declaration order so the result is
    /// deterministic.  Fails with `CyclicDependency` exactly when no valid
    /// order exists.
    pub fn sort_passes(&self) -> (r: Result<Vec<usize>, RenderGraphError>)
        ensures
            match r {
                Ok(ord) => self.topo_ok(ord@) && self.ready_in_declaration_order(ord@),
                Err(e) => e == RenderGraphError::CyclicDependency && !self.schedulable(),
            },
    {
        let n = self.passes.len();
        let mut placed: Vec<bool> = Vec::new();
        let mut z: usize = 0;
        while z < n
            invariant
                0 <= z <= n,
                placed@.len() == z,
                forall|k: int| 0 <= k < z ==> !(#[trigger] placed@[k]),
            decreases n - z,
        {
            placed.push(false);
            z += 1;
        }
        let mut order: Vec<usize> = Vec::new();
        while order.len() < n
            invariant
                n == self.pass_count(),
                placed@.len() == n,
                order@.len() <= n,
                forall|p: int| 0 <= p < order@.len() ==> #[trigger] order@[p] < n,
                forall|x: int| 0 <= x < n ==> (#[trigger] placed@[x] <==> order@.contains(x as usize)),
                forall|p: int, q: int|
                    0 <= p < q < order@.len() ==> #[trigger] order@[p] != #[trigger] order@[q],
                forall|q: int, a: int|
                    0 <= q < order@.len() && #[trigger] self.dep_edge(a, order@[q] as int)
                        ==> exists|p: int| 0 <= p < q && #[trigger] order@[p] == a as usize,
                forall|kk: int, x: usize|
                    #![trigger order@[kk], scheduled_before(order@, kk, x)]
                    0 <= kk < order@.len() && x < n && !scheduled_before(order@, kk, x) && (
                    forall|a: int|
                        #[trigger] self.dep_edge(a, x as int) ==> scheduled_before(
                            order@,
                            kk,
                            a as usize,
                        )) ==> order@[kk] <= x,
            decreases n - order.len(),
        {
            match self.find_ready(&placed) {
                Some(i) => {
                    let ghost prev_order = order@;
                    let ghost prev_placed = placed@;
                    order.push(i);
                    placed.set(i, true);
                    proof {
                        assert(!prev_placed[i as int]);
                        assert(!prev_order.contains(i));
                        assert forall|x: int| 0 <= x < n implies (#[trigger] placed@[x]
                            <==> order@.contains(x as usize)) by {
                            if x == i as int {
                                assert(order@[order@.len() - 1] == i);
                                assert(order@.contains(i));
                            } else {
                                if prev_placed[x] {
                                    let p = choose|p: int|
                                        0 <= p < prev_order.len() && prev_order[p] == x as usize;
                                    assert(order@[p] == x as usize);
                                    assert(order@.contains(x as usize));
                                }
                                if order@.contains(x as usize) {
                                    let p = choose|p: int|
                                        0 <= p < order@.len() && order@[p] == x as usize;
                                    assert(p < prev_order.len());
                                    assert(prev_order.contains(x as usize));
                                }
                            }
                        }
                        assert forall|q: int, a: int|
                            0 <= q < order@.len() && #[trigger] self.dep_edge(a, order@[q] as int)
                                implies exists|p: int|
                            0 <= p < q && #[trigger] order@[p] == a as usize by {
                            if q < prev_order.len() {
                                assert(prev_order[q] == order@[q]);
                                let p = choose|p: int|
                                    0 <= p < q && #[trigger] prev_order[p] == a as usize;
                                assert(order@[p] == a as usize);
                            } else {
                                assert(order@[q] == i);
                                assert(prev_placed[a]);
                                let p = choose|p: int|
                                    0 <= p < prev_order.len() && prev_order[p] == a as usize;
                                assert(order@[p] == a as usize);
                            }
                        }
                        assert forall|kk: int, x: usize|
                            #![trigger order@[kk], scheduled_before(order@, kk, x)]
                            0 <= kk < order@.len() && x < n && !scheduled_before(order@, kk, x)
                                && (forall|a: int|
                                #[trigger] self.dep_edge(a, x as int) ==> scheduled_before(
                                    order@,
                                    kk,
                                    a as usize,
                                )) implies order@[kk] <= x by {
                            if kk < prev_order.len() {
                                assert(!scheduled_before(prev_order, kk, x)) by {
                                    if scheduled_before(prev_order, kk, x) {
                                        let p = choose|p: int|
                                            0 <= p < kk && #[trigger] prev_order[p] == x;
                                        assert(order@[p] == x);
                                        assert(scheduled_before(order@, kk, x));
                                    }
                                }
                                assert forall|a: int|
                                    #[trigger] self.dep_edge(a, x as int) implies scheduled_before(
                                    prev_order,
                                    kk,
                                    a as usize,
                                ) by {
                                    assert(scheduled_before(order@, kk, a as usize));
                                    let p = choose|p: int|
                                        0 <= p < kk && #[trigger] order@[p] == a as usize;
                                    assert(prev_order[p] == a as usize);
                                }
                                assert(prev_order[kk] <= x);
                                assert(order@[kk] == prev_order[kk]);
                            } else {
                                assert(order@[kk] == i);
                                if x < i {
                                    if prev_placed[x as int] {
                                        let p = choose|p: int|
                                            0 <= p < prev_order.len() && prev_order[p] == x;
                                        assert(order@[p] == x);
                                        assert(scheduled_before(order@, kk, x));
                                        assert(false);
                                    } else {
                                        let a = choose|a: int|
                                            0 <= a < self.pass_count() && #[trigger] self.dep_edge(
                                                a,
                                                x as int,
                                            ) && !prev_placed[a];
                                        assert(scheduled_before(order@, kk, a as usize));
                                        let p = choose|p: int|
                                            0 <= p < kk && #[trigger] order@[p] == a as usize;
                                        assert(p < prev_order.len());
                                        assert(prev_order[p] == a as usize);
                                        assert(prev_order.contains(a as usize));
                                        assert(prev_placed[a]);
                                        assert(false);
                                    }
                                }
                            }
                        }
                    }
                },
                None => {
                    proof {
                        lemma_some_unplaced(*self, order@, placed@);
                        lemma_stall_unschedulable(*self, placed@);
                    }
                    return Err(RenderGraphError::CyclicDependency);
                },
            }
        }
        proof {
            lemma_all_distinct_contains_all(order@, n as int);
            assert forall|p: int, q: int|
                0 <= p < order@.len() && 0 <= q < order@.len() && #[trigger] self.dep_edge(
                    order@[p] as int,
                    order@[q] as int,
                ) implies p < q by {
                let p2 = choose|p2: int| 0 <= p2 < q && #[trigger] order@[p2] == order@[p];
                assert(p2 == p);
            }
            assert(self.topo_ok(order@));
        }
        Ok(order)
    }
}

/// Whether `x` occupies one of the first `k` positions of `ord`.
pub open spec fn scheduled_before(ord: Seq<usize>, k: int, x: usize) -> bool {
    exists|p: int| 0 <= p < k && #[trigger] ord[p] == x
}

/// A duplicate-free sequence of `n` values drawn from `0..n` contains
/// every value in `0..n`.
proof fn lemma_all_distinct_contains_all(s: Seq<usize>, n: int)
    requires
        s.len() == n,
        forall|p: int| 0 <= p < s.len() ==> #[trigger] s[p] < n,
        forall|p: int, q: int| 0 <= p < q < s.len() ==> #[trigger] s[p] != #[trigger] s[q],
    ensures
        forall|x: usize| 0 <= x < n ==> s.contains(x),
{
    broadcast use group_seq_properties;
    broadcast use vstd::seq_lib::seq_to_set_is_finite;

    let si = s.map_values(|u: usize| u as int);
    assert(si.no_duplicates()) by {
        assert forall|p: int, q: int|
            0 <= p < si.len() && 0 <= q < si.len() && p != q implies si[p] != si[q] by {
            if p < q {
                assert(s[p] != s[q]);
            } else {
                assert(s[q] != s[p]);
            }
        }
    }
    si.unique_seq_to_set();
    lemma_int_range(0, n);
    assert forall|x: usize| 0 <= x < n implies s.contains(x) by {
        if !s.contains(x) {
            assert forall|y: int| si.to_set().contains(y) implies set_int_range(0, n).remove(
                x as int,
            ).contains(y) by {
                let p = choose|p: int| 0 <= p < si.len() && si[p] == y;
                assert(s[p] == y as usize);
                assert(0 <= y < n);
                if y == x as int {
                    assert(s[p] == x);
                    assert(s.contains(x));
                }
            }
            lemma_len_subset(si.to_set(), set_int_range(0, n).remove(x as int));
            assert(set_int_range(0, n).contains(x as int));
            assert(set_int_range(0, n).remove(x as int).len() == n - 1);
            assert(false);
        }
    }
}

/// A sequence shorter than `n` cannot contain all of `0..n`: so while the
/// scheduler still has passes to place, some pass is unplaced.
proof fn lemma_some_unplaced(g: RenderGraph, order: Seq<usize>, placed: Seq<bool>)
    requires
        g.pass_count() <= usize::MAX,
        placed.len() == g.pass_count(),
        order.len() < g.pass_count(),
        forall|x: int|
            0 <= x < g.pass_count() ==> (#[trigger] placed[x] <==> order.contains(x as usize)),
    ensures
        exists|x: int| 0 <= x < g.pass_count() && !(#[trigger] placed[x]),
{
    broadcast use vstd::seq_lib::seq_to_set_is_finite;

    if forall|x: int| 0 <= x < g.pass_count() ==> #[trigger] placed[x] {
        let n = g.pass_count();
        let si = order.map_values(|u: usize| u as int);
        si.lemma_cardinality_of_set();
        lemma_int_range(0, n);
        assert forall|y: int| set_int_range(0, n).contains(y) implies si.to_set().contains(y) by {
            assert(0 <= y < n);
            assert(placed[y]);
            assert(order.contains(y as usize));
            let p = choose|p: int| 0 <= p < order.len() && order[p] == y as usize;
            assert(si[p] == order[p] as int);
            assert(order[p] as int == y);
            assert(si.contains(y));
        }
        lemma_len_subset(set_int_range(0, n), si.to_set());
        assert(false);
    }
}

/// When every unplaced pass has an unplaced dependency, no valid order of
/// all passes exists: any such order would have to place some unplaced
/// pass first among the unplaced, ahead of its unplaced dependency.
#[verifier::rlimit(100)]
proof fn lemma_stall_unschedulable(g: RenderGraph, placed: Seq<bool>)
    requires
        g.pass_count() <= usize::MAX,
        placed.len() == g.pass_count(),
        exists|x: int| 0 <= x < g.pass_count() && !(#[trigger] placed[x]),
        forall|i: int|
            0 <= i < g.pass_count() && !placed[i] ==> exists|a: int|
                0 <= a < g.pass_count() && #[trigger] g.dep_edge(a, i) && !placed[a],
    ensures
        !g.schedulable(),
{
    if g.schedulable() {
        let ord = choose|ord: Seq<usize>| g.topo_ok(ord);
        assert(g.topo_ok(ord));
        let x = choose|x: int| 0 <= x < g.pass_count() && !placed[x];
        assert(ord.contains(x as usize));
        let q0 = choose|q0: int| 0 <= q0 < ord.len() && ord[q0] == x as usize;
        assert(ord[q0] as int == x);
        assert(!placed[ord[q0] as int]);
        let p = lemma_first_unplaced(ord, placed, q0);
        let i = ord[p] as int;
        assert(0 <= i < g.pass_count());
        assert(!placed[i]);
        let a = choose|a: int|
            0 <= a < g.pass_count() && #[trigger] g.dep_edge(a, i) && !placed[a];
        assert(ord.contains(a as usize));
        let q = choose|q: int| 0 <= q < ord.len() && ord[q] == a as usize;
        assert(ord[q] as int == a);
        assert(g.dep_edge(ord[q] as int, ord[p] as int));
        assert(q < p);
        assert(placed[ord[q] as int]);
        assert(false);
    }
}

/// The earliest position in `ord` holding an unplaced pass, given one
/// position that does.
proof fn lemma_first_unplaced(ord: Seq<usize>, placed: Seq<bool>, q: int) -> (p: int)
    requires
        0 <= q < ord.len(),
        forall|r: int| 0 <= r < ord.len() ==> #[trigger] ord[r] < placed.len(),
        !placed[ord[q] as int],
    ensures
        0 <= p <= q,
        !placed[ord[p] as int],
        forall|r: int| 0 <= r < p ==> placed[#[trigger] ord[r] as int],
    decreases q,
{
    if forall|r: int| 0 <= r < q ==> placed[#[trigger] ord[r] as int] {
        q
    } else {
        let r = choose|r: int| 0 <= r < q && !placed[#[trigger] ord[r] as int];
        lemma_first_unplaced(ord, placed, r)
    }
}

} // verus!
