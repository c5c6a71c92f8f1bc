//! The aliasing analyzer: given each resource's layout key, externality and
//! lifetime window in the compiled order, assign physical slots so that two
//! resources share a slot only when they may alias.

use vstd::prelude::*;
use crate::resource::AttachmentSize;

verus! {

/// The layout of a resource for aliasing purposes: two resources may share
/// a physical slot only if their keys are identical.
#[derive(Clone, Copy, Debug, PartialEq, Eq, Structural)]
pub enum ResKey {
    /// A texture's declared extent descriptor and format code.
    Texture(AttachmentSize, u32),
    /// A buffer's declared byte size.
    Buffer(u64),
}

/// A resource's lifetime window in the compiled pass order: the positions
/// of its first and last use.  `used` is false for resources no pass
/// touches; `first` and `last` are meaningful only when `used` holds.
#[derive(Clone, Copy, Debug, PartialEq, Eq, Structural)]
pub struct ResWindow {
    pub used: bool,
    pub first: usize,
    pub last: usize,
}

/// Whether two lifetime windows have no position in common.
pub open spec fn windows_disjoint(a: ResWindow, b: ResWindow) -> bool {
    a.last < b.first || b.last < a.first
}

/// Whether two distinct resources may share one physical slot: identical
/// layout keys, neither external, and lifetime windows that do not overlap
/// (unused resources never share).
pub open spec fn may_share(
    ka: ResKey,
    ea: bool,
    wa: ResWindow,
    kb: ResKey,
    eb: bool,
    wb: ResWindow,
) -> bool {
    &&& ka == kb
    &&& !ea
    &&& !eb
    &&& wa.used
    &&& wb.used
    &&& windows_disjoint(wa, wb)
}

/// Whether every resource already in a slot may share it with resource `r`.
fn slot_admits(
    keys: &Vec<ResKey>,
    ext: &Vec<bool>,
    windows: &Vec<ResWindow>,
    occ: &Vec<usize>,
    r: usize,
) -> (b: bool)
    requires
        keys.len() == ext.len(),
        keys.len() == windows.len(),
        r < keys.len(),
        forall|k: int| 0 <= k < occ@.len() ==> #[trigger] occ@[k] < keys.len(),
    ensures
        b == (forall|k: int|
            0 <= k < occ@.len() ==> may_share(
                keys@[#[trigger] occ@[k] as int],
                ext@[occ@[k] as int],
                windows@[occ@[k] as int],
                keys@[r as int],
                ext@[r as int],
                windows@[r as int],
            )),
{
    let mut k: usize = 0;
    while k < occ.len()
        invariant
            0 <= k <= occ@.len(),
            keys.len() == ext.len(),
            keys.len() == windows.len(),
            r < keys.len(),
            forall|j: int| 0 <= j < occ@.len() ==> #[trigger] occ@[j] < keys.len(),
            forall|j: int|
                0 <= j < k ==> may_share(
                    keys@[#[trigger] occ@[j] as int],
                    ext@[occ@[j] as int],
                    windows@[occ@[j] as int],
                    keys@[r as int],
                    ext@[r as int],
                    windows@[r as int],
                ),
        decreases occ.len() - k,
    {
        let o = occ[k];
        let ok = keys[o] == keys[r] && !ext[o] && !ext[r] && windows[o].used && windows[r].used
            && (windows[o].last < windows[r].first || windows[r].last < windows[o].first);
        if !ok {
            return false;
        }
        k += 1;
    }
    true
}

/// The latest position at which the slot's occupants free it before `r`'s
/// window begins, if any occupant ends before that window.  Used only to
/// prefer the most-recently-freed compatible slot; safety never depends on
/// it.
fn slot_free_end(windows: &Vec<ResWindow>, occ: &Vec<usize>, r: usize) -> (fe: Option<usize>)
    requires
        r < windows.len(),
        forall|k: int| 0 <= k < occ@.len() ==> #[trigger] occ@[k] < windows.len(),
{
    let mut fe: Option<usize> = None;
    let mut k: usize = 0;
    while k < occ.len()
        invariant
            0 <= k <= occ@.len(),
            r < windows.len(),
            forall|j: int| 0 <= j < occ@.len() ==> #[trigger] occ@[j] < windows.len(),
        decreases occ.len() - k,
    {
        let o = occ[k];
        if windows[o].used && windows[o].last < windows[r].first {
            fe = match fe {
                None => Some(windows[o].last),
                Some(e) => if windows[o].last > e {
                    Some(windows[o].last)
                } else {
                    Some(e)
                },
            };
        }
        k += 1;
    }
    fe
}

/// Assign a physical slot to every resource.  Externality and unused
/// lifetimes force fresh slots; otherwise the analyzer greedily reuses the
/// compatible slot that was freed most recently before the resource's
/// window begins, falling back to a fresh slot.  The contract is the safety
/// of the result: two distinct resources receive the same slot only if they
/// may alias.
pub fn assign_slots(keys: &Vec<ResKey>, ext: &Vec<bool>, windows: &Vec<ResWindow>) -> (slots: Vec<
    usize,
>)
    requires
        keys.len() == ext.len(),
        keys.len() == windows.len(),
    ensures
        slots.len() == keys.len(),
        forall|i: int, j: int|
            0 <= i < keys@.len() && 0 <= j < keys@.len() && i != j && #[trigger] slots@[i]
                == #[trigger] slots@[j] ==> may_share(
                keys@[i],
                ext@[i],
                windows@[i],
                keys@[j],
                ext@[j],
                windows@[j],
            ),
{
    let n = keys.len();
    let mut slots: Vec<usize> = Vec::new();
    let mut occupants: Vec<Vec<usize>> = Vec::new();
    let mut r: usize = 0;
    while r < n
        invariant
            n == keys.len(),
            keys.len() == ext.len(),
            keys.len() == windows.len(),
            0 <= r <= n,
            slots@.len() == r,
            forall|s: int, k: int|
                0 <= s < occupants@.len() && 0 <= k < occupants@[s]@.len()
                    ==> #[trigger] occupants@[s]@[k] < r,
            forall|i: int|
                0 <= i < r ==> #[trigger] slots@[i] < occupants@.len() && occupants@[slots@[i] as int]@.contains(
                    i as usize,
                ),
            forall|s: int, k: int|
                0 <= s < occupants@.len() && 0 <= k < occupants@[s]@.len() ==> slots@[#[trigger] occupants@[s]@[k] as int]
                    == s,
            forall|i: int, j: int|
                0 <= i < r && 0 <= j < r && i != j && #[trigger] slots@[i] == #[trigger] slots@[j]
                    ==> may_share(keys@[i], ext@[i], windows@[i], keys@[j], ext@[j], windows@[j]),
        decreases n - r,
    {
        if ext[r] || !windows[r].used {
            let fresh = occupants.len();
            slots.push(fresh);
            let mut occ: Vec<usize> = Vec::new();
            occ.push(r);
            occupants.push(occ);
            proof {
                assert(occupants@[fresh as int]@[0] == r);
                assert(occupants@[fresh as int]@.contains(r));
            }
        } else {
            let mut best: Option<usize> = None;
            let mut best_end: Option<usize> = None;
            let mut s: usize = 0;
            while s < occupants.len()
                invariant
                    n == keys.len(),
                    keys.len() == ext.len(),
                    keys.len() == windows.len(),
                    r < n,
                    0 <= s <= occupants@.len(),
                    forall|t: int, k: int|
                        0 <= t < occupants@.len() && 0 <= k < occupants@[t]@.len()
                            ==> #[trigger] occupants@[t]@[k] < r,
                    match best {
                        None => true,
                        Some(b) => b < occupants@.len() && forall|k: int|
                            0 <= k < occupants@[b as int]@.len() ==> may_share(
                                keys@[#[trigger] occupants@[b as int]@[k] as int],
                                ext@[occupants@[b as int]@[k] as int],
                                windows@[occupants@[b as int]@[k] as int],
                                keys@[r as int],
                                ext@[r as int],
                                windows@[r as int],
                            ),
                    },
                decreases occupants.len() - s,
            {
                let admits = slot_admits(keys, ext, windows, &occupants[s], r);
                if admits {
                    let fe = slot_free_end(windows, &occupants[s], r);
                    let better = match (&best_end, &fe) {
                        (_, None) => best.is_none(),
                        (None, Some(_)) => true,
                        (Some(b), Some(f)) => *f > *b,
                    };
                    if best.is_none() || better {
                        best = Some(s);
                        best_end = fe;
                    }
                }
                s += 1;
            }
            match best {
                Some(s) => {
                    slots.push(s);
                    let ghost old_occupants = occupants@;
                    let mut occ = occupants[s].clone();
                    proof {
                        assert(occ@ =~= occupants@[s as int]@);
                    }
                    occ.push(r);
                    occupants.set(s, occ);
                    proof {
                        let new_list = occupants@[s as int]@;
                        assert(new_list[new_list.len() - 1] == r);
                        assert(new_list.contains(r));
                        assert forall|i: int| 0 <= i < r && slots@[i] == s implies occupants@[slots@[i] as int]@.contains(
                            i as usize,
                        ) by {
                            let k = choose|k: int|
                                0 <= k < old_occupants[s as int]@.len()
                                    && old_occupants[s as int]@[k] == i as usize;
                            assert(new_list[k] == i as usize);
                        }
                    }
                },
                None => {
                    let fresh = occupants.len();
                    slots.push(fresh);
                    let mut occ: Vec<usize> = Vec::new();
                    occ.push(r);
                    occupants.push(occ);
                    proof {
                        assert(occupants@[fresh as int]@[0] == r);
                        assert(occupants@[fresh as int]@.contains(r));
                    }
                },
            }
        }
        r += 1;
    }
    slots
}

} // verus!
