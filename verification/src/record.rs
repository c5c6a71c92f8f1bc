//! The execution-time interface: for each pass, in compiled order, the
//! executor hands a recording context exposing the pass's resolved resource
//! bindings to a caller-supplied callback.

use vstd::prelude::*;

verus! {

/// What one pass callback receives: the pass's name and, for every resource
/// the pass declared, the physical slot the aliasing analysis assigned to
/// it.  Bindings appear in declaration order: input images, input buffers,
/// output images, output buffers.
#[derive(Debug)]
pub struct RecordingContext {
    pub pass_name: String,
    /// The opaque recording-routine handle attached to the pass, for the
    /// caller's dispatcher.
    pub callback: u64,
    pub bindings: Vec<(String, usize)>,
}

/// The mathematical content of a [`RecordingContext`]: the pass name and
/// the name-to-slot bindings, as plain sequences.
#[verifier::ext_equal]
pub struct RecordView {
    pub pass: Seq<char>,
    pub callback: u64,
    pub bindings: Seq<(Seq<char>, usize)>,
}

impl View for RecordingContext {
    type V = RecordView;

    open spec fn view(&self) -> RecordView {
        RecordView {
            pass: self.pass_name@,
            callback: self.callback,
            bindings: Seq::new(
                self.bindings@.len(),
                |i: int| (self.bindings@[i].0@, self.bindings@[i].1),
            ),
        }
    }
}

impl RecordingContext {
    /// A copy of this context with the same view.
    pub fn duplicate(&self) -> (r: RecordingContext)
        ensures
            r@ == self@,
    {
        let mut bindings: Vec<(String, usize)> = Vec::new();
        let mut i: usize = 0;
        while i < self.bindings.len()
            invariant
                0 <= i <= self.bindings.len(),
                bindings@ == self.bindings@.subrange(0, i as int),
            decreases self.bindings.len() - i,
        {
            let (name, slot) = &self.bindings[i];
            bindings.push((name.clone(), *slot));
            proof {
                assert(bindings@ =~= self.bindings@.subrange(0, i as int + 1));
            }
            i += 1;
        }
        let r = RecordingContext {
            pass_name: self.pass_name.clone(),
            callback: self.callback,
            bindings,
        };
        proof {
            assert(bindings@ =~= self.bindings@);
            assert(r@ =~= self@);
        }
        r
    }
}

/// The recording routine invoked once per pass during `execute`.  The
/// `history` view is the sequence of contexts the callback has been invoked
/// with, oldest first; each invocation appends exactly one entry.
pub trait PassCallback {
    /// The views of the contexts this callback has seen so far, oldest
    /// first.
    spec fn history(&self) -> Seq<RecordView>;

    /// Record the work of one pass, given its resolved bindings.
    fn on_pass(&mut self, ctx: &RecordingContext)
        ensures
            final(self).history() == old(self).history().push(ctx@),
    ;
}

/// A callback that only remembers what it was invoked with, in order.  It
/// both serves as the reference implementation of [`PassCallback`] and lets
/// a caller audit execution order and bindings.
pub struct CallbackLog {
    pub records: Vec<RecordingContext>,
}

impl CallbackLog {
    /// An empty log.
    pub fn new() -> (r: CallbackLog)
        ensures
            r.history() == Seq::<RecordView>::empty(),
    {
        let r = CallbackLog { records: Vec::new() };
        proof {
            assert(r.history() =~= Seq::<RecordView>::empty());
        }
        r
    }
}

impl PassCallback for CallbackLog {
    open spec fn history(&self) -> Seq<RecordView> {
        self.records@.map_values(|r: RecordingContext| r@)
    }

    fn on_pass(&mut self, ctx: &RecordingContext) {
        let dup = ctx.duplicate();
        proof {
            let prior = self.records@;
            assert(prior.push(dup).map_values(|r: RecordingContext| r@) =~= prior.map_values(
                |r: RecordingContext| r@,
            ).push(dup@));
        }
        self.records.push(dup);
    }
}

} // verus!
