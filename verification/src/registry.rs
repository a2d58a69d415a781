//! Keyed collection of convergence controllers, one per
//! (operator id, parallel-worker id) pair, with host-driven lifecycle.

use crate::controller::{
    spec_report_rel, BatchConvergenceController, ProgressSignal, BATCH_TIME_MAX_US,
    STDEV_SCALE_MAX,
};
use crate::rational::Ratio;
use crate::CoreError;
use vstd::prelude::*;

verus! {

/// One registry slot: the composite key and its controller.
pub struct OperatorEntry {
    pub operator_id: i32,
    pub worker_id: i32,
    pub state: BatchConvergenceController,
}

/// Mapping from (operator id, worker id) to exactly one controller.
pub struct OperatorRegistry {
    pub entries: Vec<OperatorEntry>,
}

/// Every key other than `(op, wk)` sees the same registry before and after.
pub open spec fn spec_frame_except(
    pre: OperatorRegistry,
    post: OperatorRegistry,
    op: int,
    wk: int,
) -> bool {
    forall|o: int, w: int|
        #![auto]
        !(o == op && w == wk) ==> (post.spec_contains(o, w) <==> pre.spec_contains(o, w)) && (
        pre.spec_contains(o, w) ==> post.spec_get(o, w) == pre.spec_get(o, w))
}

impl OperatorRegistry {
    /// The composite key of slot `i`.
    pub open spec fn key_at(self, i: int) -> (int, int) {
        (self.entries@[i].operator_id as int, self.entries@[i].worker_id as int)
    }

    /// Keys are unique and every controller is well formed.
    pub open spec fn wf(self) -> bool {
        &&& forall|i: int|
            0 <= i < self.entries@.len() ==> (#[trigger] self.entries@[i]).state.wf()
        &&& forall|i: int, j: int|
            0 <= i < j < self.entries@.len() ==> #[trigger] self.key_at(i) != #[trigger] self.key_at(
                j,
            )
    }

    /// Whether a controller is registered for this key.
    pub open spec fn spec_contains(self, op: int, wk: int) -> bool {
        exists|i: int| 0 <= i < self.entries@.len() && #[trigger] self.key_at(i) == (op, wk)
    }

    /// The controller registered for this key.
    pub open spec fn spec_get(self, op: int, wk: int) -> BatchConvergenceController {
        self.entries@[choose|i: int|
            0 <= i < self.entries@.len() && #[trigger] self.key_at(i) == (op, wk)].state
    }

    /// An empty registry.
    pub fn new() -> (r: OperatorRegistry)
        ensures
            r.wf(),
            r.entries@.len() == 0,
            forall|o: int, w: int| !r.spec_contains(o, w),
    {
        OperatorRegistry { entries: Vec::new() }
    }

    /// The slot holding this key, if any.
    fn find_index(&self, operator_id: i32, worker_id: i32) -> (r: Option<usize>)
        ensures
            (r matches Some(i) ==> 0 <= i < self.entries@.len() && self.key_at(i as int) == (
            operator_id as int,
            worker_id as int,
            )),
            r is None ==> !self.spec_contains(operator_id as int, worker_id as int),
    {
        let n = self.entries.len();
        let mut i: usize = 0;
        while i < n
            invariant
                0 <= i <= n,
                n == self.entries@.len(),
                forall|j: int|
                    0 <= j < i ==> #[trigger] self.key_at(j) != (
                    operator_id as int,
                    worker_id as int,
                    ),
            decreases n - i,
        {
            if self.entries[i].operator_id == operator_id && self.entries[i].worker_id
                == worker_id {
                return Some(i);
            }
            i = i + 1;
        }
        None
    }

    /// With unique keys, slot `i` is the one the key-indexed view denotes.
    proof fn lemma_get_at(self, i: int)
        requires
            self.wf(),
            0 <= i < self.entries@.len(),
        ensures
            self.spec_contains(self.key_at(i).0, self.key_at(i).1),
            self.spec_get(self.key_at(i).0, self.key_at(i).1) == self.entries@[i].state,
    {
        let (op, wk) = self.key_at(i);
        assert(self.spec_contains(op, wk));
        let j = choose|j: int| 0 <= j < self.entries@.len() && #[trigger] self.key_at(j) == (
        op,
        wk,
        );
        if j < i {
            assert(self.key_at(j) != self.key_at(i));
        } else if i < j {
            assert(self.key_at(i) != self.key_at(j));
        }
    }

    /// Register a fresh controller for this key, replacing any prior one
    /// (re-initialization, not merge).
    pub fn create(
        &mut self,
        operator_id: i32,
        worker_id: i32,
        plan_type: i32,
        optimizer_startup_cost: u64,
        optimizer_total_cost: u64,
        optimizer_plan_rows: u64,
        optimizer_plan_width: u64,
        hyp_row_fraction: Ratio,
        hyp_time_us: u64,
        hyp_stdev: Ratio,
    )
        requires
            old(self).wf(),
            hyp_row_fraction.wf(),
            hyp_stdev.wf(),
            hyp_stdev.num <= STDEV_SCALE_MAX,
            hyp_stdev.den <= STDEV_SCALE_MAX,
        ensures
            final(self).wf(),
            final(self).spec_contains(operator_id as int, worker_id as int),
            ({
                let c = final(self).spec_get(operator_id as int, worker_id as int);
                &&& c.plan_type == plan_type
                &&& c.optimizer_startup_cost == optimizer_startup_cost
                &&& c.optimizer_total_cost == optimizer_total_cost
                &&& c.optimizer_plan_rows == optimizer_plan_rows
                &&& c.optimizer_plan_width == optimizer_plan_width
                &&& c.hyp_row_fraction == hyp_row_fraction
                &&& c.hyp_time_us == hyp_time_us
                &&& c.hyp_stdev == hyp_stdev
                &&& c.time_us@ == Seq::<u64>::empty()
                &&& c.batch_sizes@ == Seq::<u64>::empty()
                &&& c.current_n_tuples == 0
            }),
            spec_frame_except(*old(self), *final(self), operator_id as int, worker_id as int),
    {
        let fresh = OperatorEntry {
            operator_id,
            worker_id,
            state: BatchConvergenceController::new(
                plan_type,
                optimizer_startup_cost,
                optimizer_total_cost,
                optimizer_plan_rows,
                optimizer_plan_width,
                hyp_row_fraction,
                hyp_time_us,
                hyp_stdev,
            ),
        };
        match self.find_index(operator_id, worker_id) {
            Some(i) => {
                self.entries.remove(i);
                self.entries.insert(i, fresh);
                proof {
                    assert(self.entries@ =~= old(self).entries@.update(
                        i as int,
                        self.entries@[i as int],
                    ));
                    lemma_frame_update(*old(self), *self, i as int);
                    self.lemma_get_at(i as int);
                }
            },
            None => {
                self.entries.push(fresh);
                proof {
                    lemma_frame_push(*old(self), *self);
                    self.lemma_get_at(self.entries@.len() - 1);
                }
            },
        }
    }

    /// Remove this key's controller; a no-op when the key is absent.
    pub fn destroy(&mut self, operator_id: i32, worker_id: i32)
        requires
            old(self).wf(),
        ensures
            final(self).wf(),
            !final(self).spec_contains(operator_id as int, worker_id as int),
            spec_frame_except(*old(self), *final(self), operator_id as int, worker_id as int),
    {
        match self.find_index(operator_id, worker_id) {
            Some(i) => {
                self.entries.remove(i);
                proof {
                    lemma_frame_remove(*old(self), *self, i as int);
                }
            },
            None => {},
        }
    }

    /// Forward a progress report to this key's controller; fails with
    /// `UnknownOperator`, touching nothing, when the key was never created.
    pub fn report_progress(
        &mut self,
        operator_id: i32,
        worker_id: i32,
        n_tuples: u64,
        accumulated_us: u64,
    ) -> (r: Result<ProgressSignal, CoreError>)
        requires
            old(self).wf(),
            accumulated_us <= BATCH_TIME_MAX_US,
        ensures
            final(self).wf(),
            !old(self).spec_contains(operator_id as int, worker_id as int) ==> r == Err::<
                ProgressSignal,
                CoreError,
            >(CoreError::UnknownOperator) && *final(self) == *old(self),
            old(self).spec_contains(operator_id as int, worker_id as int) ==> {
                &&& r is Ok
                &&& spec_report_rel(
                    old(self).spec_get(operator_id as int, worker_id as int),
                    n_tuples,
                    accumulated_us,
                    final(self).spec_get(operator_id as int, worker_id as int),
                    r->Ok_0,
                )
                &&& spec_frame_except(
                    *old(self),
                    *final(self),
                    operator_id as int,
                    worker_id as int,
                )
            },
    {
        match self.find_index(operator_id, worker_id) {
            None => Err(CoreError::UnknownOperator),
            Some(i) => {
                proof {
                    old(self).lemma_get_at(i as int);
                }
                let mut e = self.entries.remove(i);
                let sig = e.state.report_progress(n_tuples, accumulated_us);
                self.entries.insert(i, e);
                proof {
                    assert(self.entries@ =~= old(self).entries@.update(
                        i as int,
                        self.entries@[i as int],
                    ));
                    lemma_frame_update(*old(self), *self, i as int);
                    self.lemma_get_at(i as int);
                }
                Ok(sig)
            },
        }
    }
}

/// Replacing one slot while keeping its key leaves every other key's view of
/// the registry unchanged.
proof fn lemma_frame_update(pre: OperatorRegistry, post: OperatorRegistry, i: int)
    requires
        pre.wf(),
        0 <= i < pre.entries@.len(),
        post.entries@ == pre.entries@.update(i, post.entries@[i]),
        post.key_at(i) == pre.key_at(i),
        post.entries@[i].state.wf(),
    ensures
        post.wf(),
        forall|o: int, w: int|
            #![auto]
            !((o, w) == pre.key_at(i)) ==> (post.spec_contains(o, w) <==> pre.spec_contains(o, w))
                && (pre.spec_contains(o, w) ==> post.spec_get(o, w) == pre.spec_get(o, w)),
{
    assert(forall|j: int|
        0 <= j < post.entries@.len() ==> #[trigger] post.key_at(j) == pre.key_at(j));
    assert forall|j: int| 0 <= j < post.entries@.len() implies (#[trigger] post.entries@[j]).state.wf() by {
        if j != i {
            assert(post.entries@[j] == pre.entries@[j]);
        }
    }
    assert(post.wf());
    assert forall|o: int, w: int|
        #![auto]
        !((o, w) == pre.key_at(i)) && pre.spec_contains(o, w) implies post.spec_contains(o, w)
        && post.spec_get(o, w) == pre.spec_get(o, w) by {
        let j = choose|j: int| 0 <= j < pre.entries@.len() && #[trigger] pre.key_at(j) == (o, w);
        assert(post.key_at(j) == (o, w));
        pre.lemma_get_at(j);
        post.lemma_get_at(j);
    }
    assert forall|o: int, w: int|
        #![auto]
        !((o, w) == pre.key_at(i)) && post.spec_contains(o, w) implies pre.spec_contains(o, w) by {
        let j = choose|j: int| 0 <= j < post.entries@.len() && #[trigger] post.key_at(j) == (o, w);
        assert(pre.key_at(j) == (o, w));
    }
}

/// Appending a slot with a key not yet present leaves every other key's view
/// unchanged.
proof fn lemma_frame_push(pre: OperatorRegistry, post: OperatorRegistry)
    requires
        pre.wf(),
        post.entries@.len() == pre.entries@.len() + 1,
        post.entries@ == pre.entries@.push(post.entries@.last()),
        post.entries@.last().state.wf(),
        !pre.spec_contains(post.key_at(post.entries@.len() - 1).0, post.key_at(
            post.entries@.len() - 1,
        ).1),
    ensures
        post.wf(),
        forall|o: int, w: int|
            #![auto]
            !((o, w) == post.key_at(post.entries@.len() - 1)) ==> (post.spec_contains(o, w)
                <==> pre.spec_contains(o, w)) && (pre.spec_contains(o, w) ==> post.spec_get(o, w)
                == pre.spec_get(o, w)),
{
    let n = pre.entries@.len() as int;
    assert(forall|j: int| 0 <= j < n ==> #[trigger] post.key_at(j) == pre.key_at(j));
    assert forall|i: int, j: int| 0 <= i < j < post.entries@.len() implies #[trigger] post.key_at(
        i,
    ) != #[trigger] post.key_at(j) by {
        if j < n {
        } else {
            assert(post.key_at(i) == pre.key_at(i));
            if post.key_at(i) == post.key_at(j) {
                assert(pre.spec_contains(pre.key_at(i).0, pre.key_at(i).1));
            }
        }
    }
    assert forall|o: int, w: int|
        #![auto]
        !((o, w) == post.key_at(n)) && pre.spec_contains(o, w) implies post.spec_contains(o, w)
        && post.spec_get(o, w) == pre.spec_get(o, w) by {
        let j = choose|j: int| 0 <= j < pre.entries@.len() && #[trigger] pre.key_at(j) == (o, w);
        assert(post.key_at(j) == (o, w));
        pre.lemma_get_at(j);
        post.lemma_get_at(j);
    }
    assert forall|o: int, w: int|
        #![auto]
        !((o, w) == post.key_at(n)) && post.spec_contains(o, w) implies pre.spec_contains(o, w) by {
        let j = choose|j: int| 0 <= j < post.entries@.len() && #[trigger] post.key_at(j) == (o, w);
        assert(j < n);
        assert(pre.key_at(j) == (o, w));
    }
}

/// Removing one slot removes exactly its key from the registry's view.
proof fn lemma_frame_remove(pre: OperatorRegistry, post: OperatorRegistry, i: int)
    requires
        pre.wf(),
        0 <= i < pre.entries@.len(),
        post.entries@ == pre.entries@.remove(i),
    ensures
        post.wf(),
        !post.spec_contains(pre.key_at(i).0, pre.key_at(i).1),
        forall|o: int, w: int|
            #![auto]
            !((o, w) == pre.key_at(i)) ==> (post.spec_contains(o, w) <==> pre.spec_contains(o, w))
                && (pre.spec_contains(o, w) ==> post.spec_get(o, w) == pre.spec_get(o, w)),
{
    let n = pre.entries@.len() as int;
    assert(forall|j: int|
        0 <= j < i ==> #[trigger] post.key_at(j) == pre.key_at(j));
    assert(forall|j: int|
        i <= j < n - 1 ==> #[trigger] post.key_at(j) == pre.key_at(j + 1));
    assert forall|j: int| 0 <= j < n - 1 implies #[trigger] post.key_at(j) != pre.key_at(i) by {
        if j < i {
            assert(pre.key_at(j) != pre.key_at(i));
        } else {
            assert(pre.key_at(i) != pre.key_at(j + 1));
        }
    }
    assert forall|o: int, w: int|
        #![auto]
        !((o, w) == pre.key_at(i)) && pre.spec_contains(o, w) implies post.spec_contains(o, w)
        && post.spec_get(o, w) == pre.spec_get(o, w) by {
        let j = choose|j: int| 0 <= j < pre.entries@.len() && #[trigger] pre.key_at(j) == (o, w);
        if j < i {
            assert(post.key_at(j) == (o, w));
            pre.lemma_get_at(j);
            post.lemma_get_at(j);
        } else {
            assert(j != i);
            assert(post.key_at(j - 1) == (o, w));
            pre.lemma_get_at(j);
            post.lemma_get_at(j - 1);
        }
    }
    assert forall|o: int, w: int|
        #![auto]
        !((o, w) == pre.key_at(i)) && post.spec_contains(o, w) implies pre.spec_contains(o, w) by {
        let j = choose|j: int| 0 <= j < post.entries@.len() && #[trigger] post.key_at(j) == (o, w);
        if j < i {
            assert(pre.key_at(j) == (o, w));
        } else {
            assert(pre.key_at(j + 1) == (o, w));
        }
    }
}

} // verus!
