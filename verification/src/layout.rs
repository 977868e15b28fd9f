//! Core data model of a fetch plan: byte ranges, fetch tasks and the plan
//! that a scheduler executes.

use vstd::prelude::*;

verus! {

/// A half-open byte range `[start, end)` within one object.
#[derive(Clone, Copy, Debug, PartialEq, Eq, Structural)]
pub struct ByteRange {
    pub start: u64,
    pub end: u64,
}

impl ByteRange {
    /// Length of the range, as a mathematical integer.
    pub open spec fn spec_len(self) -> int {
        self.end - self.start
    }

    /// A range is valid for an object when it is non-empty, ordered and
    /// lies within `[0, object_size)`.
    pub open spec fn valid_for(self, object_size: u64) -> bool {
        self.start < self.end && self.end <= object_size
    }

    /// Number of bytes the range covers.
    pub fn len(&self) -> (r: u64)
        requires
            self.start <= self.end,
        ensures
            r == self.spec_len(),
    {
        self.end - self.start
    }
}

/// One unit of fetch work: a byte range of one object. Objects are
/// identified by their index in the resolved descriptor list.
#[derive(Clone, Copy, Debug, PartialEq, Eq, Structural)]
pub struct FetchTask {
    pub object: usize,
    pub range: ByteRange,
}

/// Sum of the range lengths of a task sequence.
pub open spec fn range_total(tasks: Seq<FetchTask>) -> int
    decreases tasks.len(),
{
    if tasks.len() == 0 {
        0
    } else {
        range_total(tasks.drop_last()) + tasks.last().range.spec_len()
    }
}

/// Appending one task adds exactly its range length to the total.
pub proof fn lemma_range_total_push(tasks: Seq<FetchTask>, t: FetchTask)
    ensures
        range_total(tasks.push(t)) == range_total(tasks) + t.range.spec_len(),
{
    assert(tasks.push(t).drop_last() =~= tasks);
}

/// The total of a concatenation is the sum of the totals.
pub proof fn lemma_range_total_concat(a: Seq<FetchTask>, b: Seq<FetchTask>)
    ensures
        range_total(a + b) == range_total(a) + range_total(b),
    decreases b.len(),
{
    if b.len() == 0 {
        assert(a + b =~= a);
    } else {
        lemma_range_total_concat(a, b.drop_last());
        assert((a + b).drop_last() =~= a + b.drop_last());
    }
}

/// An ordered sequence of fetch tasks together with the derived totals.
///
/// Tasks are grouped into admission units of `unit_len` consecutive tasks:
/// one block in the block pattern, one row-group (one page per column) in
/// the columnar pattern. A scheduler admits whole units.
#[derive(Debug)]
pub struct LayoutPlan {
    pub tasks: Vec<FetchTask>,
    /// Tasks per admission unit (1 for the block pattern, the number of
    /// columns for the columnar pattern).
    pub unit_len: usize,
    /// Number of admission units in the plan.
    pub unit_count: usize,
    /// Sum of all range lengths in the plan.
    pub total_bytes: u64,
    /// Number of objects the plan spans; every task's object index is
    /// below this.
    pub num_objects: usize,
    /// The uniform size of each object; every range lies within it.
    pub object_size: u64,
}

impl LayoutPlan {
    /// Structural well-formedness: units tile the task sequence, every
    /// task addresses a real object with a valid range, and the recorded
    /// total is the sum of the range lengths.
    pub open spec fn wf(self) -> bool {
        &&& self.unit_len >= 1
        &&& self.tasks@.len() == self.unit_count * self.unit_len
        &&& forall|k: int|
            0 <= k < self.tasks@.len() ==> (#[trigger] self.tasks@[k]).object < self.num_objects
                && self.tasks@[k].range.valid_for(self.object_size)
        &&& self.total_bytes == range_total(self.tasks@)
    }

    /// The task sequence of one admission unit.
    pub open spec fn unit_tasks(self, u: int) -> Seq<FetchTask> {
        self.tasks@.subrange(u * self.unit_len, (u + 1) * self.unit_len)
    }

    /// Bytes covered by one admission unit.
    pub open spec fn unit_bytes(self, u: int) -> int {
        range_total(self.unit_tasks(u))
    }

    /// Number of tasks in the plan.
    pub fn task_count(&self) -> (r: usize)
        ensures
            r == self.tasks@.len(),
    {
        self.tasks.len()
    }

    /// The task at a given index.
    pub fn task(&self, k: usize) -> (r: FetchTask)
        requires
            k < self.tasks@.len(),
        ensures
            r == self.tasks@[k as int],
    {
        self.tasks[k]
    }

    /// Task `j` of admission unit `u`.
    pub fn unit_task(&self, u: usize, j: usize) -> (r: FetchTask)
        requires
            self.wf(),
            u < self.unit_count,
            j < self.unit_len,
        ensures
            r == self.tasks@[u * self.unit_len + j],
            r == self.unit_tasks(u as int)[j as int],
    {
        let n = self.tasks.len();
        proof {
            assert(u * self.unit_len + j < self.tasks@.len() && 0 <= u * self.unit_len
                && (u + 1) * self.unit_len == u * self.unit_len + self.unit_len
                && (u + 1) * self.unit_len <= self.tasks@.len()) by (nonlinear_arith)
                requires
                    0 <= u < self.unit_count && 0 <= j < self.unit_len && self.tasks@.len()
                        == self.unit_count * self.unit_len;
            assert(self.tasks@.len() == n);
        }
        let k = u * self.unit_len + j;
        self.tasks[k]
    }
}

/// The totals of the units sum to the total of the whole plan.
pub proof fn lemma_units_cover_plan(plan: LayoutPlan)
    requires
        plan.wf(),
    ensures
        sum_unit_bytes(plan, plan.unit_count as int) == range_total(plan.tasks@),
{
    lemma_sum_unit_bytes_prefix(plan, plan.unit_count as int);
    assert(plan.tasks@.subrange(0, (plan.unit_count * plan.unit_len) as int) =~= plan.tasks@);
}

/// Sum of the bytes of the first `n` units of a plan.
pub open spec fn sum_unit_bytes(plan: LayoutPlan, n: int) -> int
    decreases n,
{
    if n <= 0 {
        0
    } else {
        sum_unit_bytes(plan, n - 1) + plan.unit_bytes(n - 1)
    }
}

proof fn lemma_sum_unit_bytes_prefix(plan: LayoutPlan, n: int)
    requires
        plan.wf(),
        0 <= n <= plan.unit_count,
    ensures
        sum_unit_bytes(plan, n) == range_total(plan.tasks@.subrange(0, n * plan.unit_len)),
    decreases n,
{
    if n == 0 {
        assert(plan.tasks@.subrange(0, 0) =~= Seq::<FetchTask>::empty());
    } else {
        lemma_sum_unit_bytes_prefix(plan, n - 1);
        let l = plan.unit_len as int;
        assert(n * l == (n - 1) * l + l) by (nonlinear_arith);
        assert((n - 1) * l >= 0 && n * l <= plan.unit_count * l) by (nonlinear_arith)
            requires 1 <= n <= plan.unit_count && l >= 1;
        lemma_range_total_concat(
            plan.tasks@.subrange(0, (n - 1) * l),
            plan.tasks@.subrange((n - 1) * l, n * l),
        );
        assert(plan.tasks@.subrange(0, (n - 1) * l) + plan.tasks@.subrange((n - 1) * l, n * l)
            =~= plan.tasks@.subrange(0, n * l));
    }
}

} // verus!
