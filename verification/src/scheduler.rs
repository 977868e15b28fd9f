//! The admission and aggregation state of the range-fetch scheduler.
//!
//! The scheduler executes a plan's admission units with at most
//! `max_concurrency` units in flight at once: a unit is admitted only when a
//! slot is free, completions may arrive in any order, byte counts are summed
//! as units complete, and one failed fetch makes the whole run fail. The
//! I/O itself happens outside; the caller drives this state machine by
//! admitting units, performing their fetches, and reporting each outcome.

use vstd::prelude::*;

use crate::error::BenchError;
use crate::layout::{LayoutPlan, lemma_units_cover_plan, sum_unit_bytes};

verus! {

/// The outcome of one range fetch: a byte count, or a failure.
#[derive(Clone, Copy, Debug, PartialEq, Eq, Structural)]
pub enum FetchOutcome {
    Bytes(u64),
    Failed,
}

/// Sum of the byte counts among the first `i` outcomes (failures count
/// zero bytes).
pub open spec fn outcomes_prefix_total(outcomes: Seq<FetchOutcome>, i: int) -> int
    decreases i,
{
    if i <= 0 {
        0
    } else {
        outcomes_prefix_total(outcomes, i - 1) + (match outcomes[i - 1] {
            FetchOutcome::Bytes(b) => b as int,
            FetchOutcome::Failed => 0,
        })
    }
}

/// Sum of the byte counts of all outcomes.
pub open spec fn outcomes_total(outcomes: Seq<FetchOutcome>) -> int {
    outcomes_prefix_total(outcomes, outcomes.len() as int)
}

proof fn lemma_outcomes_prefix_monotone(outcomes: Seq<FetchOutcome>, i1: int, i2: int)
    requires
        0 <= i1 <= i2,
    ensures
        outcomes_prefix_total(outcomes, i1) <= outcomes_prefix_total(outcomes, i2),
    decreases i2,
{
    if i2 > i1 {
        lemma_outcomes_prefix_monotone(outcomes, i1, i2 - 1);
    }
}

/// Folds the outcomes of one row-group fetch into the unit's result: the
/// sum of the byte counts if every page fetch succeeded, or the failure.
pub fn aggregate_outcomes(outcomes: &Vec<FetchOutcome>) -> (r: Result<u64, BenchError>)
    requires
        outcomes_total(outcomes@) <= u64::MAX,
    ensures
        (r is Ok) <==> (forall|i: int|
            0 <= i < outcomes@.len() ==> (#[trigger] outcomes@[i]) is Bytes),
        r is Ok ==> r->Ok_0 == outcomes_total(outcomes@),
        r is Err ==> r == Result::<u64, BenchError>::Err(BenchError::FetchFailure),
{
    let mut total: u64 = 0;
    let mut i: usize = 0;
    while i < outcomes.len()
        invariant
            outcomes_total(outcomes@) <= u64::MAX,
            0 <= i <= outcomes@.len(),
            total == outcomes_prefix_total(outcomes@, i as int),
            forall|j: int| 0 <= j < i ==> (#[trigger] outcomes@[j]) is Bytes,
        decreases outcomes@.len() - i,
    {
        match outcomes[i] {
            FetchOutcome::Bytes(b) => {
                proof {
                    lemma_outcomes_prefix_monotone(outcomes@, i as int + 1, outcomes@.len() as int);
                }
                total = total + b;
            },
            FetchOutcome::Failed => {
                return Err(BenchError::FetchFailure);
            },
        }
        i = i + 1;
    }
    Ok(total)
}

/// Sum of the reported byte counts of the completed units among the first
/// `n` units.
pub open spec fn sum_reports(n: int, completed: Set<int>, reports: Map<int, int>) -> int
    decreases n,
{
    if n <= 0 {
        0
    } else {
        sum_reports(n - 1, completed, reports) + (if completed.contains(n - 1) {
            reports[n - 1]
        } else {
            0
        })
    }
}

proof fn lemma_sum_reports_agree(
    n: int,
    c1: Set<int>,
    r1: Map<int, int>,
    c2: Set<int>,
    r2: Map<int, int>,
)
    requires
        forall|i: int|
            0 <= i < n ==> (c1.contains(i) == c2.contains(i) && (c1.contains(i) ==> r1[i]
                == r2[i])),
    ensures
        sum_reports(n, c1, r1) == sum_reports(n, c2, r2),
    decreases n,
{
    if n > 0 {
        lemma_sum_reports_agree(n - 1, c1, r1, c2, r2);
    }
}

proof fn lemma_sum_reports_empty(n: int, reports: Map<int, int>)
    ensures
        sum_reports(n, Set::<int>::empty(), reports) == 0,
    decreases n,
{
    if n > 0 {
        lemma_sum_reports_empty(n - 1, reports);
    }
}

proof fn lemma_sum_reports_insert(
    n: int,
    completed: Set<int>,
    reports: Map<int, int>,
    u: int,
    b: int,
)
    requires
        0 <= u < n,
        !completed.contains(u),
    ensures
        sum_reports(n, completed.insert(u), reports.insert(u, b)) == sum_reports(
            n,
            completed,
            reports,
        ) + b,
    decreases n,
{
    if u == n - 1 {
        assert forall|i: int| 0 <= i < n - 1 implies (completed.insert(u).contains(i)
            == completed.contains(i) && (completed.contains(i) ==> reports.insert(u, b)[i]
            == reports[i])) by {}
        lemma_sum_reports_agree(n - 1, completed.insert(u), reports.insert(u, b), completed, reports);
    } else {
        lemma_sum_reports_insert(n - 1, completed, reports, u, b);
    }
}

/// The scheduler's state: which units have been admitted, which are in
/// flight, which completed, and the running byte total. The caller admits a
/// unit only when `can_admit` allows it, so at most `max_concurrency` units
/// are ever outstanding.
pub struct Scheduler {
    pub plan: LayoutPlan,
    pub max_concurrency: usize,
    /// Index of the next unit to admit; units are admitted in plan order.
    pub next_unit: usize,
    /// Number of admitted, not yet completed units.
    pub in_flight_count: usize,
    /// Sum of the byte counts reported for completed units.
    pub total_bytes: u64,
    /// Whether any unit has failed; terminal for the run.
    pub failed: bool,
    /// The set of admitted, not yet completed unit indices.
    pub in_flight: Ghost<Set<int>>,
    /// The set of completed unit indices.
    pub completed: Ghost<Set<int>>,
    /// The byte count reported for each completed unit.
    pub reports: Ghost<Map<int, int>>,
}

impl Scheduler {
    /// The scheduler's invariant. In particular: the in-flight units never
    /// outnumber `max_concurrency`, every admitted unit is either in flight
    /// or completed (until a failure ends the accounting), and the byte
    /// total is exactly the sum of the completed units' reports.
    pub open spec fn wf(self) -> bool {
        &&& self.plan.wf()
        &&& self.max_concurrency >= 1
        &&& self.next_unit <= self.plan.unit_count
        &&& self.in_flight@.finite()
        &&& self.completed@.finite()
        &&& forall|u: int| self.in_flight@.contains(u) ==> 0 <= u < self.next_unit
        &&& forall|u: int| self.completed@.contains(u) ==> 0 <= u < self.next_unit
        &&& forall|u: int| self.in_flight@.contains(u) ==> !self.completed@.contains(u)
        &&& (!self.failed ==> forall|u: int|
            0 <= u < self.next_unit ==> self.in_flight@.contains(u) || self.completed@.contains(
                u,
            ))
        &&& self.in_flight_count == self.in_flight@.len()
        &&& self.in_flight_count <= self.max_concurrency
        &&& self.total_bytes == sum_reports(
            self.plan.unit_count as int,
            self.completed@,
            self.reports@,
        )
    }

    /// A fresh scheduler over a plan, with no unit admitted yet.
    pub fn new(plan: LayoutPlan, max_concurrency: usize) -> (s: Scheduler)
        requires
            plan.wf(),
            max_concurrency >= 1,
        ensures
            s.wf(),
            s.plan == plan,
            s.max_concurrency == max_concurrency,
            s.next_unit == 0,
            s.in_flight_count == 0,
            s.total_bytes == 0,
            !s.failed,
            s.completed@ == Set::<int>::empty(),
            s.in_flight@ == Set::<int>::empty(),
    {
        proof {
            lemma_sum_reports_empty(plan.unit_count as int, Map::<int, int>::empty());
        }
        Scheduler {
            plan,
            max_concurrency,
            next_unit: 0,
            in_flight_count: 0,
            total_bytes: 0,
            failed: false,
            in_flight: Ghost(Set::empty()),
            completed: Ghost(Set::empty()),
            reports: Ghost(Map::empty()),
        }
    }

    /// Whether another unit may be admitted now: the plan is not exhausted,
    /// a concurrency slot is free, and no failure has been seen.
    pub fn can_admit(&self) -> (r: bool)
        ensures
            r == (self.next_unit < self.plan.unit_count && self.in_flight_count
                < self.max_concurrency && !self.failed),
    {
        self.next_unit < self.plan.unit_count && self.in_flight_count < self.max_concurrency
            && !self.failed
    }

    /// Admits the next unit, occupying one concurrency slot, and returns
    /// its index.
    pub fn admit_next(&mut self) -> (u: usize)
        requires
            old(self).wf(),
            old(self).next_unit < old(self).plan.unit_count,
            old(self).in_flight_count < old(self).max_concurrency,
            !old(self).failed,
        ensures
            final(self).wf(),
            u == old(self).next_unit,
            final(self).next_unit == old(self).next_unit + 1,
            final(self).in_flight@ == old(self).in_flight@.insert(u as int),
            final(self).in_flight_count == old(self).in_flight_count + 1,
            final(self).completed@ == old(self).completed@,
            final(self).reports@ == old(self).reports@,
            final(self).total_bytes == old(self).total_bytes,
            final(self).failed == old(self).failed,
            final(self).plan == old(self).plan,
            final(self).max_concurrency == old(self).max_concurrency,
    {
        let u = self.next_unit;
        proof {
            assert(!self.in_flight@.contains(u as int));
            vstd::set::axiom_set_insert_len(self.in_flight@, u as int);
        }
        self.next_unit = u + 1;
        self.in_flight_count = self.in_flight_count + 1;
        self.in_flight = Ghost(self.in_flight@.insert(u as int));
        u
    }

    /// Records the successful completion of an in-flight unit with its byte
    /// count, freeing its slot. Completions may arrive in any order.
    pub fn complete_ok(&mut self, u: usize, bytes: u64)
        requires
            old(self).wf(),
            old(self).in_flight@.contains(u as int),
            old(self).total_bytes + bytes <= u64::MAX,
        ensures
            final(self).wf(),
            final(self).total_bytes == old(self).total_bytes + bytes,
            final(self).in_flight@ == old(self).in_flight@.remove(u as int),
            final(self).in_flight_count == old(self).in_flight_count - 1,
            final(self).completed@ == old(self).completed@.insert(u as int),
            final(self).reports@ == old(self).reports@.insert(u as int, bytes as int),
            final(self).next_unit == old(self).next_unit,
            final(self).failed == old(self).failed,
            final(self).plan == old(self).plan,
            final(self).max_concurrency == old(self).max_concurrency,
    {
        proof {
            vstd::set::axiom_set_remove_len(self.in_flight@, u as int);
            vstd::set::axiom_set_contains_len(self.in_flight@, u as int);
            assert(!self.completed@.contains(u as int));
            lemma_sum_reports_insert(
                self.plan.unit_count as int,
                self.completed@,
                self.reports@,
                u as int,
                bytes as int,
            );
        }
        self.total_bytes = self.total_bytes + bytes;
        self.in_flight_count = self.in_flight_count - 1;
        self.in_flight = Ghost(self.in_flight@.remove(u as int));
        self.completed = Ghost(self.completed@.insert(u as int));
        self.reports = Ghost(self.reports@.insert(u as int, bytes as int));
    }

    /// Records the failure of an in-flight unit, freeing its slot and
    /// marking the whole run failed. Already admitted units may still
    /// complete; their bytes are no longer owed to the caller.
    pub fn complete_failed(&mut self, u: usize)
        requires
            old(self).wf(),
            old(self).in_flight@.contains(u as int),
        ensures
            final(self).wf(),
            final(self).failed,
            final(self).in_flight@ == old(self).in_flight@.remove(u as int),
            final(self).in_flight_count == old(self).in_flight_count - 1,
            final(self).completed@ == old(self).completed@,
            final(self).reports@ == old(self).reports@,
            final(self).total_bytes == old(self).total_bytes,
            final(self).next_unit == old(self).next_unit,
            final(self).plan == old(self).plan,
            final(self).max_concurrency == old(self).max_concurrency,
    {
        proof {
            vstd::set::axiom_set_remove_len(self.in_flight@, u as int);
            vstd::set::axiom_set_contains_len(self.in_flight@, u as int);
        }
        self.failed = true;
        self.in_flight_count = self.in_flight_count - 1;
        self.in_flight = Ghost(self.in_flight@.remove(u as int));
    }

    /// The run's outcome, once no unit is in flight and either the plan is
    /// exhausted or a failure ended admission: the aggregate byte count on
    /// success, the fetch failure otherwise. Bytes of units completed after
    /// a failure are not double-counted into a successful-looking result.
    pub fn result(&self) -> (r: Result<u64, BenchError>)
        requires
            self.wf(),
            self.in_flight_count == 0,
            self.failed || self.next_unit == self.plan.unit_count,
        ensures
            self.failed ==> r == Result::<u64, BenchError>::Err(BenchError::FetchFailure),
            !self.failed ==> r == Result::<u64, BenchError>::Ok(self.total_bytes),
    {
        if self.failed {
            Err(BenchError::FetchFailure)
        } else {
            Ok(self.total_bytes)
        }
    }
}

/// At most `max_concurrency` units are ever outstanding: the in-flight set
/// of a well-formed scheduler never outgrows the window.
pub proof fn lemma_bounded_concurrency(s: Scheduler)
    requires
        s.wf(),
    ensures
        s.in_flight@.len() <= s.max_concurrency,
{
}

proof fn lemma_sum_reports_eq_units(
    plan: LayoutPlan,
    n: int,
    completed: Set<int>,
    reports: Map<int, int>,
)
    requires
        forall|u: int|
            0 <= u < n ==> completed.contains(u) && reports[u] == plan.unit_bytes(u),
    ensures
        sum_reports(n, completed, reports) == sum_unit_bytes(plan, n),
    decreases n,
{
    if n > 0 {
        lemma_sum_reports_eq_units(plan, n - 1, completed, reports);
    }
}

/// When a run completes with every unit reporting exactly the bytes its
/// ranges cover, the aggregate equals the plan's total — whatever order the
/// completions arrived in.
pub proof fn lemma_total_is_plan_total(s: Scheduler)
    requires
        s.wf(),
        !s.failed,
        s.in_flight_count == 0,
        s.next_unit == s.plan.unit_count,
        forall|u: int|
            s.completed@.contains(u) ==> s.reports@[u] == s.plan.unit_bytes(u),
    ensures
        s.total_bytes == s.plan.total_bytes,
{
    let n = s.plan.unit_count as int;
    s.in_flight@.lemma_len0_is_empty();
    assert forall|u: int| 0 <= u < n implies s.completed@.contains(u) && s.reports@[u]
        == s.plan.unit_bytes(u) by {
        assert(s.in_flight@.contains(u) || s.completed@.contains(u));
        assert(!s.in_flight@.contains(u));
    }
    lemma_sum_reports_eq_units(s.plan, n, s.completed@, s.reports@);
    lemma_units_cover_plan(s.plan);
}

} // verus!
