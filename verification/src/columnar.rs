//! The columnar pattern: an object is treated as a striped layout of
//! repeating groups, each group holding one fixed-size page per column,
//! back to back. One fetch task covers one page; the tasks of one group and
//! one object form one admission unit (a "row-group fetch").

use vstd::prelude::*;
use vstd::arithmetic::div_mod::{
    lemma_fundamental_div_mod, lemma_fundamental_div_mod_converse, lemma_mod_bound,
};

use crate::error::BenchError;
use crate::layout::{ByteRange, FetchTask, LayoutPlan, range_total, lemma_range_total_push};

verus! {

/// Sum of the first `c` page sizes: the offset of column `c` within a group.
pub open spec fn page_prefix_sum(pages: Seq<u64>, c: int) -> int
    decreases c,
{
    if c <= 0 {
        0
    } else {
        page_prefix_sum(pages, c - 1) + pages[c - 1]
    }
}

/// Total size of one group: the sum of all page sizes.
pub open spec fn spec_group_size(pages: Seq<u64>) -> int {
    page_prefix_sum(pages, pages.len() as int)
}

/// Prefix sums of page sizes never decrease.
pub proof fn lemma_prefix_sum_monotone(pages: Seq<u64>, c1: int, c2: int)
    requires
        0 <= c1 <= c2,
    ensures
        page_prefix_sum(pages, c1) <= page_prefix_sum(pages, c2),
    decreases c2,
{
    if c2 > c1 {
        lemma_prefix_sum_monotone(pages, c1, c2 - 1);
    }
}

/// Number of whole groups that fit in the object.
pub open spec fn spec_num_groups(object_size: u64, pages: Seq<u64>) -> int {
    object_size as int / spec_group_size(pages)
}

/// Task `k` of a columnar plan: groups are emitted in order; within one
/// group index the row-group fetches fan out across the objects in order;
/// within one row-group the pages follow the column order. The page of
/// column `c` in group `g` covers
/// `[g * group_size + prefix(c), g * group_size + prefix(c + 1))`.
pub open spec fn spec_columnar_task(
    k: int,
    num_objects: usize,
    pages: Seq<u64>,
    object_size: u64,
) -> FetchTask {
    let ncol = pages.len() as int;
    let per_group = num_objects * ncol;
    let g = k / per_group;
    let rem = k % per_group;
    let obj = rem / ncol;
    let c = rem % ncol;
    let start = g * spec_group_size(pages) + page_prefix_sum(pages, c);
    FetchTask {
        object: obj as usize,
        range: ByteRange { start: start as u64, end: (start + pages[c]) as u64 },
    }
}

/// What `columnar_plan` promises of a successful plan.
pub open spec fn is_columnar_plan(
    plan: LayoutPlan,
    object_size: u64,
    num_objects: usize,
    pages: Seq<u64>,
) -> bool {
    &&& plan.wf()
    &&& plan.num_objects == num_objects
    &&& plan.object_size == object_size
    &&& plan.unit_len == pages.len()
    &&& plan.unit_count == num_objects * spec_num_groups(object_size, pages)
    &&& plan.tasks@.len() == num_objects * spec_num_groups(object_size, pages) * pages.len()
    &&& forall|k: int| 0 <= k < plan.tasks@.len()
            ==> #[trigger] plan.tasks@[k] == spec_columnar_task(k, num_objects, pages, object_size)
    &&& plan.total_bytes == num_objects * spec_num_groups(object_size, pages) * spec_group_size(
        pages,
    )
}

/// Decomposition of a columnar task index into group, object and column.
proof fn lemma_columnar_decompose(k: int, nobj: int, ncol: int, bound_g: int)
    requires
        nobj >= 1,
        ncol >= 1,
        bound_g >= 0,
        0 <= k < bound_g * (nobj * ncol),
    ensures
        ({
            let pg = nobj * ncol;
            let g = k / pg;
            let rem = k % pg;
            let o = rem / ncol;
            let c = rem % ncol;
            &&& 0 <= g < bound_g
            &&& 0 <= o < nobj
            &&& 0 <= c < ncol
            &&& k == g * pg + o * ncol + c
            &&& rem == o * ncol + c
        }),
{
    let pg = nobj * ncol;
    assert(pg >= 1) by (nonlinear_arith)
        requires nobj >= 1 && ncol >= 1 && pg == nobj * ncol;
    lemma_fundamental_div_mod(k, pg);
    lemma_mod_bound(k, pg);
    let g = k / pg;
    let rem = k % pg;
    lemma_fundamental_div_mod(rem, ncol);
    lemma_mod_bound(rem, ncol);
    let o = rem / ncol;
    let c = rem % ncol;
    assert(0 <= g < bound_g) by (nonlinear_arith)
        requires
            k == pg * g + rem && 0 <= rem < pg && 0 <= k < bound_g * pg && pg >= 1;
    assert(0 <= o < nobj) by (nonlinear_arith)
        requires
            rem == ncol * o + c && 0 <= c < ncol && 0 <= rem < pg && ncol >= 1 && pg == nobj
                * ncol;
    assert(k == g * pg + o * ncol + c && rem == o * ncol + c) by (nonlinear_arith)
        requires k == pg * g + rem && rem == ncol * o + c;
}

/// Shared context facts of a non-empty columnar plan: a positive group
/// size, at least one group, and whole groups fitting inside the object.
proof fn lemma_columnar_plan_facts(
    plan: LayoutPlan,
    object_size: u64,
    num_objects: usize,
    pages: Seq<u64>,
)
    requires
        is_columnar_plan(plan, object_size, num_objects, pages),
        num_objects >= 1,
        pages.len() >= 1,
        forall|i: int| 0 <= i < pages.len() ==> pages[i] >= 1,
        plan.tasks@.len() > 0,
    ensures
        spec_group_size(pages) >= 1,
        spec_num_groups(object_size, pages) >= 1,
        spec_num_groups(object_size, pages) * spec_group_size(pages) <= object_size,
        plan.tasks@.len() == spec_num_groups(object_size, pages) * (num_objects as int
            * pages.len() as int),
{
    let ncol = pages.len() as int;
    let nobj = num_objects as int;
    let gs = spec_group_size(pages);
    let ng = spec_num_groups(object_size, pages);
    let os = object_size as int;
    lemma_prefix_sum_monotone(pages, 1, ncol);
    assert(page_prefix_sum(pages, 0) == 0);
    assert(page_prefix_sum(pages, 1) == pages[0]);
    assert(gs >= 1);
    lemma_fundamental_div_mod(os, gs);
    lemma_mod_bound(os, gs);
    assert(ng * gs <= os) by (nonlinear_arith)
        requires os == gs * ng + os % gs && os % gs >= 0;
    assert(ng >= 1) by (nonlinear_arith)
        requires
            plan.tasks@.len() > 0 && plan.tasks@.len() == nobj * ng * ncol && nobj >= 1 && ncol
                >= 1 && os == gs * ng + os % gs && 0 <= os % gs;
    assert(nobj * ng * ncol == ng * (nobj * ncol)) by (nonlinear_arith);
}

/// Tasks of a columnar plan that address the same object have strictly
/// increasing, non-overlapping ranges: the earlier task's range ends at or
/// before the later one starts.
pub proof fn lemma_columnar_plan_object_disjoint(
    plan: LayoutPlan,
    object_size: u64,
    num_objects: usize,
    pages: Seq<u64>,
    k1: int,
    k2: int,
)
    requires
        is_columnar_plan(plan, object_size, num_objects, pages),
        num_objects >= 1,
        pages.len() >= 1,
        forall|i: int| 0 <= i < pages.len() ==> pages[i] >= 1,
        0 <= k1 < k2 < plan.tasks@.len(),
        plan.tasks@[k1].object == plan.tasks@[k2].object,
    ensures
        plan.tasks@[k1].range.start < plan.tasks@[k2].range.start,
        plan.tasks@[k1].range.end <= plan.tasks@[k2].range.start,
{
    let ncol = pages.len() as int;
    let nobj = num_objects as int;
    let pg = nobj * ncol;
    let gs = spec_group_size(pages);
    let ng = spec_num_groups(object_size, pages);
    let os = object_size as int;
    lemma_columnar_plan_facts(plan, object_size, num_objects, pages);
    lemma_columnar_decompose(k1, nobj, ncol, ng);
    lemma_columnar_decompose(k2, nobj, ncol, ng);
    let g1 = k1 / pg;
    let c1 = (k1 % pg) % ncol;
    let g2 = k2 / pg;
    let c2 = (k2 % pg) % ncol;
    let o1 = (k1 % pg) / ncol;
    let o2 = (k2 % pg) / ncol;
    assert(plan.tasks@[k1] == spec_columnar_task(k1, num_objects, pages, object_size));
    assert(plan.tasks@[k2] == spec_columnar_task(k2, num_objects, pages, object_size));
    assert(o1 == o2);
    // Task order within one object follows (group, column) lexicographically.
    if g1 != g2 {
        assert(g1 < g2) by (nonlinear_arith)
            requires
                k1 == g1 * pg + o1 * ncol + c1 && k2 == g2 * pg + o2 * ncol + c2 && o1 == o2
                    && 0 <= c1 < ncol && 0 <= c2 < ncol && ncol >= 1 && nobj >= 1 && pg == nobj
                    * ncol && k1 < k2 && g1 != g2;
    } else {
        assert(c1 < c2);
    }
    lemma_prefix_sum_monotone(pages, c1 + 1, ncol);
    lemma_prefix_sum_monotone(pages, c2 + 1, ncol);
    lemma_prefix_sum_monotone(pages, 0, c1);
    lemma_prefix_sum_monotone(pages, 0, c2);
    assert(page_prefix_sum(pages, 0) == 0);
    assert(page_prefix_sum(pages, c1 + 1) == page_prefix_sum(pages, c1) + pages[c1]);
    assert(page_prefix_sum(pages, c2 + 1) == page_prefix_sum(pages, c2) + pages[c2]);
    let start1 = g1 * gs + page_prefix_sum(pages, c1);
    let end1 = start1 + pages[c1];
    let start2 = g2 * gs + page_prefix_sum(pages, c2);
    // All offsets stay within [0, object_size], so the machine values match
    // the mathematical ones.
    assert(0 <= g1 * gs && g1 * gs + gs <= ng * gs && 0 <= g2 * gs && g2 * gs + gs <= ng * gs)
        by (nonlinear_arith)
        requires 0 <= g1 < ng && 0 <= g2 < ng && gs >= 1;
    assert(end1 <= g1 * gs + gs <= os);
    assert(start2 <= g2 * gs + gs <= os);
    if g1 < g2 {
        assert(g1 * gs + gs <= g2 * gs) by (nonlinear_arith)
            requires g1 < g2 && gs >= 1;
        assert(end1 <= start2);
    } else {
        lemma_prefix_sum_monotone(pages, c1 + 1, c2);
        assert(end1 <= start2);
    }
    assert(plan.tasks@[k1].range.end == end1);
    assert(plan.tasks@[k2].range.start == start2);
    assert(plan.tasks@[k1].range.start == start1);
}

/// One row-group fetch covers exactly one group's bytes: its pages abut
/// back to back, the first starting at the group's start and the last
/// ending one whole group later, so the union of its ranges has total
/// length exactly `group_size`.
pub proof fn lemma_columnar_unit_contiguous(
    plan: LayoutPlan,
    object_size: u64,
    num_objects: usize,
    pages: Seq<u64>,
    u: int,
)
    requires
        is_columnar_plan(plan, object_size, num_objects, pages),
        num_objects >= 1,
        pages.len() >= 1,
        forall|i: int| 0 <= i < pages.len() ==> pages[i] >= 1,
        0 <= u < plan.unit_count,
    ensures
        forall|c: int|
            0 <= c < pages.len() - 1 ==> (#[trigger] plan.tasks@[u * pages.len() + c]).range.end
                == plan.tasks@[u * pages.len() + c + 1].range.start,
        plan.tasks@[u * pages.len()].range.start == (u / num_objects as int) * spec_group_size(
            pages,
        ),
        plan.tasks@[u * pages.len() + pages.len() - 1].range.end == (u / num_objects as int)
            * spec_group_size(pages) + spec_group_size(pages),
        plan.unit_bytes(u) == spec_group_size(pages),
{
    let ncol = pages.len() as int;
    let nobj = num_objects as int;
    let gs = spec_group_size(pages);
    let ng = spec_num_groups(object_size, pages);
    assert(plan.tasks@.len() == (plan.unit_count as int) * ncol) by (nonlinear_arith)
        requires
            plan.tasks@.len() == nobj * ng * ncol && plan.unit_count == nobj * ng;
    assert(0 <= u * ncol && u * ncol + ncol <= plan.tasks@.len()) by (nonlinear_arith)
        requires
            0 <= u < plan.unit_count && plan.tasks@.len() == (plan.unit_count as int) * ncol
                && ncol >= 1;
    assert(plan.tasks@.len() > 0);
    lemma_columnar_plan_facts(plan, object_size, num_objects, pages);
    lemma_fundamental_div_mod(u, nobj);
    lemma_mod_bound(u, nobj);
    let g = u / nobj;
    let o = u % nobj;
    assert(0 <= g < ng) by (nonlinear_arith)
        requires
            u == nobj * g + o && 0 <= o < nobj && 0 <= u && u < nobj * ng && nobj >= 1;
    assert forall|cc: int|
        0 <= cc < ncol implies (#[trigger] plan.tasks@[u * ncol + cc]).range.start == g * gs
            + page_prefix_sum(pages, cc) && plan.tasks@[u * ncol + cc].range.end == g * gs
            + page_prefix_sum(pages, cc + 1) by {
        let k = u * ncol + cc;
        assert(k == g * (nobj * ncol) + o * ncol + cc) by (nonlinear_arith)
            requires u == nobj * g + o && k == u * ncol + cc;
        assert(0 <= k < plan.tasks@.len()) by (nonlinear_arith)
            requires
                k == u * ncol + cc && 0 <= u < plan.unit_count && 0 <= cc < ncol
                    && plan.tasks@.len() == (plan.unit_count as int) * ncol;
        assert(k == (nobj * ncol) * g + (o * ncol + cc)) by (nonlinear_arith)
            requires k == g * (nobj * ncol) + o * ncol + cc;
        assert(0 <= o * ncol + cc < nobj * ncol) by (nonlinear_arith)
            requires 0 <= o < nobj && 0 <= cc < ncol;
        lemma_fundamental_div_mod_converse(k, nobj * ncol, g, o * ncol + cc);
        assert(o * ncol + cc == ncol * o + cc) by (nonlinear_arith);
        lemma_fundamental_div_mod_converse(o * ncol + cc, ncol, o, cc);
        assert(plan.tasks@[k] == spec_columnar_task(k, num_objects, pages, object_size));
        assert(page_prefix_sum(pages, cc + 1) == page_prefix_sum(pages, cc) + pages[cc]);
        lemma_prefix_sum_monotone(pages, cc + 1, ncol);
        lemma_prefix_sum_monotone(pages, 0, cc);
        assert(page_prefix_sum(pages, 0) == 0);
        assert(0 <= g * gs && g * gs + gs <= ng * gs) by (nonlinear_arith)
            requires 0 <= g < ng && gs >= 1;
        assert(ng * gs <= object_size);
    }
    assert forall|c: int|
        0 <= c < pages.len() - 1 implies (#[trigger] plan.tasks@[u * pages.len() + c]).range.end
            == plan.tasks@[u * pages.len() + c + 1].range.start by {
        assert(plan.tasks@[u * ncol + c].range.end == g * gs + page_prefix_sum(pages, c + 1));
        assert(plan.tasks@[u * ncol + (c + 1)].range.start == g * gs + page_prefix_sum(
            pages,
            c + 1,
        ));
        assert(u * pages.len() + c + 1 == u * ncol + (c + 1));
    }
    assert(plan.tasks@[u * ncol + 0].range.start == g * gs + page_prefix_sum(pages, 0));
    assert(page_prefix_sum(pages, 0) == 0);
    assert(u * pages.len() == u * ncol + 0);
    assert(plan.tasks@[u * ncol + (ncol - 1)].range.end == g * gs + page_prefix_sum(pages, ncol));
    assert(u * pages.len() + pages.len() - 1 == u * ncol + (ncol - 1));
    lemma_unit_prefix_total(plan, object_size, num_objects, pages, u, g, ncol);
    let ul = plan.unit_len as int;
    assert(ul == ncol);
    assert((u + 1) * ul == u * ul + ul) by (nonlinear_arith);
    assert(plan.unit_tasks(u) =~= plan.tasks@.subrange(u * ncol, u * ncol + ncol));
}

/// The first `c` tasks of row-group unit `u` cover `prefix(c)` bytes.
proof fn lemma_unit_prefix_total(
    plan: LayoutPlan,
    object_size: u64,
    num_objects: usize,
    pages: Seq<u64>,
    u: int,
    g: int,
    c: int,
)
    requires
        is_columnar_plan(plan, object_size, num_objects, pages),
        0 <= u < plan.unit_count,
        0 <= c <= pages.len(),
        forall|cc: int|
            0 <= cc < pages.len() ==> (#[trigger] plan.tasks@[u * pages.len() + cc]).range.start
                == g * spec_group_size(pages) + page_prefix_sum(pages, cc)
                && plan.tasks@[u * pages.len() + cc].range.end == g * spec_group_size(pages)
                + page_prefix_sum(pages, cc + 1),
        0 <= u * pages.len(),
        u * pages.len() + pages.len() <= plan.tasks@.len(),
    ensures
        range_total(plan.tasks@.subrange(u * pages.len() as int, u * pages.len() + c))
            == page_prefix_sum(pages, c),
    decreases c,
{
    let ncol = pages.len() as int;
    if c == 0 {
        assert(plan.tasks@.subrange(u * ncol, u * ncol) =~= Seq::<FetchTask>::empty());
    } else {
        lemma_unit_prefix_total(plan, object_size, num_objects, pages, u, g, c - 1);
        let s = plan.tasks@.subrange(u * ncol, u * ncol + c);
        assert(s.drop_last() =~= plan.tasks@.subrange(u * ncol, u * ncol + c - 1));
        assert(s.last() == plan.tasks@[u * ncol + c - 1]);
        assert(plan.tasks@[u * pages.len() + (c - 1)].range.start == g * spec_group_size(pages)
            + page_prefix_sum(pages, c - 1));
        assert(u * pages.len() + (c - 1) == u * ncol + c - 1);
        assert(page_prefix_sum(pages, c) == page_prefix_sum(pages, c - 1) + pages[c - 1]);
    }
}

/// Planning is deterministic: two columnar plans built for identical inputs
/// hold identical ordered task sequences and identical totals.
pub proof fn lemma_columnar_plan_deterministic(
    p1: LayoutPlan,
    p2: LayoutPlan,
    object_size: u64,
    num_objects: usize,
    pages: Seq<u64>,
)
    requires
        is_columnar_plan(p1, object_size, num_objects, pages),
        is_columnar_plan(p2, object_size, num_objects, pages),
    ensures
        p1.tasks@ == p2.tasks@,
        p1.total_bytes == p2.total_bytes,
        p1.unit_count == p2.unit_count,
        p1.unit_len == p2.unit_len,
{
    assert forall|k: int| 0 <= k < p1.tasks@.len() implies p1.tasks@[k] == p2.tasks@[k] by {
        assert(p1.tasks@[k] == spec_columnar_task(k, num_objects, pages, object_size));
        assert(p2.tasks@[k] == spec_columnar_task(k, num_objects, pages, object_size));
    }
    assert(p1.tasks@ =~= p2.tasks@);
}

/// For each column, the ordered sequence of its page offsets, one per
/// group: entry `g` of column `c` is `g * group_size + prefix(c)`. This
/// precomputes the striped layout so a group's fetch set can be assembled
/// without recomputing prefix sums.
pub fn column_offsets(page_sizes: &Vec<u64>, num_groups: usize, group_size: u64) -> (r: Vec<
    Vec<u64>,
>)
    requires
        group_size == spec_group_size(page_sizes@),
        num_groups * group_size <= u64::MAX,
    ensures
        r@.len() == page_sizes@.len(),
        forall|c: int| 0 <= c < r@.len() ==> (#[trigger] r@[c])@.len() == num_groups,
        forall|c: int, g: int|
            0 <= c < r@.len() && 0 <= g < num_groups ==> #[trigger] r@[c]@[g] == g * group_size
                + page_prefix_sum(page_sizes@, c),
{
    let ghost gs = group_size as int;
    let ghost ng = num_groups as int;
    let mut r: Vec<Vec<u64>> = Vec::new();
    let mut col_start: u64 = 0;
    let mut c: usize = 0;
    while c < page_sizes.len()
        invariant
            gs == group_size as int,
            ng == num_groups as int,
            gs == spec_group_size(page_sizes@),
            ng * gs <= u64::MAX,
            0 <= c <= page_sizes@.len(),
            col_start == page_prefix_sum(page_sizes@, c as int),
            r@.len() == c,
            forall|cc: int| 0 <= cc < c ==> (#[trigger] r@[cc])@.len() == num_groups,
            forall|cc: int, g: int|
                0 <= cc < c && 0 <= g < num_groups ==> #[trigger] r@[cc]@[g] == g * group_size
                    + page_prefix_sum(page_sizes@, cc),
        decreases page_sizes@.len() - c,
    {
        proof {
            lemma_prefix_sum_monotone(page_sizes@, c as int, page_sizes@.len() as int);
        }
        let mut offs: Vec<u64> = Vec::new();
        let mut g: usize = 0;
        while g < num_groups
            invariant
                gs == group_size as int,
                ng == num_groups as int,
                ng * gs <= u64::MAX,
                0 <= g <= ng,
                col_start <= gs,
                offs@.len() == g,
                forall|gg: int|
                    0 <= gg < g ==> #[trigger] offs@[gg] == gg * group_size + col_start,
            decreases ng - g,
        {
            assert(0 <= g * gs && (g as int + 1) * gs <= ng * gs) by (nonlinear_arith)
                requires 0 <= g < ng && gs >= 0;
            assert((g as int + 1) * gs == g * gs + gs) by (nonlinear_arith);
            let off: u64 = (g as u64) * group_size + col_start;
            offs.push(off);
            g = g + 1;
        }
        r.push(offs);
        proof {
            assert(page_prefix_sum(page_sizes@, c as int + 1) == page_prefix_sum(
                page_sizes@,
                c as int,
            ) + page_sizes@[c as int]);
            lemma_prefix_sum_monotone(page_sizes@, c as int + 1, page_sizes@.len() as int);
        }
        col_start = col_start + page_sizes[c];
        c = c + 1;
    }
    r
}

/// Builds the columnar-pattern plan: `floor(object_size / group_size)` whole
/// groups per object, one task per page, grouped into row-group units and
/// interleaved across objects group index by group index. Bytes past the
/// last whole group are excluded by design.
///
/// Rejects a layout that would yield zero groups (no columns, or an object
/// smaller than one group).
pub fn columnar_plan(object_size: u64, num_objects: usize, page_sizes: &Vec<u64>) -> (r: Result<
    LayoutPlan,
    BenchError,
>)
    requires
        num_objects >= 1,
        forall|i: int| 0 <= i < page_sizes@.len() ==> page_sizes@[i] >= 1,
        spec_group_size(page_sizes@) <= u64::MAX,
        num_objects * object_size <= u64::MAX,
        page_sizes@.len() >= 1 && spec_group_size(page_sizes@) <= object_size
            ==> num_objects * spec_num_groups(object_size, page_sizes@) * page_sizes@.len()
                <= usize::MAX,
    ensures
        (r is Err) <==> (page_sizes@.len() == 0 || object_size < spec_group_size(page_sizes@)),
        r is Err ==> r == Result::<LayoutPlan, BenchError>::Err(BenchError::InvalidLayoutError),
        r is Ok ==> is_columnar_plan(r->Ok_0, object_size, num_objects, page_sizes@),
{
    let num_columns: usize = page_sizes.len();
    if num_columns == 0 {
        return Err(BenchError::InvalidLayoutError);
    }
    let ghost ncol = num_columns as int;
    let ghost nobj = num_objects as int;
    let ghost os = object_size as int;

    // group_size = sum(page_sizes)
    let mut group_size: u64 = 0;
    let mut c: usize = 0;
    while c < num_columns
        invariant
            num_columns == page_sizes@.len(),
            spec_group_size(page_sizes@) <= u64::MAX,
            0 <= c <= num_columns,
            group_size == page_prefix_sum(page_sizes@, c as int),
        decreases num_columns - c,
    {
        proof {
            assert(page_prefix_sum(page_sizes@, c as int + 1) == page_prefix_sum(
                page_sizes@,
                c as int,
            ) + page_sizes@[c as int]);
            lemma_prefix_sum_monotone(page_sizes@, c as int + 1, page_sizes@.len() as int);
        }
        group_size = group_size + page_sizes[c];
        c = c + 1;
    }
    let ghost gs = group_size as int;
    proof {
        lemma_prefix_sum_monotone(page_sizes@, 1, ncol);
        assert(page_prefix_sum(page_sizes@, 0) == 0);
        assert(page_prefix_sum(page_sizes@, 1) == page_sizes@[0]);
        assert(gs >= 1);
    }

    if object_size < group_size {
        proof {
            vstd::arithmetic::div_mod::lemma_basic_div(os, gs);
        }
        return Err(BenchError::InvalidLayoutError);
    }
    let num_groups_w: u64 = object_size / group_size;
    let ghost ng = spec_num_groups(object_size, page_sizes@);
    proof {
        lemma_fundamental_div_mod(os, gs);
        lemma_mod_bound(os, gs);
        assert(ng * gs <= os) by (nonlinear_arith)
            requires os == gs * ng + os % gs && os % gs >= 0;
        assert(ng >= 1) by (nonlinear_arith)
            requires os == gs * ng + os % gs && 0 <= os % gs < gs && os >= gs;
        // The sanity invariant of the pattern: whole groups never reach past
        // the object's end.
        assert(ng * gs <= os);
        assert(ng <= nobj * ng && nobj * ng <= nobj * ng * ncol) by (nonlinear_arith)
            requires ng >= 1 && nobj >= 1 && ncol >= 1;
    }
    let num_groups: usize = num_groups_w as usize;
    let ghost per_group = nobj * ncol;

    proof {
        assert(num_groups * group_size <= u64::MAX) by (nonlinear_arith)
            requires num_groups == ng && group_size == gs && ng * gs <= os && os <= u64::MAX;
    }
    let offsets: Vec<Vec<u64>> = column_offsets(page_sizes, num_groups, group_size);

    let mut tasks: Vec<FetchTask> = Vec::new();
    proof {
        assert(0 * per_group == 0 && (0 * nobj) * gs == 0) by (nonlinear_arith);
    }
    let mut g: usize = 0;
    while g < num_groups
        invariant
            num_columns == page_sizes@.len(),
            ncol == num_columns as int,
            nobj == num_objects as int,
            os == object_size as int,
            gs == group_size as int,
            num_objects >= 1,
            num_columns >= 1,
            gs >= 1,
            forall|i: int| 0 <= i < page_sizes@.len() ==> page_sizes@[i] >= 1,
            gs == spec_group_size(page_sizes@),
            ng == spec_num_groups(object_size, page_sizes@),
            num_groups == ng,
            ng >= 1,
            ng * gs <= os,
            nobj * os <= u64::MAX,
            nobj * ng * ncol <= usize::MAX,
            per_group == nobj * ncol,
            offsets@.len() == ncol,
            forall|cc: int| 0 <= cc < offsets@.len() ==> (#[trigger] offsets@[cc])@.len() == ng,
            forall|cc: int, gg: int|
                0 <= cc < offsets@.len() && 0 <= gg < ng ==> #[trigger] offsets@[cc]@[gg] == gg
                    * group_size + page_prefix_sum(page_sizes@, cc),
            0 <= g <= ng,
            tasks@.len() == g * per_group,
            forall|k: int| 0 <= k < tasks@.len()
                ==> #[trigger] tasks@[k] == spec_columnar_task(k, num_objects, page_sizes@, object_size),
            forall|k: int| 0 <= k < tasks@.len()
                ==> (#[trigger] tasks@[k]).object < num_objects
                    && tasks@[k].range.valid_for(object_size),
            range_total(tasks@) == (g * nobj) * gs,
        decreases ng - g,
    {
        let mut obj: usize = 0;
        proof {
            assert((g * nobj + 0) * gs == (g * nobj) * gs && g * per_group + 0 * ncol == g
                * per_group) by (nonlinear_arith);
        }
        while obj < num_objects
            invariant
                num_columns == page_sizes@.len(),
                ncol == num_columns as int,
                nobj == num_objects as int,
                os == object_size as int,
                gs == group_size as int,
                num_objects >= 1,
                num_columns >= 1,
                gs >= 1,
                forall|i: int| 0 <= i < page_sizes@.len() ==> page_sizes@[i] >= 1,
                gs == spec_group_size(page_sizes@),
                ng == spec_num_groups(object_size, page_sizes@),
                ng >= 1,
                ng * gs <= os,
                nobj * os <= u64::MAX,
                nobj * ng * ncol <= usize::MAX,
                per_group == nobj * ncol,
                offsets@.len() == ncol,
                forall|cc: int, gg: int|
                    0 <= cc < offsets@.len() && 0 <= gg < ng ==> #[trigger] offsets@[cc]@[gg] == gg
                        * group_size + page_prefix_sum(page_sizes@, cc),
                forall|cc: int| 0 <= cc < offsets@.len() ==> (#[trigger] offsets@[cc])@.len() == ng,
                0 <= g < ng,
                0 <= obj <= num_objects,
                tasks@.len() == g * per_group + obj * ncol,
                forall|k: int| 0 <= k < tasks@.len()
                    ==> #[trigger] tasks@[k] == spec_columnar_task(k, num_objects, page_sizes@, object_size),
                forall|k: int| 0 <= k < tasks@.len()
                    ==> (#[trigger] tasks@[k]).object < num_objects
                        && tasks@[k].range.valid_for(object_size),
                range_total(tasks@) == (g * nobj + obj) * gs,
            decreases num_objects - obj,
        {
            let mut col: usize = 0;
            proof {
                assert((g * nobj + obj) * gs + page_prefix_sum(page_sizes@, 0) == (g * nobj + obj)
                    * gs) by (nonlinear_arith);
            }
            while col < num_columns
                invariant
                    num_columns == page_sizes@.len(),
                    ncol == num_columns as int,
                    nobj == num_objects as int,
                    os == object_size as int,
                    gs == group_size as int,
                    num_objects >= 1,
                    num_columns >= 1,
                    gs >= 1,
                    forall|i: int| 0 <= i < page_sizes@.len() ==> page_sizes@[i] >= 1,
                    gs == spec_group_size(page_sizes@),
                    ng == spec_num_groups(object_size, page_sizes@),
                    ng >= 1,
                    ng * gs <= os,
                    nobj * os <= u64::MAX,
                    nobj * ng * ncol <= usize::MAX,
                    per_group == nobj * ncol,
                    offsets@.len() == ncol,
                    forall|cc: int, gg: int|
                        0 <= cc < offsets@.len() && 0 <= gg < ng ==> #[trigger] offsets@[cc]@[gg]
                            == gg * group_size + page_prefix_sum(page_sizes@, cc),
                    forall|cc: int| 0 <= cc < offsets@.len() ==> (#[trigger] offsets@[cc])@.len()
                        == ng,
                    0 <= g < ng,
                    0 <= obj < num_objects,
                    0 <= col <= num_columns,
                    tasks@.len() == g * per_group + obj * ncol + col,
                    forall|k: int| 0 <= k < tasks@.len()
                        ==> #[trigger] tasks@[k] == spec_columnar_task(k, num_objects, page_sizes@, object_size),
                    forall|k: int| 0 <= k < tasks@.len()
                        ==> (#[trigger] tasks@[k]).object < num_objects
                            && tasks@[k].range.valid_for(object_size),
                    range_total(tasks@) == (g * nobj + obj) * gs + page_prefix_sum(
                        page_sizes@,
                        col as int,
                    ),
                decreases num_columns - col,
            {
                let gi = g;
                let start: u64 = offsets[col][gi];
                let ghost gpos = g as int * gs;
                proof {
                    lemma_prefix_sum_monotone(page_sizes@, col as int + 1, ncol);
                    assert(page_prefix_sum(page_sizes@, col as int + 1) == page_prefix_sum(
                        page_sizes@,
                        col as int,
                    ) + page_sizes@[col as int]);
                    assert(0 <= gpos && gpos + gs <= ng * gs) by (nonlinear_arith)
                        requires gpos == g as int * gs && 0 <= g < ng && gs >= 1;
                    assert(start == gpos + page_prefix_sum(page_sizes@, col as int));
                    assert(start as int + page_sizes@[col as int] <= gpos + gs <= os);
                }
                let end: u64 = start + page_sizes[col];
                let t = FetchTask { object: obj, range: ByteRange { start, end } };
                proof {
                    lemma_range_total_push(tasks@, t);
                    let k = tasks@.len() as int;
                    let rem = obj * ncol + col;
                    assert(0 <= rem && rem + 1 <= per_group) by (nonlinear_arith)
                        requires
                            rem == obj * ncol + col && 0 <= obj < nobj && 0 <= col < ncol
                                && per_group == nobj * ncol;
                    assert(k == per_group * (g as int) + rem) by (nonlinear_arith)
                        requires
                            k == g * per_group + obj * ncol + col && rem == obj * ncol + col;
                    lemma_fundamental_div_mod_converse(k, per_group, g as int, rem);
                    assert(rem == ncol * (obj as int) + col) by (nonlinear_arith)
                        requires rem == obj * ncol + col;
                    lemma_fundamental_div_mod_converse(rem, ncol, obj as int, col as int);
                    assert(t == spec_columnar_task(k, num_objects, page_sizes@, object_size));
                }
                tasks.push(t);
                col = col + 1;
            }
            proof {
                assert((g * nobj + obj) * gs + gs == (g * nobj + (obj + 1)) * gs) by (nonlinear_arith);
                assert(g * per_group + obj * ncol + ncol == g * per_group + (obj + 1) * ncol)
                    by (nonlinear_arith);
            }
            obj = obj + 1;
        }
        proof {
            assert((g * nobj + nobj) * gs == ((g + 1) * nobj) * gs) by (nonlinear_arith);
            assert(g * per_group + nobj * ncol == (g + 1) * per_group) by (nonlinear_arith)
                requires per_group == nobj * ncol;
        }
        g = g + 1;
    }

    proof {
        assert(tasks@.len() == nobj * ng * ncol && range_total(tasks@) == nobj * ng * gs)
            by (nonlinear_arith)
            requires
                tasks@.len() == ng * (nobj * ncol) && range_total(tasks@) == (ng * nobj) * gs;
        assert(nobj * ng <= nobj * ng * ncol) by (nonlinear_arith)
            requires ncol >= 1 && nobj >= 1 && ng >= 0;
        assert(nobj * (ng * gs) <= nobj * os && nobj * ng * gs == nobj * (ng * gs))
            by (nonlinear_arith)
            requires ng * gs <= os && nobj >= 1;
    }
    let per_object: u64 = num_groups_w * group_size;
    let total_bytes: u64 = (num_objects as u64) * per_object;
    let unit_count: usize = num_objects * num_groups;
    proof {
        assert(nobj * ng * gs == nobj * (ng * gs)) by (nonlinear_arith);
        assert(total_bytes == nobj * (ng * gs));
        assert(total_bytes == nobj * ng * gs);
        assert(tasks@.len() == unit_count * num_columns) by (nonlinear_arith)
            requires
                tasks@.len() == nobj * ng * ncol && unit_count == nobj * ng && num_columns == ncol;
    }
    Ok(LayoutPlan {
        tasks,
        unit_len: num_columns,
        unit_count,
        total_bytes,
        num_objects,
        object_size,
    })
}

} // verus!
