//! The block pattern: one object is split into contiguous equal-size
//! blocks, the last one truncated at the object's end, and the blocks are
//! interleaved across objects.

use vstd::prelude::*;
use vstd::arithmetic::div_mod::{lemma_fundamental_div_mod, lemma_fundamental_div_mod_converse};

use crate::error::BenchError;
use crate::layout::{ByteRange, FetchTask, LayoutPlan, range_total, lemma_range_total_push};

verus! {

/// Ceiling division of `a` by `b`.
pub open spec fn spec_ceil_div(a: int, b: int) -> int {
    if a % b == 0 {
        a / b
    } else {
        a / b + 1
    }
}

/// Facts about ceiling division for positive divisors: the quotient is the
/// least integer whose multiple of `b` reaches `a`.
pub proof fn lemma_ceil_div(a: int, b: int)
    requires
        a >= 0,
        b >= 1,
    ensures
        spec_ceil_div(a, b) >= 0,
        spec_ceil_div(a, b) * b >= a,
        a >= 1 ==> spec_ceil_div(a, b) >= 1,
        a >= 1 ==> (spec_ceil_div(a, b) - 1) * b < a,
        spec_ceil_div(a, b) <= a,
{
    lemma_fundamental_div_mod(a, b);
    let q = a / b;
    let r = a % b;
    assert(a == q * b + r) by (nonlinear_arith)
        requires a == b * (a / b) + a % b && q == a / b && r == a % b;
    if r == 0 {
        assert(spec_ceil_div(a, b) * b == q * b);
        if a >= 1 {
            assert(q >= 1) by (nonlinear_arith)
                requires a == q * b + 0 && a >= 1 && b >= 1;
            assert((q - 1) * b == q * b - b) by (nonlinear_arith);
        }
        assert(q <= q * b) by (nonlinear_arith)
            requires q >= 0 && b >= 1;
    } else {
        assert(spec_ceil_div(a, b) == q + 1);
        assert((q + 1) * b == q * b + b) by (nonlinear_arith);
        assert(q * b + b >= a);
        assert(q * b < a);
        // q + 1 <= a: since b >= 1 and r >= 1, q * b <= a - 1, so q <= a - 1.
        assert(q <= q * b) by (nonlinear_arith)
            requires q >= 0 && b >= 1;
    }
}

/// Number of blocks the block pattern produces: `ceil(object_size / block_size)`.
pub open spec fn spec_num_blocks(object_size: u64, block_size: u64) -> int {
    spec_ceil_div(object_size as int, block_size as int)
}

/// The byte range of one block: `[i * block_size, min((i+1) * block_size, object_size))`.
pub open spec fn spec_block_range(block_i: int, block_size: u64, object_size: u64) -> ByteRange {
    ByteRange {
        start: (block_i * block_size) as u64,
        end: vstd::math::min((block_i + 1) * block_size, object_size as int) as u64,
    }
}

/// Task `k` of a block plan: blocks are emitted in order and, within one
/// block index, fanned out across the objects in order.
pub open spec fn spec_block_task(k: int, num_objects: usize, block_size: u64, object_size: u64) -> FetchTask {
    FetchTask {
        object: (k % (num_objects as int)) as usize,
        range: spec_block_range(k / (num_objects as int), block_size, object_size),
    }
}

/// What `block_plan` promises of a successful plan: every task is pinned by
/// `spec_block_task`, and the totals are those of the pattern.
pub open spec fn is_block_plan(
    plan: LayoutPlan,
    object_size: u64,
    num_objects: usize,
    block_size: u64,
) -> bool {
    &&& plan.wf()
    &&& plan.num_objects == num_objects
    &&& plan.object_size == object_size
    &&& plan.unit_len == 1
    &&& plan.unit_count == num_objects * spec_num_blocks(object_size, block_size)
    &&& plan.tasks@.len() == num_objects * spec_num_blocks(object_size, block_size)
    &&& forall|k: int| 0 <= k < plan.tasks@.len()
            ==> #[trigger] plan.tasks@[k] == spec_block_task(k, num_objects, block_size, object_size)
    &&& plan.total_bytes == num_objects * object_size
}

/// Ceiling division on machine integers.
pub fn ceil_div(a: u64, b: u64) -> (r: u64)
    requires
        b >= 1,
    ensures
        r == spec_ceil_div(a as int, b as int),
{
    if a % b == 0 {
        a / b
    } else {
        proof {
            lemma_ceil_div(a as int, b as int);
        }
        a / b + 1
    }
}

/// The ranges of a block plan cover each object exactly once: their lengths
/// sum to `num_objects * object_size`, whether or not the block size divides
/// the object size evenly, and no range reaches past the object's end.
pub proof fn lemma_block_plan_total(
    plan: LayoutPlan,
    object_size: u64,
    num_objects: usize,
    block_size: u64,
)
    requires
        is_block_plan(plan, object_size, num_objects, block_size),
    ensures
        range_total(plan.tasks@) == num_objects * object_size,
        forall|k: int|
            0 <= k < plan.tasks@.len() ==> (#[trigger] plan.tasks@[k]).range.end <= object_size,
{
}

/// Each admission unit of a block plan is a single task covering exactly
/// its block's bytes.
pub proof fn lemma_block_unit_bytes(
    plan: LayoutPlan,
    object_size: u64,
    num_objects: usize,
    block_size: u64,
    u: int,
)
    requires
        is_block_plan(plan, object_size, num_objects, block_size),
        0 <= u < plan.unit_count,
    ensures
        plan.unit_bytes(u) == plan.tasks@[u].range.spec_len(),
{
    let s = plan.unit_tasks(u);
    assert(u * plan.unit_len == u && (u + 1) * plan.unit_len == u + 1);
    assert(s.len() == 1);
    assert(s.drop_last() =~= Seq::<FetchTask>::empty());
    assert(range_total(Seq::<FetchTask>::empty()) == 0);
    assert(range_total(s) == range_total(s.drop_last()) + s.last().range.spec_len());
    assert(s.last() == plan.tasks@[u]);
}

/// Tasks of a block plan that address the same object never overlap: the
/// earlier task's range ends at or before the later one starts.
pub proof fn lemma_block_plan_object_disjoint(
    plan: LayoutPlan,
    object_size: u64,
    num_objects: usize,
    block_size: u64,
    k1: int,
    k2: int,
)
    requires
        is_block_plan(plan, object_size, num_objects, block_size),
        num_objects >= 1,
        block_size >= 1,
        0 <= k1 < k2 < plan.tasks@.len(),
        plan.tasks@[k1].object == plan.tasks@[k2].object,
    ensures
        plan.tasks@[k1].range.start < plan.tasks@[k2].range.start,
        plan.tasks@[k1].range.end <= plan.tasks@[k2].range.start,
{
    let nobj = num_objects as int;
    let bs = block_size as int;
    let os = object_size as int;
    let nb = spec_num_blocks(object_size, block_size);
    vstd::arithmetic::div_mod::lemma_mod_bound(k1, nobj);
    vstd::arithmetic::div_mod::lemma_mod_bound(k2, nobj);
    lemma_fundamental_div_mod(k1, nobj);
    lemma_fundamental_div_mod(k2, nobj);
    let b1 = k1 / nobj;
    let b2 = k2 / nobj;
    assert(k1 % nobj == k2 % nobj);
    if object_size == 0 {
        vstd::arithmetic::div_mod::lemma_div_of0(bs);
        vstd::arithmetic::div_mod::lemma_small_mod(0, bs as nat);
        assert(nb == 0);
        assert(plan.tasks@.len() == nobj * 0);
        assert(nobj * 0 == 0) by (nonlinear_arith);
        assert(false);
    }
    lemma_ceil_div(os, bs);
    assert(0 <= b1 && b1 < b2 && b2 <= nb - 1) by (nonlinear_arith)
        requires
            k1 == nobj * b1 + k1 % nobj,
            k2 == nobj * b2 + k2 % nobj,
            0 <= k1 % nobj < nobj,
            0 <= k2 % nobj < nobj,
            k1 % nobj == k2 % nobj,
            0 <= k1 < k2,
            k2 < nobj * nb,
            nobj >= 1;
    assert(b1 * bs < b2 * bs && (b1 + 1) * bs <= b2 * bs && b2 * bs <= (nb - 1) * bs
        && 0 <= b1 * bs) by (nonlinear_arith)
        requires 0 <= b1 < b2 <= nb - 1 && bs >= 1;
    assert((nb - 1) * bs < os);
    assert(vstd::math::min((b1 + 1) * bs, os) == (b1 + 1) * bs);
    assert(plan.tasks@[k1] == spec_block_task(k1, num_objects, block_size, object_size));
    assert(plan.tasks@[k2] == spec_block_task(k2, num_objects, block_size, object_size));
    assert(plan.tasks@[k1].range.start == b1 * bs);
    assert(plan.tasks@[k2].range.start == b2 * bs);
    assert(plan.tasks@[k1].range.end == (b1 + 1) * bs);
}

/// Planning is deterministic: two block plans built for identical inputs
/// hold identical ordered task sequences and identical totals.
pub proof fn lemma_block_plan_deterministic(
    p1: LayoutPlan,
    p2: LayoutPlan,
    object_size: u64,
    num_objects: usize,
    block_size: u64,
)
    requires
        is_block_plan(p1, object_size, num_objects, block_size),
        is_block_plan(p2, object_size, num_objects, block_size),
    ensures
        p1.tasks@ == p2.tasks@,
        p1.total_bytes == p2.total_bytes,
        p1.unit_count == p2.unit_count,
        p1.unit_len == p2.unit_len,
{
    assert forall|k: int| 0 <= k < p1.tasks@.len() implies p1.tasks@[k] == p2.tasks@[k] by {
        assert(p1.tasks@[k] == spec_block_task(k, num_objects, block_size, object_size));
        assert(p2.tasks@[k] == spec_block_task(k, num_objects, block_size, object_size));
    }
    assert(p1.tasks@ =~= p2.tasks@);
}

/// The default block size when none is requested: the object split into
/// `concurrency` equal parts, rounded up.
pub fn default_block_size(object_size: u64, concurrency: u64) -> (r: u64)
    requires
        concurrency >= 1,
    ensures
        r == spec_ceil_div(object_size as int, concurrency as int),
{
    ceil_div(object_size, concurrency)
}

/// Builds the block-pattern plan: `ceil(object_size / block_size)` blocks
/// per object, the last block truncated to end exactly at `object_size`,
/// interleaved across objects block index by block index.
///
/// Rejects a layout that would yield zero blocks (an empty object or a zero
/// block size).
pub fn block_plan(object_size: u64, num_objects: usize, block_size: u64) -> (r: Result<
    LayoutPlan,
    BenchError,
>)
    requires
        num_objects >= 1,
        num_objects * object_size <= u64::MAX,
        object_size >= 1 && block_size >= 1 ==> num_objects * spec_num_blocks(
            object_size,
            block_size,
        ) <= usize::MAX,
    ensures
        (r is Err) <==> (object_size == 0 || block_size == 0),
        r is Err ==> r == Result::<LayoutPlan, BenchError>::Err(BenchError::InvalidLayoutError),
        r is Ok ==> is_block_plan(r->Ok_0, object_size, num_objects, block_size),
{
    if object_size == 0 || block_size == 0 {
        return Err(BenchError::InvalidLayoutError);
    }
    proof {
        lemma_ceil_div(object_size as int, block_size as int);
    }
    let num_blocks: u64 = ceil_div(object_size, block_size);
    let ghost nb = spec_num_blocks(object_size, block_size);
    let ghost nobj = num_objects as int;
    let ghost bs = block_size as int;
    let ghost os = object_size as int;
    assert(nobj * nb <= usize::MAX);
    assert(nb <= usize::MAX) by (nonlinear_arith)
        requires nobj >= 1 && nb >= 0 && nobj * nb <= usize::MAX;
    let num_blocks: usize = num_blocks as usize;

    let mut tasks: Vec<FetchTask> = Vec::new();
    let mut block_i: usize = 0;
    proof {
        assert(range_total(tasks@) == 0);
        assert(0 * bs == 0 && 0 * nobj == 0 && nobj * 0 == 0) by (nonlinear_arith);
        assert(vstd::math::min(0, os) == 0);
    }
    while block_i < num_blocks
        invariant
            num_objects >= 1,
            os == object_size as int,
            bs == block_size as int,
            os >= 1,
            bs >= 1,
            nb == spec_num_blocks(object_size, block_size),
            nb * bs >= os,
            (nb - 1) * bs < os,
            num_blocks == nb,
            nobj == num_objects as int,
            nobj * nb <= usize::MAX,
            0 <= block_i <= num_blocks,
            tasks@.len() == block_i * nobj,
            forall|k: int| 0 <= k < tasks@.len()
                ==> #[trigger] tasks@[k] == spec_block_task(k, num_objects, block_size, object_size),
            forall|k: int| 0 <= k < tasks@.len()
                ==> (#[trigger] tasks@[k]).object < num_objects
                    && tasks@[k].range.valid_for(object_size),
            range_total(tasks@) == nobj * vstd::math::min(block_i * bs, os),
        decreases num_blocks - block_i,
    {
        let ghost bi = block_i as int;
        assert(bi * bs < os && (bi + 1) * bs <= nb * bs) by (nonlinear_arith)
            requires 0 <= bi < nb && bs >= 1 && (nb - 1) * bs < os && nb * bs >= os;
        assert(bi * bs >= 0) by (nonlinear_arith)
            requires bi >= 0 && bs >= 1;
        let start: u64 = (block_i as u64) * block_size;
        let end_unclamped_hi: bool = {
            // (block_i + 1) * block_size may exceed object_size; compare
            // without overflowing by noting start < object_size <= u64::MAX.
            object_size - start <= block_size
        };
        let end: u64 = if end_unclamped_hi {
            object_size
        } else {
            start + block_size
        };
        assert(end == vstd::math::min((bi + 1) * bs, os)) by {
            assert((bi + 1) * bs == bi * bs + bs) by (nonlinear_arith);
        };

        let mut obj: usize = 0;
        while obj < num_objects
            invariant
                num_objects >= 1,
                os == object_size as int,
                bs == block_size as int,
                os >= 1,
                bs >= 1,
                nb == spec_num_blocks(object_size, block_size),
                nobj == num_objects as int,
                nobj * nb <= usize::MAX,
                0 <= bi < nb,
                bi == block_i as int,
                block_i < num_blocks,
                num_blocks == nb,
                0 <= obj <= num_objects,
                start == bi * bs,
                end == vstd::math::min((bi + 1) * bs, os),
                start < end <= os,
                tasks@.len() == bi * nobj + obj,
                forall|k: int| 0 <= k < tasks@.len()
                    ==> #[trigger] tasks@[k] == spec_block_task(k, num_objects, block_size, object_size),
                forall|k: int| 0 <= k < tasks@.len()
                    ==> (#[trigger] tasks@[k]).object < num_objects
                        && tasks@[k].range.valid_for(object_size),
                range_total(tasks@) == nobj * vstd::math::min(bi * bs, os) + obj * (end - start),
            decreases num_objects - obj,
        {
            let t = FetchTask { object: obj, range: ByteRange { start, end } };
            assert(tasks@.len() < nobj * nb) by (nonlinear_arith)
                requires
                    tasks@.len() == bi * nobj + obj && 0 <= bi < nb && 0 <= obj < nobj && nobj >= 1
                        && nb >= 1;
            proof {
                lemma_range_total_push(tasks@, t);
                let k = tasks@.len() as int;
                assert(k == bi * nobj + obj);
                assert(k == nobj * bi + obj) by (nonlinear_arith)
                    requires k == bi * nobj + obj;
                lemma_fundamental_div_mod_converse(k, nobj, bi, obj as int);
                assert(t == spec_block_task(k, num_objects, block_size, object_size));
                assert(bi * bs < os);
                assert(vstd::math::min(bi * bs, os) == bi * bs);
                assert(
                    nobj * (bi * bs) + (obj + 1) * (end - start)
                        == nobj * (bi * bs) + obj * (end - start) + (end - start)
                ) by (nonlinear_arith);
            }
            tasks.push(t);
            obj = obj + 1;
        }
        proof {
            assert(range_total(tasks@) == nobj * (bi * bs) + nobj * (end - start));
            assert(nobj * (bi * bs) + nobj * (end - start) == nobj * vstd::math::min(
                (bi + 1) * bs,
                os,
            )) by (nonlinear_arith)
                requires
                    end == vstd::math::min((bi + 1) * bs, os) && start == bi * bs && bi * bs < os;
            assert(tasks@.len() == (bi + 1) * nobj) by (nonlinear_arith)
                requires tasks@.len() == bi * nobj + nobj;
        }
        block_i = block_i + 1;
    }
    proof {
        assert(vstd::math::min(nb * bs, os) == os);
        assert(nobj * os <= u64::MAX);
        assert(tasks@.len() == nobj * nb) by (nonlinear_arith)
            requires tasks@.len() == nb * nobj;
    }
    let total_bytes: u64 = (num_objects as u64) * object_size;
    let unit_count: usize = tasks.len();
    Ok(LayoutPlan {
        tasks,
        unit_len: 1,
        unit_count,
        total_bytes,
        num_objects,
        object_size,
    })
}

} // verus!
