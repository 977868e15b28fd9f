use range_bench::block::{block_plan, default_block_size};
use range_bench::error::BenchError;

#[test]
fn four_blocks_with_truncated_tail() {
    let plan = block_plan(1000, 1, 300).unwrap();
    assert_eq!(plan.tasks.len(), 4);
    assert_eq!(plan.unit_count, 4);
    assert_eq!(plan.unit_len, 1);
    let expected = [(0, 300), (300, 600), (600, 900), (900, 1000)];
    for (k, (start, end)) in expected.iter().enumerate() {
        assert_eq!(plan.tasks[k].object, 0);
        assert_eq!(plan.tasks[k].range.start, *start);
        assert_eq!(plan.tasks[k].range.end, *end);
    }
    assert_eq!(plan.tasks[3].range.end - plan.tasks[3].range.start, 100);
    assert_eq!(plan.total_bytes, 1000);
}

#[test]
fn three_objects_three_blocks_each() {
    let plan = block_plan(900, 3, 300).unwrap();
    assert_eq!(plan.tasks.len(), 9);
    assert_eq!(plan.unit_count, 9);
    assert_eq!(plan.total_bytes, 2700);
}

#[test]
fn three_objects_twelve_tasks() {
    let plan = block_plan(900, 3, 250).unwrap();
    assert_eq!(plan.tasks.len(), 12);
    assert_eq!(plan.unit_count, 12);
    assert_eq!(plan.total_bytes, 2700);
}

#[test]
fn blocks_interleave_across_objects() {
    let plan = block_plan(10, 2, 5).unwrap();
    assert_eq!(plan.tasks.len(), 4);
    assert_eq!(plan.tasks[0].object, 0);
    assert_eq!(plan.tasks[1].object, 1);
    assert_eq!(plan.tasks[0].range.start, 0);
    assert_eq!(plan.tasks[0].range.end, 5);
    assert_eq!(plan.tasks[1].range.start, 0);
    assert_eq!(plan.tasks[1].range.end, 5);
    assert_eq!(plan.tasks[2].object, 0);
    assert_eq!(plan.tasks[3].object, 1);
    assert_eq!(plan.tasks[2].range.start, 5);
    assert_eq!(plan.tasks[2].range.end, 10);
}

#[test]
fn exact_division_covers_object() {
    let plan = block_plan(900, 1, 300).unwrap();
    assert_eq!(plan.tasks.len(), 3);
    let mut sum = 0;
    for t in plan.tasks.iter() {
        sum += t.range.end - t.range.start;
    }
    assert_eq!(sum, 900);
}

#[test]
fn empty_object_is_invalid_layout() {
    assert_eq!(block_plan(0, 1, 300).unwrap_err(), BenchError::InvalidLayoutError);
}

#[test]
fn zero_block_size_is_invalid_layout() {
    assert_eq!(block_plan(1000, 1, 0).unwrap_err(), BenchError::InvalidLayoutError);
}

#[test]
fn default_block_size_rounds_up() {
    assert_eq!(default_block_size(1000, 10), 100);
    assert_eq!(default_block_size(1001, 10), 101);
    assert_eq!(default_block_size(9, 10), 1);
    assert_eq!(default_block_size(0, 10), 0);
}

#[test]
fn block_planning_twice_gives_identical_plans() {
    let p1 = block_plan(1000, 3, 300).unwrap();
    let p2 = block_plan(1000, 3, 300).unwrap();
    assert_eq!(p1.tasks, p2.tasks);
    assert_eq!(p1.total_bytes, p2.total_bytes);
    assert_eq!(p1.unit_count, p2.unit_count);
    assert_eq!(p1.unit_len, p2.unit_len);
}

#[test]
fn task_accessors_match_contents() {
    let plan = block_plan(1000, 2, 400).unwrap();
    assert_eq!(plan.task_count(), plan.tasks.len());
    for k in 0..plan.task_count() {
        assert_eq!(plan.task(k), plan.tasks[k]);
        assert_eq!(plan.task(k).range.len(), plan.tasks[k].range.end - plan.tasks[k].range.start);
    }
    for u in 0..plan.unit_count {
        for j in 0..plan.unit_len {
            assert_eq!(plan.unit_task(u, j), plan.tasks[u * plan.unit_len + j]);
        }
    }
}

#[test]
fn ranges_of_one_object_never_overlap() {
    let plan = block_plan(1000, 2, 256).unwrap();
    for k1 in 0..plan.tasks.len() {
        for k2 in (k1 + 1)..plan.tasks.len() {
            if plan.tasks[k1].object == plan.tasks[k2].object {
                assert!(plan.tasks[k1].range.end <= plan.tasks[k2].range.start);
            }
        }
    }
}
