use range_bench::columnar::{column_offsets, columnar_plan};
use range_bench::error::BenchError;

#[test]
fn two_groups_with_excluded_tail() {
    let pages: Vec<u64> = vec![10, 20, 30];
    let plan = columnar_plan(125, 1, &pages).unwrap();
    // group_size = 60, num_groups = 2; the 5 bytes at 120..125 are excluded.
    assert_eq!(plan.unit_len, 3);
    assert_eq!(plan.unit_count, 2);
    assert_eq!(plan.tasks.len(), 6);
    assert_eq!(plan.total_bytes, 120);
    let expected = [(0, 10), (10, 30), (30, 60), (60, 70), (70, 90), (90, 120)];
    for (k, (start, end)) in expected.iter().enumerate() {
        assert_eq!(plan.tasks[k].object, 0);
        assert_eq!(plan.tasks[k].range.start, *start);
        assert_eq!(plan.tasks[k].range.end, *end);
    }
}

#[test]
fn offsets_precomputed_per_column() {
    let pages: Vec<u64> = vec![10, 20, 30];
    let offsets = column_offsets(&pages, 2, 60);
    assert_eq!(offsets.len(), 3);
    assert_eq!(offsets[0], vec![0, 60]);
    assert_eq!(offsets[1], vec![10, 70]);
    assert_eq!(offsets[2], vec![30, 90]);
}

#[test]
fn row_groups_interleave_across_objects() {
    let pages: Vec<u64> = vec![10, 20, 30];
    let plan = columnar_plan(60, 2, &pages).unwrap();
    assert_eq!(plan.unit_count, 2);
    assert_eq!(plan.tasks.len(), 6);
    for c in 0..3 {
        assert_eq!(plan.tasks[c].object, 0);
        assert_eq!(plan.tasks[3 + c].object, 1);
        assert_eq!(plan.tasks[c].range, plan.tasks[3 + c].range);
    }
}

#[test]
fn group_union_covers_group_size() {
    let pages: Vec<u64> = vec![7, 11, 13];
    let plan = columnar_plan(100, 1, &pages).unwrap();
    // group_size = 31, num_groups = 3.
    assert_eq!(plan.unit_count, 3);
    for u in 0..plan.unit_count {
        let mut len = 0;
        for j in 0..plan.unit_len {
            let t = plan.tasks[u * plan.unit_len + j];
            len += t.range.end - t.range.start;
            if j + 1 < plan.unit_len {
                assert_eq!(t.range.end, plan.tasks[u * plan.unit_len + j + 1].range.start);
            }
        }
        assert_eq!(len, 31);
    }
}

#[test]
fn no_columns_is_invalid_layout() {
    let pages: Vec<u64> = vec![];
    assert_eq!(columnar_plan(100, 1, &pages).unwrap_err(), BenchError::InvalidLayoutError);
}

#[test]
fn object_smaller_than_group_is_invalid_layout() {
    let pages: Vec<u64> = vec![10, 20, 30];
    assert_eq!(columnar_plan(59, 1, &pages).unwrap_err(), BenchError::InvalidLayoutError);
}

#[test]
fn columnar_planning_twice_gives_identical_plans() {
    let pages: Vec<u64> = vec![10, 20, 30];
    let p1 = columnar_plan(125, 2, &pages).unwrap();
    let p2 = columnar_plan(125, 2, &pages).unwrap();
    assert_eq!(p1.tasks, p2.tasks);
    assert_eq!(p1.total_bytes, p2.total_bytes);
    assert_eq!(p1.unit_count, p2.unit_count);
    assert_eq!(p1.unit_len, p2.unit_len);
}

#[test]
fn columnar_ranges_of_one_object_strictly_increase() {
    let pages: Vec<u64> = vec![8, 8, 16];
    let plan = columnar_plan(101, 2, &pages).unwrap();
    for k1 in 0..plan.tasks.len() {
        for k2 in (k1 + 1)..plan.tasks.len() {
            if plan.tasks[k1].object == plan.tasks[k2].object {
                assert!(plan.tasks[k1].range.start < plan.tasks[k2].range.start);
                assert!(plan.tasks[k1].range.end <= plan.tasks[k2].range.start);
            }
        }
    }
}
