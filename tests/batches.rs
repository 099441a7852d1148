use amethyst_rendy::batch::TwoLevelBatch;
use amethyst_rendy::ordered::OrderedTwoLevelBatch;

fn shape_of<T>(b: &TwoLevelBatch<T>) -> Vec<(u32, Vec<(u32, usize)>)> {
    b.buckets()
        .iter()
        .map(|k| (k.material, k.runs.iter().map(|r| (r.mesh, r.data.len())).collect()))
        .collect()
}

#[test]
fn unordered_count_matches_inserted_records() {
    let mut b: TwoLevelBatch<u32> = TwoLevelBatch::new();
    b.insert(1, 10, vec![1, 2, 3]);
    b.insert(2, 10, vec![4]);
    b.insert(1, 11, vec![5, 6]);
    b.insert(1, 10, vec![7]);
    assert_eq!(b.count(), 7);
    assert_eq!(b.data().len(), b.count());
    assert_eq!(b.data(), vec![1, 2, 3, 7, 5, 6, 4]);
    assert_eq!(shape_of(&b), vec![(1, vec![(10, 4), (11, 2)]), (2, vec![(10, 1)])]);
}

#[test]
fn unordered_empty_batch() {
    let b: TwoLevelBatch<u32> = TwoLevelBatch::new();
    assert_eq!(b.count(), 0);
    assert!(b.data().is_empty());
    assert!(b.buckets().is_empty());
}

#[test]
fn clear_inner_keeps_buckets_and_prune_drops_them() {
    let mut b: TwoLevelBatch<u32> = TwoLevelBatch::new();
    b.insert(1, 10, vec![1, 2]);
    b.insert(2, 20, vec![3]);
    b.clear_inner();
    assert_eq!(b.count(), 0);
    assert_eq!(shape_of(&b), vec![(1, vec![(10, 0)]), (2, vec![(20, 0)])]);
    b.prune();
    assert_eq!(b.count(), 0);
    assert!(b.buckets().is_empty());
    assert!(b.data().is_empty());
}

#[test]
fn prune_keeps_filled_runs_in_order() {
    let mut b: TwoLevelBatch<u32> = TwoLevelBatch::new();
    b.insert(1, 10, vec![1]);
    b.insert(1, 11, vec![2]);
    b.insert(2, 20, vec![3]);
    b.clear_inner();
    b.insert(1, 11, vec![9]);
    b.insert(3, 30, vec![8]);
    b.prune();
    assert_eq!(shape_of(&b), vec![(1, vec![(11, 1)]), (3, vec![(30, 1)])]);
    assert_eq!(b.data(), vec![9, 8]);
    assert_eq!(b.count(), 2);
}

#[test]
fn bounded_scan_opens_a_new_run_past_the_limit() {
    let mut b: TwoLevelBatch<u32> = TwoLevelBatch::with_scan_limit(2);
    b.insert(1, 10, vec![1]);
    b.insert(1, 11, vec![2]);
    b.insert(1, 12, vec![3]);
    b.insert(1, 12, vec![4]);
    b.insert(1, 11, vec![5]);
    assert_eq!(shape_of(&b), vec![(1, vec![(10, 1), (11, 2), (12, 1), (12, 1)])]);
    assert_eq!(b.count(), 5);
}

#[test]
fn unbounded_scan_merges_same_mesh() {
    let mut b: TwoLevelBatch<u32> = TwoLevelBatch::new();
    for mesh in 0..12u32 {
        b.insert(1, mesh, vec![mesh]);
    }
    b.insert(1, 11, vec![100]);
    let s = shape_of(&b);
    assert_eq!(s[0].1.len(), 12);
    assert_eq!(s[0].1[11], (11, 2));
}

#[test]
fn ordered_data_follows_insertion_order() {
    let mut b: OrderedTwoLevelBatch<u32> = OrderedTwoLevelBatch::new();
    b.insert(1, 10, vec![101]);
    b.insert(2, 20, vec![102]);
    b.insert(1, 10, vec![103]);
    assert_eq!(b.data(), vec![101, 102, 103]);
    assert_eq!(b.count(), 3);
    assert_eq!(b.buckets().len(), 3);
}

#[test]
fn ordered_merges_neighbouring_keys() {
    let mut b: OrderedTwoLevelBatch<u32> = OrderedTwoLevelBatch::new();
    b.insert(1, 10, vec![1]);
    b.insert(1, 10, vec![2]);
    b.insert(1, 11, vec![3]);
    b.insert(2, 11, vec![4]);
    let buckets = b.buckets();
    assert_eq!(buckets.len(), 2);
    assert_eq!(buckets[0].runs.len(), 2);
    assert_eq!(buckets[0].runs[0].data, vec![1, 2]);
    assert_eq!(buckets[1].runs[0].data, vec![4]);
}

#[test]
fn swap_clear_empties_the_batch() {
    let mut b: OrderedTwoLevelBatch<u32> = OrderedTwoLevelBatch::new();
    b.insert(1, 10, vec![1, 2]);
    b.swap_clear();
    assert_eq!(b.count(), 0);
    assert!(b.data().is_empty());
    assert!(b.buckets().is_empty());
}

fn frame_of(b: &mut OrderedTwoLevelBatch<u32>, inserts: &[(u32, u32, usize)]) -> bool {
    b.swap_clear();
    for &(m, mesh, n) in inserts {
        b.insert(m, mesh, vec![0; n]);
    }
    b.changed()
}

#[test]
fn same_shapes_report_no_change() {
    let mut b: OrderedTwoLevelBatch<u32> = OrderedTwoLevelBatch::new();
    let shape = [(1, 10, 2), (2, 20, 1), (1, 11, 3)];
    assert!(frame_of(&mut b, &shape));
    assert!(!frame_of(&mut b, &shape));
    assert!(!frame_of(&mut b, &shape));
}

#[test]
fn new_material_reports_change() {
    let mut b: OrderedTwoLevelBatch<u32> = OrderedTwoLevelBatch::new();
    frame_of(&mut b, &[(1, 10, 2)]);
    assert!(frame_of(&mut b, &[(1, 10, 2), (3, 10, 1)]));
}

#[test]
fn removed_mesh_reports_change() {
    let mut b: OrderedTwoLevelBatch<u32> = OrderedTwoLevelBatch::new();
    frame_of(&mut b, &[(1, 10, 2), (1, 11, 1)]);
    assert!(frame_of(&mut b, &[(1, 10, 2)]));
}

#[test]
fn changed_count_reports_change() {
    let mut b: OrderedTwoLevelBatch<u32> = OrderedTwoLevelBatch::new();
    frame_of(&mut b, &[(1, 10, 2)]);
    assert!(frame_of(&mut b, &[(1, 10, 3)]));
}
