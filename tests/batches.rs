use amethyst_terrain::{GroupRange, InstanceRecord, MaterialId, OrderedTwoLevelBatch, TwoLevelBatch};

fn rec(tag: u32) -> InstanceRecord {
    let mut model = [0u32; 16];
    model[0] = tag;
    InstanceRecord::new(model, [1, 1, 1, 1])
}

fn range(material: u32, mesh: u32, start: u32, end: u32) -> GroupRange {
    GroupRange { material: MaterialId(material), mesh, start, end }
}

#[test]
fn ordered_batch_keeps_back_to_front_order() {
    let mut b: OrderedTwoLevelBatch<u32> = OrderedTwoLevelBatch::new();
    b.insert(MaterialId(0), 7, vec![1]);
    b.insert(MaterialId(0), 7, vec![2]);
    b.insert(MaterialId(0), 7, vec![3]);
    assert_eq!(b.data(), &vec![1, 2, 3]);
    assert_eq!(b.iter(), &vec![range(0, 7, 0, 3)]);
    assert_eq!(b.count(), 3);
}

#[test]
fn ordered_batch_opens_a_group_when_the_key_changes() {
    let mut b: OrderedTwoLevelBatch<u32> = OrderedTwoLevelBatch::new();
    b.insert(MaterialId(0), 1, vec![10, 11]);
    b.insert(MaterialId(0), 2, vec![12]);
    b.insert(MaterialId(1), 2, vec![13]);
    b.insert(MaterialId(0), 1, vec![14]);
    assert_eq!(b.data(), &vec![10, 11, 12, 13, 14]);
    assert_eq!(
        b.iter(),
        &vec![range(0, 1, 0, 2), range(0, 2, 2, 3), range(1, 2, 3, 4), range(0, 1, 4, 5)]
    );
}

#[test]
fn ordered_batch_change_follows_the_groups() {
    let mut b: OrderedTwoLevelBatch<u32> = OrderedTwoLevelBatch::new();
    b.insert(MaterialId(0), 1, vec![1, 2]);
    assert!(b.changed());
    b.swap_clear();
    assert_eq!(b.count(), 0);
    b.insert(MaterialId(0), 1, vec![5, 6]);
    assert!(!b.changed());
    b.swap_clear();
    b.insert(MaterialId(0), 1, vec![5, 6, 7]);
    assert!(b.changed());
    b.swap_clear();
    b.insert(MaterialId(1), 1, vec![5, 6, 7]);
    assert!(b.changed());
}

#[test]
fn unordered_batch_groups_by_material_then_mesh() {
    // two materials, three meshes, five entities
    let mut b: TwoLevelBatch<InstanceRecord> = TwoLevelBatch::new();
    b.insert(MaterialId(0), 10, vec![rec(1)]);
    b.insert(MaterialId(1), 20, vec![rec(2)]);
    b.insert(MaterialId(0), 11, vec![rec(3)]);
    b.insert(MaterialId(0), 10, vec![rec(4)]);
    b.insert(MaterialId(1), 20, vec![rec(5)]);
    assert_eq!(b.count(), 5);
    let groups = b.iter();
    assert_eq!(
        groups,
        vec![range(0, 10, 0, 2), range(0, 11, 2, 3), range(1, 20, 3, 5)]
    );
    let tags: Vec<u32> = b.data().iter().map(|r| r.model[0]).collect();
    assert_eq!(tags, vec![1, 4, 3, 2, 5]);
}

#[test]
fn unordered_batch_prunes_groups_left_empty() {
    let mut b: TwoLevelBatch<u32> = TwoLevelBatch::new();
    b.insert(MaterialId(0), 1, vec![1]);
    b.insert(MaterialId(1), 2, vec![2]);
    b.insert(MaterialId(1), 3, vec![3]);
    b.clear_inner();
    assert_eq!(b.count(), 0);
    assert_eq!(b.iter().len(), 3);
    b.insert(MaterialId(1), 3, vec![4]);
    b.prune();
    assert_eq!(b.iter(), vec![range(1, 3, 0, 1)]);
    assert_eq!(b.data(), vec![4]);
}

#[test]
fn prune_twice_leaves_the_groups_of_one_prune() {
    let mut b: TwoLevelBatch<u32> = TwoLevelBatch::new();
    b.insert(MaterialId(0), 1, vec![1]);
    b.insert(MaterialId(2), 5, vec![2, 3]);
    b.clear_inner();
    b.insert(MaterialId(2), 5, vec![9]);
    b.insert(MaterialId(3), 1, vec![8]);
    b.prune();
    let once = b.iter();
    b.prune();
    assert_eq!(b.iter(), once);
    assert_eq!(once, vec![range(2, 5, 0, 1), range(3, 1, 1, 2)]);
}

#[test]
fn empty_unordered_batch_has_no_groups() {
    let mut b: TwoLevelBatch<u32> = TwoLevelBatch::new();
    b.prune();
    assert_eq!(b.count(), 0);
    assert!(b.iter().is_empty());
    assert!(b.data().is_empty());
}
