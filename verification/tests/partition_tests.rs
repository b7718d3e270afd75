use rust_phi::partition::MechanismPartitionIterator;
use rust_phi::partition::SystemPartitionIterator;
use rust_phi::partition::MechanismPartition;
use rust_phi::partition::SystemPartition;

#[test]
fn test_mechanism_partition_iterator_counts() {
    // For p purview indices and m mechanism indices there are
    // 2^(p + m - 1) - 1 non-trivial partitions.
    let mut it = MechanismPartitionIterator::construct(2, 1);
    let mut count = 0;
    while let Some(_) = it.next() {
        count += 1;
    }
    assert_eq!(count, 3);
}

#[test]
fn test_mechanism_partition_sides() {
    // Counter 1 sends mechanism index 0 right and every purview index
    // left.
    let mut it = MechanismPartitionIterator::construct(2, 1);
    let first = it.next().unwrap();
    assert_eq!(first.left_mechanism, Vec::<usize>::new());
    assert_eq!(first.right_mechanism, vec![0]);
    assert_eq!(first.left_purview, vec![0, 1]);
    assert_eq!(first.right_purview, Vec::<usize>::new());
    // Counter 2 keeps the mechanism left and sends purview index 0
    // right.
    let second = it.next().unwrap();
    assert_eq!(second.left_mechanism, vec![0]);
    assert_eq!(second.right_mechanism, Vec::<usize>::new());
    assert_eq!(second.left_purview, vec![1]);
    assert_eq!(second.right_purview, vec![0]);
}

#[test]
fn test_mechanism_partition_null() {
    let p = MechanismPartition::null_partition();
    assert!(p.left_purview.is_empty());
    assert!(p.left_mechanism.is_empty());
    assert!(p.right_purview.is_empty());
    assert!(p.right_mechanism.is_empty());
}

#[test]
fn test_system_partition_iterator() {
    // Over 2 elements the cuts are the two orientations of {0} | {1}.
    let mut it = SystemPartitionIterator::construct(2);
    let first = it.next().unwrap();
    assert_eq!(first.cut_from, vec![1]);
    assert_eq!(first.cut_to, vec![0]);
    let second = it.next().unwrap();
    assert_eq!(second.cut_from, vec![0]);
    assert_eq!(second.cut_to, vec![1]);
    assert!(it.next().is_none());
}

#[test]
fn test_system_partition_iterator_three_elements() {
    // Over 3 elements: counters 1 through 6.
    let mut it = SystemPartitionIterator::construct(3);
    let mut count = 0;
    while let Some(p) = it.next() {
        assert_eq!(p.cut_from.len() + p.cut_to.len(), 3);
        assert!(!p.cut_to.is_empty());
        assert!(!p.cut_from.is_empty());
        count += 1;
    }
    assert_eq!(count, 6);
}

#[test]
fn test_system_partition_null() {
    let p = SystemPartition::null_partition();
    assert!(p.cut_from.is_empty());
    assert!(p.cut_to.is_empty());
}
