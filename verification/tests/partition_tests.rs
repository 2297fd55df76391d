use cap_consensus::partition::PartitionTable;

fn sorted(mut v: Vec<usize>) -> Vec<usize> {
    v.sort();
    v
}

fn all_members(t: &PartitionTable) -> Vec<usize> {
    let mut all = Vec::new();
    for g in 0..t.num_groups() {
        all.extend(t.group(g));
    }
    sorted(all)
}

#[test]
fn test_network_creation() {
    // A new network starts fully connected: one group with every node.
    let t = PartitionTable::fully_connected(5);
    assert_eq!(t.num_nodes(), 5);
    assert_eq!(t.num_groups(), 1);
    assert_eq!(t.group(0), vec![0, 1, 2, 3, 4]);
}

#[test]
fn test_partition_detection() {
    let full = PartitionTable::fully_connected(4);
    for id in 0..4 {
        assert!(!full.is_partitioned(id));
    }
    let split = PartitionTable::random_split(4);
    for id in 0..4 {
        assert!(split.is_partitioned(id));
    }
}

#[test]
fn fully_connected_peers_are_all_others() {
    let t = PartitionTable::fully_connected(4);
    assert_eq!(t.peer_ids(2), vec![0, 1, 3]);
    assert_eq!(t.peer_ids(0), vec![1, 2, 3]);
}

#[test]
fn single_node_has_no_peers() {
    let t = PartitionTable::fully_connected(1);
    assert!(!t.is_partitioned(0));
    assert!(t.peer_ids(0).is_empty());
}

#[test]
fn empty_network_has_one_empty_group() {
    let t = PartitionTable::fully_connected(0);
    assert_eq!(t.num_groups(), 1);
    assert!(t.group(0).is_empty());
}

#[test]
fn split_halves_keeps_the_given_order() {
    let t = PartitionTable::split_halves(vec![3, 0, 4, 1, 2], 5);
    assert_eq!(t.num_groups(), 2);
    assert_eq!(t.group(0), vec![3, 0]);
    assert_eq!(t.group(1), vec![4, 1, 2]);
    assert_eq!(t.peer_ids(0), vec![3]);
    assert_eq!(t.peer_ids(1), vec![4, 2]);
    assert!(t.is_partitioned(4));
}

#[test]
fn random_split_makes_two_halves_of_all_nodes() {
    for n in 0..12 {
        let t = PartitionTable::random_split(n);
        assert_eq!(t.num_groups(), 2);
        assert_eq!(t.group(0).len(), n / 2);
        assert_eq!(t.group(1).len(), n - n / 2);
        assert_eq!(all_members(&t), (0..n).collect::<Vec<usize>>());
    }
}

#[test]
fn random_split_of_one_node_leaves_it_connected() {
    let t = PartitionTable::random_split(1);
    assert!(!t.is_partitioned(0));
    assert!(t.peer_ids(0).is_empty());
}

#[test]
fn peers_are_symmetric_and_exclude_self() {
    let t = PartitionTable::random_split(7);
    for a in 0..7 {
        let pa = t.peer_ids(a);
        assert!(!pa.contains(&a));
        for b in 0..7 {
            assert_eq!(pa.contains(&b), t.peer_ids(b).contains(&a));
        }
    }
}

#[test]
fn partitioned_iff_fewer_than_all_other_peers() {
    let t = PartitionTable::random_split(6);
    for id in 0..6 {
        assert_eq!(t.is_partitioned(id), t.peer_ids(id).len() + 1 < 6);
        assert_eq!(t.peer_ids(id).len(), 2);
    }
}

#[test]
fn for_step_splits_every_tenth_step() {
    let t = PartitionTable::for_step(20, 6);
    assert_eq!(t.num_groups(), 2);
    assert_eq!(all_members(&t), vec![0, 1, 2, 3, 4, 5]);
    let u = PartitionTable::for_step(15, 6);
    assert_eq!(u.num_groups(), 1);
    assert_eq!(u.group(0), vec![0, 1, 2, 3, 4, 5]);
}

#[test]
fn shuffled_ids_are_a_permutation() {
    for n in 0..10 {
        let order = cap_consensus::partition::shuffled_node_ids(n);
        assert_eq!(sorted(order), (0..n).collect::<Vec<usize>>());
    }
}

#[test]
fn node_ids_counts_up() {
    assert_eq!(cap_consensus::partition::node_ids(4), vec![0, 1, 2, 3]);
    assert!(cap_consensus::partition::node_ids(0).is_empty());
}

#[test]
fn shuffled_ids_change_the_order() {
    let identity: Vec<usize> = (0..20).collect();
    let moved = (0..20).any(|_| cap_consensus::partition::shuffled_node_ids(20) != identity);
    assert!(moved);
}
