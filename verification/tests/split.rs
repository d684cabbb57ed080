use blueos_logic::catalog::split::{components, consensus_over, group_by_key, group_by_text_key, membership};

#[test]
fn membership_maps_items_to_groups() {
    let groups = vec![vec![0, 2], vec![1]];
    assert_eq!(membership(&groups, 4), vec![0, 1, 0, usize::MAX]);
}

#[test]
fn membership_later_group_wins_for_repeated_item() {
    let groups = vec![vec![0, 1], vec![1]];
    assert_eq!(membership(&groups, 2), vec![0, 1]);
}

#[test]
fn consensus_majority_clusters_and_pair_order() {
    let partitions = vec![
        vec![vec![0, 1], vec![2, 3]],
        vec![vec![0, 1, 2], vec![3]],
        vec![vec![0], vec![1, 2], vec![3]],
    ];
    let result = consensus_over(&partitions, 4);
    assert_eq!(result.total, 3);
    assert_eq!(result.majority_threshold, 2);
    assert_eq!(result.pair_agreement, vec![(0, 1, 2), (1, 2, 2), (0, 2, 1), (2, 3, 1)]);
    assert_eq!(result.clusters, vec![vec![0, 1, 2], vec![3]]);
}

#[test]
fn consensus_with_no_partitions_keeps_items_apart() {
    let result = consensus_over(&[], 3);
    assert_eq!(result.total, 0);
    assert_eq!(result.majority_threshold, 1);
    assert!(result.pair_agreement.is_empty());
    assert_eq!(result.clusters, vec![vec![0], vec![1], vec![2]]);
}

#[test]
fn consensus_ignores_items_no_partition_lists() {
    let partitions = vec![vec![vec![0, 2]], vec![vec![0, 2]]];
    let result = consensus_over(&partitions, 3);
    assert_eq!(result.pair_agreement, vec![(0, 2, 2)]);
    assert_eq!(result.clusters, vec![vec![0, 2], vec![1]]);
}

#[test]
fn components_follow_edges_transitively() {
    let agree = vec![
        vec![0, 0, 0, 3, 0],
        vec![0, 0, 0, 0, 0],
        vec![0, 0, 0, 0, 5],
        vec![0, 0, 0, 0, 2],
        vec![0, 0, 0, 0, 0],
    ];
    assert_eq!(components(5, &agree, 2), vec![vec![0, 2, 3, 4], vec![1]]);
    assert_eq!(components(5, &agree, 4), vec![vec![0], vec![1], vec![2, 4], vec![3]]);
}

#[test]
fn components_read_only_the_upper_triangle() {
    let agree = vec![vec![0, 0], vec![9, 0]];
    assert_eq!(components(2, &agree, 1), vec![vec![0], vec![1]]);
}

#[test]
fn group_by_key_sorts_groups_by_key() {
    let keys: Vec<u64> = vec![30, 10, 30, 20, 10];
    assert_eq!(group_by_key(&keys), vec![vec![1, 4], vec![3], vec![0, 2]]);
    assert!(group_by_key(&[]).is_empty());
}

#[test]
fn text_keys_group_in_key_order() {
    let keys: Vec<String> = ["b", "a", "b", "c", "a", "ab"].iter().map(|k| k.to_string()).collect();
    assert_eq!(group_by_text_key(&keys), vec![vec![1, 4], vec![5], vec![0, 2], vec![3]]);
    assert!(group_by_text_key(&[]).is_empty());
}
