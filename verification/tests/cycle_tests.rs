use registry_publish::cycle::{all_false, find_cycle};

fn assert_round_trip(graph: &Vec<Vec<usize>>, cycle: &[usize]) {
    assert!(!cycle.is_empty());
    for (k, node) in cycle.iter().enumerate() {
        let next = cycle[(k + 1) % cycle.len()];
        assert!(graph[*node].contains(&next), "{} does not depend on {}", node, next);
    }
}

#[test]
fn graphs_without_cycles_have_none() {
    assert_eq!(find_cycle(&vec![]), None);
    assert_eq!(find_cycle(&vec![vec![]]), None);
    assert_eq!(find_cycle(&vec![vec![1, 2], vec![2], vec![]]), None);
    assert_eq!(find_cycle(&vec![vec![], vec![0], vec![1], vec![2, 0]]), None);
    assert_eq!(find_cycle(&vec![vec![3], vec![0], vec![1], vec![]]), None);
}

#[test]
fn cycles_are_found() {
    let loop_on_itself = vec![vec![], vec![1]];
    assert_eq!(find_cycle(&loop_on_itself), Some(vec![1]));

    let pair = vec![vec![1], vec![0]];
    assert_round_trip(&pair, &find_cycle(&pair).unwrap());

    let tail_then_ring = vec![vec![1], vec![2], vec![3], vec![1], vec![]];
    let found = find_cycle(&tail_then_ring).unwrap();
    assert_eq!(found.len(), 3);
    assert_round_trip(&tail_then_ring, &found);

    let two_rings = vec![vec![1], vec![0], vec![3], vec![2]];
    assert_round_trip(&two_rings, &find_cycle(&two_rings).unwrap());

    let ring_with_exits = vec![vec![4, 1], vec![4, 2], vec![0, 4], vec![0], vec![]];
    let found = find_cycle(&ring_with_exits).unwrap();
    assert_round_trip(&ring_with_exits, &found);
    assert!(!found.contains(&4));
    assert!(!found.contains(&3));
}

#[test]
fn all_false_sets_nothing() {
    assert_eq!(all_false(0), Vec::<bool>::new());
    assert_eq!(all_false(3), vec![false, false, false]);
}
