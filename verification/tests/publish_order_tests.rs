use registry_publish::publish_order::{build_publish_order_graph, PublishOrderGraph};

fn names(items: &[&str]) -> Vec<String> {
    items.iter().map(|s| s.to_string()).collect()
}

fn edges(items: &[(&str, &str)]) -> Vec<(String, String)> {
    items.iter().map(|(a, b)| (a.to_string(), b.to_string())).collect()
}

fn graph(members: &[&str], dependencies: &[(&str, &str)]) -> PublishOrderGraph {
    match build_publish_order_graph(&names(members), &edges(dependencies)) {
        Ok(graph) => graph,
        Err(cycle) => panic!("unexpected cycle: {:?}", cycle.names),
    }
}

fn cycle_of(members: &[&str], dependencies: &[(&str, &str)]) -> Vec<String> {
    match build_publish_order_graph(&names(members), &edges(dependencies)) {
        Ok(_) => panic!("expected a cycle"),
        Err(cycle) => cycle.names,
    }
}

fn assert_is_cycle(cycle: &[String], members: &[&str], dependencies: &[(&str, &str)]) {
    assert!(!cycle.is_empty());
    for (k, name) in cycle.iter().enumerate() {
        assert!(members.contains(&name.as_str()));
        let next = &cycle[(k + 1) % cycle.len()];
        assert!(
            dependencies.iter().any(|(a, b)| a == name && b == next),
            "{} does not depend on {}",
            name,
            next
        );
    }
}

#[test]
fn independent_packages_are_all_ready_at_once() {
    let mut graph = graph(&["a", "b", "c"], &[]);
    assert_eq!(graph.len(), 3);
    assert_eq!(graph.next(), names(&["a", "b", "c"]));
    assert_eq!(graph.next(), names(&[]));
    graph.finish_package("b");
    graph.finish_package("a");
    graph.finish_package("c");
    assert_eq!(graph.next(), names(&[]));
    assert!(graph.ensure_no_pending().is_ok());
}

#[test]
fn dependency_is_handed_out_first() {
    let mut graph = graph(&["a", "b"], &[("a", "b")]);
    assert_eq!(graph.next(), names(&["b"]));
    assert_eq!(graph.next(), names(&[]));
    graph.finish_package("b");
    assert_eq!(graph.next(), names(&["a"]));
    graph.finish_package("a");
    assert!(graph.ensure_no_pending().is_ok());
}

#[test]
fn chain_and_diamond_follow_the_edges() {
    let mut graph = graph(
        &["top", "left", "right", "base"],
        &[("top", "left"), ("top", "right"), ("left", "base"), ("right", "base")],
    );
    assert_eq!(graph.next(), names(&["base"]));
    graph.finish_package("base");
    assert_eq!(graph.next(), names(&["left", "right"]));
    graph.finish_package("left");
    assert_eq!(graph.next(), names(&[]));
    graph.finish_package("right");
    assert_eq!(graph.next(), names(&["top"]));
    graph.finish_package("top");
    assert!(graph.ensure_no_pending().is_ok());
}

#[test]
fn returned_order_is_topological() {
    let members = ["a", "b", "c", "d", "e", "f"];
    let dependencies =
        [("a", "b"), ("a", "c"), ("b", "d"), ("c", "d"), ("e", "a"), ("f", "d"), ("e", "f")];
    let mut graph = graph(&members, &dependencies);
    let mut order: Vec<String> = vec![];
    loop {
        let batch = graph.next();
        if batch.is_empty() {
            break;
        }
        for name in &batch {
            order.push(name.clone());
        }
        for name in &batch {
            graph.finish_package(name);
        }
    }
    assert_eq!(order.len(), members.len());
    for (a, b) in dependencies {
        let pa = order.iter().position(|n| n == a).unwrap();
        let pb = order.iter().position(|n| n == b).unwrap();
        assert!(pb < pa, "{} came before its dependency {}", a, b);
    }
    assert!(graph.ensure_no_pending().is_ok());
}

#[test]
fn third_party_dependencies_are_ignored() {
    let mut graph = graph(&["a", "b"], &[("a", "jsr:@std/fs"), ("npm:x", "a"), ("b", "a")]);
    assert_eq!(graph.next(), names(&["a"]));
    graph.finish_package("a");
    assert_eq!(graph.next(), names(&["b"]));
}

#[test]
fn repeated_members_and_edges_count_once() {
    let mut graph = graph(&["a", "b", "a", "b"], &[("a", "b"), ("a", "b")]);
    assert_eq!(graph.len(), 2);
    assert_eq!(graph.name(0), "a");
    assert_eq!(graph.name(1), "b");
    assert_eq!(graph.next(), names(&["b"]));
    graph.finish_package("b");
    assert_eq!(graph.next(), names(&["a"]));
}

#[test]
fn empty_workspace_is_done_at_once() {
    let mut graph = graph(&[], &[("a", "b")]);
    assert_eq!(graph.len(), 0);
    assert_eq!(graph.next(), names(&[]));
    assert!(graph.ensure_no_pending().is_ok());
}

#[test]
fn self_dependency_is_a_cycle() {
    let members = ["a", "b"];
    let dependencies = [("a", "a")];
    let cycle = cycle_of(&members, &dependencies);
    assert_eq!(cycle, names(&["a"]));
    assert_is_cycle(&cycle, &members, &dependencies);
}

#[test]
fn two_cycle_is_rejected() {
    let members = ["a", "b"];
    let dependencies = [("a", "b"), ("b", "a")];
    let cycle = cycle_of(&members, &dependencies);
    assert_eq!(cycle.len(), 2);
    assert_is_cycle(&cycle, &members, &dependencies);
}

#[test]
fn cycle_behind_a_tail_is_found() {
    let members = ["start", "x", "y", "z", "free"];
    let dependencies = [("start", "x"), ("x", "y"), ("y", "z"), ("z", "x"), ("free", "start")];
    let cycle = cycle_of(&members, &dependencies);
    assert_eq!(cycle.len(), 3);
    assert_is_cycle(&cycle, &members, &dependencies);
    assert!(!cycle.contains(&"start".to_string()));
    assert!(!cycle.contains(&"free".to_string()));
    let error = build_publish_order_graph(&names(&members), &edges(&dependencies)).err().unwrap();
    assert_eq!(
        error.message(),
        format!("Circular package dependency detected: {}", cycle.join(" -> "))
    );
}

#[test]
fn cycle_through_a_non_member_is_no_cycle() {
    let mut graph = graph(&["a", "b"], &[("a", "outside"), ("outside", "a"), ("b", "a")]);
    assert_eq!(graph.next(), names(&["a"]));
}

#[test]
fn pending_packages_keep_the_run_from_being_done() {
    let mut graph = graph(&["a", "b", "c"], &[("a", "b")]);
    assert!(graph.ensure_no_pending().is_err());
    assert_eq!(graph.next(), names(&["b", "c"]));
    match graph.ensure_no_pending() {
        Err(left) => {
            assert_eq!(left.names, names(&["a", "b", "c"]));
            assert_eq!(
                left.message(),
                "Publishing ended with packages that could not be published: a, b, c"
            );
        }
        Ok(()) => panic!("three packages are unfinished"),
    }
    graph.finish_package("c");
    graph.finish_package("b");
    assert!(graph.ensure_no_pending().is_ok());
    assert_eq!(graph.next(), names(&["a"]));
    match graph.ensure_no_pending() {
        Err(left) => assert_eq!(left.names, names(&["a"])),
        Ok(()) => panic!("one package is in flight"),
    }
    graph.finish_package("a");
    assert!(graph.ensure_no_pending().is_ok());
}

#[test]
fn finishing_what_is_not_in_flight_changes_nothing() {
    let mut graph = graph(&["a", "b"], &[("a", "b")]);
    graph.finish_package("b");
    graph.finish_package("unknown");
    assert_eq!(graph.next(), names(&["b"]));
    graph.finish_package("a");
    assert_eq!(graph.next(), names(&[]));
    graph.finish_package("b");
    graph.finish_package("b");
    assert_eq!(graph.next(), names(&["a"]));
    graph.finish_package("a");
    assert_eq!(graph.next(), names(&[]));
    assert!(graph.ensure_no_pending().is_ok());
}

#[test]
fn next_nodes_numbers_the_ready_packages() {
    let mut graph = graph(&["a", "b", "c"], &[("b", "a")]);
    assert_eq!(graph.next_nodes(), vec![0, 2]);
    assert_eq!(graph.next_nodes(), Vec::<usize>::new());
    graph.finish_package("a");
    assert_eq!(graph.next_nodes(), vec![1]);
}
