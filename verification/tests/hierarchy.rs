use codex_usage::hierarchy::{classify, walk_step, Walk};
use std::collections::BTreeMap;

type Graph = BTreeMap<String, Option<String>>;

/// The effective parent of a session, walking its candidate parents with the library's
/// walk decisions and classifying the start of the walk.
fn effective_parent(graph: &Graph, node: &str) -> Option<String> {
    let mut visits: Vec<String> = Vec::new();
    let mut cursor = Some(node.to_string());
    let cycle_start = loop {
        let seen = cursor
            .as_ref()
            .and_then(|c| visits.iter().position(|v| v == c))
            .map(|i| i as i64);
        match walk_step(cursor.is_some(), seen, None, 1) {
            Walk::Finish => break None,
            Walk::Cycle(start) => break Some(start),
            Walk::Visit => {
                let current = cursor.take().unwrap();
                cursor = graph.get(&current).cloned().flatten();
                visits.push(current);
            }
        }
    };
    let parent = graph.get(node).cloned().flatten();
    classify(node, 0, cycle_start, parent, "available").0
}

/// The reference: a session keeps its candidate parent unless it lies on a cycle.
fn compare(graph: &Graph) {
    for (node, parent) in graph {
        let mut seen = std::collections::BTreeSet::new();
        let mut cursor = parent.as_ref();
        let mut cycle_member = false;
        while let Some(next) = cursor {
            if next == node {
                cycle_member = true;
                break;
            }
            if !seen.insert(next) {
                break;
            }
            cursor = graph.get(next).and_then(|value| value.as_ref());
        }
        let expected = if cycle_member { None } else { parent.clone() };
        assert_eq!(effective_parent(graph, node), expected, "node {node}");
    }
}

#[test]
fn hierarchy_reference_matches_long_chains_fanout_and_generated_mutations() {
    let mut graph = Graph::new();
    for n in 0..90 {
        let node = format!("n{n:03}");
        let parent = (n < 89).then(|| format!("n{:03}", n + 1));
        graph.insert(node, parent);
    }
    compare(&graph);
    for n in 0..25 {
        graph.insert(format!("fan{n:03}"), Some("n020".into()));
    }
    // Cycle appears, breaks, reappears; incoming descendants retain their own edges.
    for parent in [Some("n030"), None, Some("n030"), Some("n089"), None] {
        graph.insert("n089".into(), parent.map(str::to_owned));
        compare(&graph);
    }
    let mut random = 17u64;
    for step in 0..180 {
        random = random.wrapping_mul(6364136223846793005).wrapping_add(1);
        let node = format!("n{:03}", (random >> 32) % 90);
        let parent = (step % 7 != 0).then(|| format!("n{:03}", (random >> 16) % 90));
        graph.insert(node, parent);
        if step % 13 == 0 {
            compare(&graph);
        }
    }
    compare(&graph);
}

#[test]
fn hierarchy_cycle_orders_and_duplicate_candidates_are_stable() {
    for order in [[0, 1, 2], [2, 1, 0], [1, 2, 0], [1, 0, 2], [0, 2, 1], [2, 0, 1]] {
        let mut graph = Graph::new();
        for n in order {
            graph.insert(format!("n{n}"), Some(format!("n{}", (n + 1) % 3)));
            compare(&graph);
        }
        graph.insert("child".into(), Some("n0".into()));
        compare(&graph);
        graph.insert("child".into(), Some("n0".into()));
        assert_eq!(effective_parent(&graph, "child"), Some("n0".into()));
    }
}
