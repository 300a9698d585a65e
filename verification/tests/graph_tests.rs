use noir_wasm::graph::{CrateGraph, CrateId, CrateRole, CyclicDependenciesError, Edge};

fn s(text: &str) -> String {
    text.to_string()
}

#[test]
fn fresh_graph_has_builtin_and_root_crate() {
    let graph = CrateGraph::new(s("main.nr"));
    assert_eq!(graph.len(), 2);
    assert_eq!(graph.stdlib_crate_id(), CrateId { index: 0 });
    assert_eq!(graph.root_crate_id(), CrateId { index: 1 });
    assert_eq!(graph.role(graph.stdlib_crate_id()), CrateRole::Stdlib);
    assert_eq!(graph.role(graph.root_crate_id()), CrateRole::Root);
    assert_eq!(graph.role(CrateId { index: 2 }), CrateRole::Library);
    assert_eq!(graph.source(graph.stdlib_crate_id()), None);
    assert_eq!(graph.source(graph.root_crate_id()), Some(s("main.nr")));
    assert_eq!(graph.edges(graph.root_crate_id()), Vec::<Edge>::new());
    assert_eq!(graph.edges(graph.stdlib_crate_id()), Vec::<Edge>::new());
}

#[test]
fn iter_crate_ids_lists_every_crate_in_order_of_registration() {
    let mut graph = CrateGraph::new(s("main.nr"));
    let a = graph.add_crate(s("a/src/lib.nr"));
    let b = graph.add_crate(s("b/src/lib.nr"));
    assert_eq!(
        graph.iter_crate_ids(),
        vec![graph.stdlib_crate_id(), graph.root_crate_id(), a, b]
    );
    // the sequence can be asked for again and is the same
    assert_eq!(graph.iter_crate_ids(), graph.iter_crate_ids());
}

#[test]
fn add_crate_gives_new_sources_new_crates() {
    let mut graph = CrateGraph::new(s("main.nr"));
    let a = graph.add_crate(s("a/src/lib.nr"));
    let b = graph.add_crate(s("b/src/lib.nr"));
    assert_eq!(a, CrateId { index: 2 });
    assert_eq!(b, CrateId { index: 3 });
    assert_eq!(graph.len(), 4);
    assert_eq!(graph.source(a), Some(s("a/src/lib.nr")));
    assert_eq!(graph.source(b), Some(s("b/src/lib.nr")));
    assert_eq!(graph.edges(a), Vec::<Edge>::new());
}

#[test]
fn add_crate_keeps_the_crate_of_a_known_source() {
    let mut graph = CrateGraph::new(s("main.nr"));
    let a = graph.add_crate(s("a/src/lib.nr"));
    let b = graph.add_crate(s("b/src/lib.nr"));
    assert_eq!(graph.add_crate(s("a/src/lib.nr")), a);
    assert_eq!(graph.add_crate(s("b/src/lib.nr")), b);
    assert_eq!(graph.add_crate(s("main.nr")), graph.root_crate_id());
    assert_eq!(graph.len(), 4);
}

#[test]
fn add_edge_appends_behind_existing_edges() {
    let mut graph = CrateGraph::new(s("main.nr"));
    let root = graph.root_crate_id();
    let a = graph.add_crate(s("a/src/lib.nr"));
    let b = graph.add_crate(s("b/src/lib.nr"));
    assert_eq!(graph.add_edge(root, s("a"), a), Ok(()));
    assert_eq!(graph.add_edge(root, s("b"), b), Ok(()));
    assert_eq!(
        graph.edges(root),
        vec![Edge { name: s("a"), target: a }, Edge { name: s("b"), target: b }]
    );
    assert!(graph.has_edge(root, &s("a"), a));
    assert!(graph.has_edge(root, &s("b"), b));
    assert!(!graph.has_edge(root, &s("a"), b));
    assert!(!graph.has_edge(a, &s("b"), b));
    assert!(!graph.has_edge(CrateId { index: 9 }, &s("a"), a));
}

#[test]
fn add_edge_refuses_a_self_loop() {
    let mut graph = CrateGraph::new(s("main.nr"));
    let a = graph.add_crate(s("a/src/lib.nr"));
    assert_eq!(
        graph.add_edge(a, s("me"), a),
        Err(CyclicDependenciesError { from: a, to: a })
    );
    assert_eq!(graph.edges(a), Vec::<Edge>::new());
}

#[test]
fn add_edge_refuses_an_edge_that_closes_a_cycle() {
    let mut graph = CrateGraph::new(s("main.nr"));
    let a = graph.add_crate(s("a/src/lib.nr"));
    let b = graph.add_crate(s("b/src/lib.nr"));
    let c = graph.add_crate(s("c/src/lib.nr"));
    assert_eq!(graph.add_edge(a, s("b"), b), Ok(()));
    assert_eq!(graph.add_edge(b, s("c"), c), Ok(()));
    assert_eq!(
        graph.add_edge(c, s("a"), a),
        Err(CyclicDependenciesError { from: c, to: a })
    );
    assert_eq!(
        graph.add_edge(b, s("a"), a),
        Err(CyclicDependenciesError { from: b, to: a })
    );
    // a refused edge leaves the graph as it was
    assert_eq!(graph.edges(c), Vec::<Edge>::new());
    assert_eq!(graph.edges(b), vec![Edge { name: s("c"), target: c }]);
    // an edge in the direction of the others is still welcome
    assert_eq!(graph.add_edge(a, s("c"), c), Ok(()));
}

#[test]
fn reaches_follows_edges_forward_only() {
    let mut graph = CrateGraph::new(s("main.nr"));
    let root = graph.root_crate_id();
    let a = graph.add_crate(s("a/src/lib.nr"));
    let b = graph.add_crate(s("b/src/lib.nr"));
    let c = graph.add_crate(s("c/src/lib.nr"));
    graph.add_edge(root, s("a"), a).unwrap();
    graph.add_edge(a, s("b"), b).unwrap();
    graph.add_edge(a, s("c"), c).unwrap();
    assert!(graph.reaches(root, root));
    assert!(graph.reaches(root, a));
    assert!(graph.reaches(root, b));
    assert!(graph.reaches(root, c));
    assert!(graph.reaches(a, c));
    assert!(!graph.reaches(b, c));
    assert!(!graph.reaches(c, a));
    assert!(!graph.reaches(a, root));
    assert!(!graph.reaches(root, graph.stdlib_crate_id()));
    assert!(!graph.reaches(root, CrateId { index: 17 }));
    assert!(!graph.reaches(CrateId { index: 17 }, root));
}

#[test]
fn reaches_terminates_on_a_diamond() {
    let mut graph = CrateGraph::new(s("main.nr"));
    let a = graph.add_crate(s("a/src/lib.nr"));
    let b = graph.add_crate(s("b/src/lib.nr"));
    let c = graph.add_crate(s("c/src/lib.nr"));
    let d = graph.add_crate(s("d/src/lib.nr"));
    graph.add_edge(a, s("b"), b).unwrap();
    graph.add_edge(a, s("c"), c).unwrap();
    graph.add_edge(b, s("d"), d).unwrap();
    graph.add_edge(c, s("d"), d).unwrap();
    assert!(graph.reaches(a, d));
    assert!(!graph.reaches(d, a));
    assert!(!graph.reaches(b, c));
}

#[test]
fn resolve_gives_the_newest_edge_of_a_name() {
    let mut graph = CrateGraph::new(s("main.nr"));
    let root = graph.root_crate_id();
    let a = graph.add_crate(s("a/src/lib.nr"));
    let b = graph.add_crate(s("b/src/lib.nr"));
    assert_eq!(graph.resolve(root, &s("dep")), None);
    graph.add_edge(root, s("dep"), a).unwrap();
    assert_eq!(graph.resolve(root, &s("dep")), Some(a));
    graph.add_edge(root, s("other"), a).unwrap();
    graph.add_edge(root, s("dep"), b).unwrap();
    assert_eq!(graph.resolve(root, &s("dep")), Some(b));
    assert_eq!(graph.resolve(root, &s("other")), Some(a));
    assert_eq!(graph.resolve(root, &s("missing")), None);
    assert_eq!(graph.resolve(a, &s("dep")), None);
    // both edges are kept
    assert_eq!(graph.edges(root).len(), 3);
}

/// Whether `to` can be reached from `from` in `edges`, by exhaustive search.
fn reachable(edges: &[Vec<usize>], from: usize, to: usize) -> bool {
    let mut seen = vec![false; edges.len()];
    let mut stack = vec![from];
    seen[from] = true;
    while let Some(at) = stack.pop() {
        for &next in &edges[at] {
            if !seen[next] {
                seen[next] = true;
                stack.push(next);
            }
        }
    }
    seen[to]
}

#[test]
fn add_edge_agrees_with_exhaustive_search() {
    let crates = 14;
    let mut graph = CrateGraph::new(s("main.nr"));
    for i in 2..crates {
        assert_eq!(graph.add_crate(format!("lib{}/src/lib.nr", i)), CrateId { index: i });
    }
    let mut edges: Vec<Vec<usize>> = vec![Vec::new(); crates];
    let mut state: u64 = 0x2545_f491_4f6c_dd1d;
    let mut refused = 0;
    let mut added = 0;
    for round in 0..400 {
        state = state.wrapping_mul(6364136223846793005).wrapping_add(1442695040888963407);
        let from = ((state >> 33) % crates as u64) as usize;
        state = state.wrapping_mul(6364136223846793005).wrapping_add(1442695040888963407);
        let to = ((state >> 33) % crates as u64) as usize;
        let closes_cycle = reachable(&edges, to, from);
        let outcome =
            graph.add_edge(CrateId { index: from }, format!("e{}", round), CrateId { index: to });
        if closes_cycle {
            assert_eq!(
                outcome,
                Err(CyclicDependenciesError {
                    from: CrateId { index: from },
                    to: CrateId { index: to }
                })
            );
            refused += 1;
        } else {
            assert_eq!(outcome, Ok(()));
            edges[from].push(to);
            added += 1;
        }
        assert_eq!(graph.edges(CrateId { index: from }).len(), edges[from].len());
    }
    assert!(refused > 0 && added > 0);
    for from in 0..crates {
        for to in 0..crates {
            assert_eq!(
                graph.reaches(CrateId { index: from }, CrateId { index: to }),
                reachable(&edges, from, to)
            );
        }
    }
}
