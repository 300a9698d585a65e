use noir_wasm::errors::{CompileError, Severity};
use noir_wasm::graph::{CrateGraph, CrateId, CyclicDependenciesError, Edge};
use noir_wasm::linker::{
    add_noir_lib, is_valid_crate_name, library_entry_path, link_dependencies,
    propagate_full_mesh, Dependency,
};

fn text(value: &str) -> String {
    value.to_string()
}

fn dep(name: &str, package_root: &str) -> Dependency {
    Dependency { name: text(name), package_root: text(package_root) }
}

fn edge(name: &str, index: usize) -> Edge {
    Edge { name: text(name), target: CrateId { index } }
}

#[test]
fn crate_names_must_be_non_empty_without_hyphen() {
    assert!(is_valid_crate_name(&text("mylib")));
    assert!(is_valid_crate_name(&text("my_lib")));
    assert!(is_valid_crate_name(&text("a")));
    assert!(is_valid_crate_name(&text("lib2")));
    assert!(!is_valid_crate_name(&text("")));
    assert!(!is_valid_crate_name(&text("my-lib")));
    assert!(!is_valid_crate_name(&text("-")));
    assert!(!is_valid_crate_name(&text("lib-")));
}

#[test]
fn entry_path_joins_root_and_entry_file() {
    assert_eq!(library_entry_path(&text("lib")), "lib/src/lib.nr");
    assert_eq!(library_entry_path(&text("/deps/foo")), "/deps/foo/src/lib.nr");
    assert_eq!(library_entry_path(&text("lib/")), "lib/src/lib.nr");
    assert_eq!(library_entry_path(&text("/")), "/src/lib.nr");
    assert_eq!(library_entry_path(&text("")), "src/lib.nr");
    assert_eq!(library_entry_path(&text("été")), "été/src/lib.nr");
}

#[test]
fn linking_one_library_gives_the_root_an_edge() {
    let mut graph = CrateGraph::new(text("main.nr"));
    assert_eq!(add_noir_lib(&mut graph, dep("a", "lib_a")), Ok(()));
    assert_eq!(graph.len(), 3);
    let a = CrateId { index: 2 };
    assert_eq!(graph.source(a), Some(text("lib_a/src/lib.nr")));
    assert_eq!(graph.edges(graph.root_crate_id()), vec![edge("a", 2)]);
    assert_eq!(graph.edges(a), Vec::<Edge>::new());
    assert_eq!(graph.edges(graph.stdlib_crate_id()), Vec::<Edge>::new());
}

#[test]
fn linking_nothing_leaves_the_root_without_library_edges() {
    let mut graph = CrateGraph::new(text("main.nr"));
    assert_eq!(link_dependencies(&mut graph, Vec::new()), Ok(()));
    assert_eq!(graph.len(), 2);
    assert_eq!(graph.edges(graph.root_crate_id()), Vec::<Edge>::new());
}

#[test]
fn earlier_libraries_gain_edges_to_later_ones() {
    let mut graph = CrateGraph::new(text("main.nr"));
    let deps = vec![dep("a", "lib_a"), dep("b", "lib_b"), dep("c", "lib_c")];
    assert_eq!(link_dependencies(&mut graph, deps), Ok(()));
    assert_eq!(graph.len(), 5);
    let root = graph.root_crate_id();
    let (a, b, c) = (CrateId { index: 2 }, CrateId { index: 3 }, CrateId { index: 4 });
    assert_eq!(graph.edges(root), vec![edge("a", 2), edge("b", 3), edge("c", 4)]);
    assert_eq!(graph.edges(a), vec![edge("b", 3), edge("c", 4)]);
    assert_eq!(graph.edges(b), vec![edge("c", 4)]);
    assert_eq!(graph.edges(c), Vec::<Edge>::new());
    assert_eq!(graph.edges(graph.stdlib_crate_id()), Vec::<Edge>::new());
    assert!(graph.has_edge(a, &text("b"), b));
    // the later library does not see the earlier one
    assert!(!graph.has_edge(b, &text("a"), a));
    assert_eq!(graph.resolve(b, &text("a")), None);
}

#[test]
fn library_named_like_the_root_entry_is_a_cycle() {
    let mut graph = CrateGraph::new(text("pkg/src/lib.nr"));
    let outcome = add_noir_lib(&mut graph, dep("me", "pkg"));
    assert_eq!(outcome, Err(CompileError::CyclicDependency { library: text("me") }));
    assert_eq!(graph.len(), 2);
    assert_eq!(graph.edges(graph.root_crate_id()), Vec::<Edge>::new());
}

#[test]
fn relinking_a_library_behind_a_later_one_is_a_cycle() {
    let mut graph = CrateGraph::new(text("main.nr"));
    let deps = vec![dep("a", "lib_a"), dep("b", "lib_b"), dep("a_again", "lib_a")];
    let outcome = link_dependencies(&mut graph, deps);
    let error = outcome.unwrap_err();
    assert_eq!(error, CompileError::CyclicDependency { library: text("a_again") });
    assert_eq!(error.severity(), Severity::Fatal);
    assert_eq!(error.message(), "ICE: Cyclic error triggered by a_again library");
    // the root's edge was added before the cycle was met; the edge from b
    // to a was refused
    assert_eq!(graph.len(), 4);
    assert_eq!(
        graph.edges(graph.root_crate_id()),
        vec![edge("a", 2), edge("b", 3), edge("a_again", 2)]
    );
    assert_eq!(graph.edges(CrateId { index: 2 }), vec![edge("b", 3)]);
    assert_eq!(graph.edges(CrateId { index: 3 }), Vec::<Edge>::new());
}

#[test]
fn linking_stops_at_the_first_edge_that_closes_a_cycle() {
    let mut graph = CrateGraph::new(text("main.nr"));
    let deps = vec![dep("a", "lib_a"), dep("b", "lib_b"), dep("c", "lib_c")];
    assert_eq!(link_dependencies(&mut graph, deps), Ok(()));
    // b leads to c, but not to a: a gets its edge, then c refuses
    let outcome = add_noir_lib(&mut graph, dep("b2", "lib_b/"));
    assert_eq!(outcome, Err(CompileError::CyclicDependency { library: text("b2") }));
    assert_eq!(graph.len(), 5);
    assert_eq!(
        graph.edges(graph.root_crate_id()),
        vec![edge("a", 2), edge("b", 3), edge("c", 4), edge("b2", 3)]
    );
    assert_eq!(graph.edges(CrateId { index: 2 }), vec![edge("b", 3), edge("c", 4), edge("b2", 3)]);
    assert_eq!(graph.edges(CrateId { index: 3 }), vec![edge("c", 4)]);
    assert_eq!(graph.edges(CrateId { index: 4 }), Vec::<Edge>::new());
}

#[test]
fn nothing_is_linked_behind_a_failed_dependency() {
    let mut graph = CrateGraph::new(text("main.nr"));
    let deps = vec![dep("a", "lib_a"), dep("bad-name", "lib_b"), dep("c", "lib_c")];
    let outcome = link_dependencies(&mut graph, deps);
    assert_eq!(outcome, Err(CompileError::MalformedDependencyName { name: text("bad-name") }));
    // the second library was registered before its name was read; the third
    // was not touched
    assert_eq!(graph.len(), 4);
    assert_eq!(graph.source(CrateId { index: 3 }), Some(text("lib_b/src/lib.nr")));
    assert_eq!(graph.edges(graph.root_crate_id()), vec![edge("a", 2)]);
    assert_eq!(graph.edges(CrateId { index: 2 }), Vec::<Edge>::new());
    assert_eq!(graph.edges(CrateId { index: 3 }), Vec::<Edge>::new());
}

#[test]
fn declaring_the_last_library_again_is_no_cycle() {
    let mut graph = CrateGraph::new(text("main.nr"));
    let deps = vec![dep("a", "lib_a"), dep("alias", "lib_a")];
    assert_eq!(link_dependencies(&mut graph, deps), Ok(()));
    assert_eq!(graph.len(), 3);
    assert_eq!(graph.edges(graph.root_crate_id()), vec![edge("a", 2), edge("alias", 2)]);
    assert_eq!(graph.edges(CrateId { index: 2 }), Vec::<Edge>::new());
}

#[test]
fn empty_name_is_malformed() {
    let mut graph = CrateGraph::new(text("main.nr"));
    let outcome = add_noir_lib(&mut graph, dep("", "lib_a"));
    let error = outcome.unwrap_err();
    assert_eq!(error, CompileError::MalformedDependencyName { name: text("") });
    assert!(error.is_fatal());
    assert_eq!(graph.len(), 3);
    assert_eq!(graph.edges(graph.root_crate_id()), Vec::<Edge>::new());
}

#[test]
fn shared_names_link_and_resolve_to_the_last_declared() {
    let mut graph = CrateGraph::new(text("main.nr"));
    let deps = vec![dep("dup", "first"), dep("other", "second"), dep("dup", "third")];
    assert_eq!(link_dependencies(&mut graph, deps), Ok(()));
    let root = graph.root_crate_id();
    let (first, second, third) = (CrateId { index: 2 }, CrateId { index: 3 }, CrateId { index: 4 });
    // both edges of the shared name are there
    assert!(graph.has_edge(root, &text("dup"), first));
    assert!(graph.has_edge(root, &text("dup"), third));
    assert_eq!(graph.edges(root), vec![edge("dup", 2), edge("other", 3), edge("dup", 4)]);
    // the name stands for the library declared last
    assert_eq!(graph.resolve(root, &text("dup")), Some(third));
    assert_eq!(graph.resolve(first, &text("dup")), Some(third));
    assert_eq!(graph.resolve(second, &text("dup")), Some(third));
    assert_eq!(graph.resolve(third, &text("dup")), None);
    assert_eq!(graph.resolve(root, &text("other")), Some(second));
}

#[test]
fn libraries_already_in_the_graph_gain_edges_too() {
    let mut graph = CrateGraph::new(text("main.nr"));
    let early = graph.add_crate(text("early/src/lib.nr"));
    assert_eq!(add_noir_lib(&mut graph, dep("late", "late")), Ok(()));
    assert_eq!(graph.edges(early), vec![edge("late", 3)]);
    assert_eq!(graph.edges(graph.root_crate_id()), vec![edge("late", 3)]);
}

#[test]
fn full_mesh_reaches_every_library_but_the_new_one() {
    let mut graph = CrateGraph::new(text("main.nr"));
    let a = graph.add_crate(text("a/src/lib.nr"));
    let b = graph.add_crate(text("b/src/lib.nr"));
    let c = graph.add_crate(text("c/src/lib.nr"));
    assert_eq!(propagate_full_mesh(&mut graph, &text("b"), b), Ok(()));
    assert_eq!(graph.edges(a), vec![edge("b", 3)]);
    assert_eq!(graph.edges(c), vec![edge("b", 3)]);
    // neither the library itself, nor the root crate, nor the builtin crate
    assert_eq!(graph.edges(b), Vec::<Edge>::new());
    assert_eq!(graph.edges(graph.root_crate_id()), Vec::<Edge>::new());
    assert_eq!(graph.edges(graph.stdlib_crate_id()), Vec::<Edge>::new());
}

#[test]
fn full_mesh_stops_at_the_first_refused_edge() {
    let mut graph = CrateGraph::new(text("main.nr"));
    let a = graph.add_crate(text("a/src/lib.nr"));
    let b = graph.add_crate(text("b/src/lib.nr"));
    let c = graph.add_crate(text("c/src/lib.nr"));
    let d = graph.add_crate(text("d/src/lib.nr"));
    graph.add_edge(b, text("c"), c).unwrap();
    // a takes the edge to b, c would close the cycle, d is not reached
    assert_eq!(
        propagate_full_mesh(&mut graph, &text("b"), b),
        Err(CyclicDependenciesError { from: c, to: b })
    );
    assert_eq!(graph.edges(a), vec![edge("b", 3)]);
    assert_eq!(graph.edges(b), vec![edge("c", 4)]);
    assert_eq!(graph.edges(c), Vec::<Edge>::new());
    assert_eq!(graph.edges(d), Vec::<Edge>::new());
}
