//! What linking means, stated over the model of the crate graph.

use crate::model::{
    lemma_add_edge_keeps_reaches, lemma_add_edge_reaches, lemma_add_edge_wf,
    lemma_push_crate_wf, lemma_reaches_self, lemma_reaches_then_step, root_index, stdlib_index,
    EdgeModel, GraphModel,
};
use vstd::prelude::*;

verus! {

/// A declared dependency as the contracts see it.
pub struct DependencyModel {
    pub name: Seq<char>,
    pub package_root: Seq<char>,
}

/// How linking one library, or a list of them, ended.
pub enum LinkVerdict {
    /// Every edge was added.
    Linked,
    /// The declared name is empty or holds a hyphen.
    MalformedName { name: Seq<char> },
    /// An edge to the library declared under this name would have closed a
    /// cycle.
    Cycle { library: Seq<char> },
}

/// A crate name is well formed when it is not empty and holds no hyphen.
pub open spec fn valid_crate_name(name: Seq<char>) -> bool {
    name.len() > 0 && forall|i: int| 0 <= i < name.len() ==> name[i] != '-'
}

/// The entry source unit of a library: `src/lib.nr` below its package root,
/// with one separator between the two unless the root is empty or ends in one.
pub open spec fn entry_path(package_root: Seq<char>) -> Seq<char> {
    if package_root.len() == 0 || package_root.last() == '/' {
        package_root + "src/lib.nr"@
    } else {
        package_root + "/"@ + "src/lib.nr"@
    }
}

/// Whether the full mesh gives crate `c` an edge to `library` once it has
/// come to crate `bound`: every crate below `bound` but the builtin crate,
/// the root crate and the library itself.
pub open spec fn in_mesh(c: int, library: int, bound: int) -> bool {
    c != stdlib_index() && c != root_index() && c != library && 0 <= c < bound
}

/// The graph in which every crate of the mesh below `bound` has one more
/// edge, called `name`, to `library`.
pub open spec fn full_mesh(g: GraphModel, name: Seq<char>, library: int, bound: int) -> GraphModel {
    GraphModel {
        sources: g.sources,
        edges: Seq::new(
            g.edges.len(),
            |c: int|
                if in_mesh(c, library, bound) {
                    g.edges[c].push(EdgeModel { name, target: library })
                } else {
                    g.edges[c]
                },
        ),
    }
}

/// An edge from crate `c` of the mesh to `library` would close a cycle.
pub open spec fn blocks(g: GraphModel, library: int, c: int) -> bool {
    c != stdlib_index() && c != root_index() && c != library && g.reaches(library, c)
}

/// The first crate from `from` on that blocks `library`, or the number of
/// crates if there is none.
pub open spec fn first_blocking(g: GraphModel, library: int, from: int) -> int
    decreases g.len() - from,
{
    if from >= g.len() {
        g.len()
    } else if blocks(g, library, from) {
        from
    } else {
        first_blocking(g, library, from + 1)
    }
}

/// The full mesh for one library: in the order of registration, every crate
/// but the builtin crate, the root crate and the library itself gets an edge
/// to the library under `name`, up to the first crate whose edge would close
/// a cycle.
pub open spec fn propagate(g: GraphModel, name: Seq<char>, library: int) -> GraphModel {
    full_mesh(g, name, library, first_blocking(g, library, 0))
}

/// Whether the full mesh for `library` meets an edge that would close a
/// cycle.
pub open spec fn propagation_blocked(g: GraphModel, library: int) -> bool {
    first_blocking(g, library, 0) < g.len()
}

/// Linking one declared dependency. Its entry source unit is registered; the
/// root crate gets an edge to it under the declared name; then the full mesh
/// is laid. Linking stops with the graph as it then is at a malformed name,
/// which is found after the registration, and at the first edge that would
/// close a cycle.
pub open spec fn link_library(g: GraphModel, library: DependencyModel) -> (GraphModel, LinkVerdict) {
    let source = entry_path(library.package_root);
    let registered = g.register(source);
    let id = g.registered_index(source);
    if !valid_crate_name(library.name) {
        (registered, LinkVerdict::MalformedName { name: library.name })
    } else if registered.reaches(id, root_index()) {
        (registered, LinkVerdict::Cycle { library: library.name })
    } else {
        let rooted = registered.add_edge(root_index(), library.name, id);
        (
            propagate(rooted, library.name, id),
            if propagation_blocked(rooted, id) {
                LinkVerdict::Cycle { library: library.name }
            } else {
                LinkVerdict::Linked
            },
        )
    }
}

/// Linking a list of declared dependencies in order, up to the first that
/// fails.
pub open spec fn link_all(g: GraphModel, libraries: Seq<DependencyModel>) -> (
    GraphModel,
    LinkVerdict,
)
    decreases libraries.len(),
{
    if libraries.len() == 0 {
        (g, LinkVerdict::Linked)
    } else {
        let (linked, verdict) = link_all(g, libraries.drop_last());
        if verdict is Linked {
            link_library(linked, libraries.last())
        } else {
            (linked, verdict)
        }
    }
}

/// Before the mesh has come to the first library, it has changed nothing.
pub proof fn lemma_full_mesh_start(g: GraphModel, name: Seq<char>, library: int, bound: int)
    requires
        g.sources.len() == g.edges.len(),
        bound <= 2,
    ensures
        full_mesh(g, name, library, bound) == g,
{
    let h = full_mesh(g, name, library, bound);
    assert(h.edges =~= g.edges);
}

/// Coming to crate `bound` adds at most the edge of that crate.
pub proof fn lemma_full_mesh_next(g: GraphModel, name: Seq<char>, library: int, bound: int)
    requires
        0 <= bound < g.len(),
    ensures
        full_mesh(g, name, library, bound + 1) == if in_mesh(bound, library, bound + 1) {
            full_mesh(g, name, library, bound).add_edge(bound, name, library)
        } else {
            full_mesh(g, name, library, bound)
        },
{
    let h = full_mesh(g, name, library, bound);
    let next = full_mesh(g, name, library, bound + 1);
    if in_mesh(bound, library, bound + 1) {
        assert(next.edges =~= h.add_edge(bound, name, library).edges);
    } else {
        assert(next.edges =~= h.edges);
    }
}

/// The mesh adds only edges that end at the library.
pub proof fn lemma_full_mesh_step(
    g: GraphModel,
    name: Seq<char>,
    library: int,
    bound: int,
    a: int,
    b: int,
)
    ensures
        g.step(a, b) ==> full_mesh(g, name, library, bound).step(a, b),
        full_mesh(g, name, library, bound).step(a, b) ==> g.step(a, b) || b == library,
{
    let h = full_mesh(g, name, library, bound);
    if g.step(a, b) {
        let j = choose|j: int| 0 <= j < g.edges[a].len() && (#[trigger] g.edges[a][j]).target == b;
        assert(h.edges[a][j] == g.edges[a][j]);
    }
    if h.step(a, b) {
        let j = choose|j: int| 0 <= j < h.edges[a].len() && (#[trigger] h.edges[a][j]).target == b;
        if j < g.edges[a].len() {
            assert(h.edges[a][j] == g.edges[a][j]);
        }
    }
}

/// Along a walk that starts at the library, the graph without the mesh
/// reaches every crate too.
proof fn lemma_full_mesh_path(
    g: GraphModel,
    name: Seq<char>,
    library: int,
    bound: int,
    p: Seq<int>,
    k: int,
)
    requires
        g.contains(library),
        full_mesh(g, name, library, bound).is_path(p),
        p[0] == library,
        0 <= k < p.len(),
    ensures
        g.reaches(library, p[k]),
    decreases k,
{
    let h = full_mesh(g, name, library, bound);
    if k == 0 {
        lemma_reaches_self(g, library);
    } else {
        lemma_full_mesh_path(g, name, library, bound, p, k - 1);
        assert(h.link_at(p, k - 1));
        lemma_full_mesh_step(g, name, library, bound, p[k - 1], p[k]);
        if g.step(p[k - 1], p[k]) {
            lemma_reaches_then_step(g, library, p[k - 1], p[k]);
        } else {
            lemma_reaches_self(g, library);
        }
    }
}

/// What the library reaches is the same with and without the mesh laid to
/// it.
pub proof fn lemma_full_mesh_reaches(
    g: GraphModel,
    name: Seq<char>,
    library: int,
    bound: int,
    x: int,
)
    requires
        g.contains(library),
    ensures
        full_mesh(g, name, library, bound).reaches(library, x) <==> g.reaches(library, x),
{
    let h = full_mesh(g, name, library, bound);
    if h.reaches(library, x) {
        let p = choose|p: Seq<int>| #[trigger] h.is_path(p) && p.first() == library && p.last() == x;
        lemma_full_mesh_path(g, name, library, bound, p, p.len() - 1);
    }
    if g.reaches(library, x) {
        let p = choose|p: Seq<int>| #[trigger] g.is_path(p) && p.first() == library && p.last() == x;
        assert forall|i: int| 0 <= i < p.len() - 1 implies #[trigger] h.link_at(p, i) by {
            assert(g.link_at(p, i));
            lemma_full_mesh_step(g, name, library, bound, p[i], p[i + 1]);
        }
        assert(h.is_path(p));
    }
}

/// What the library reaches is the same with and without the root crate's
/// edge to it.
pub proof fn lemma_root_edge_reaches(g: GraphModel, name: Seq<char>, library: int, x: int)
    requires
        g.len() >= 2,
        g.contains(library),
    ensures
        g.add_edge(root_index(), name, library).reaches(library, x) <==> g.reaches(library, x),
{
    if g.add_edge(root_index(), name, library).reaches(library, x) {
        lemma_add_edge_reaches(g, root_index(), name, library, library, x);
    }
    if g.reaches(library, x) {
        lemma_add_edge_keeps_reaches(g, root_index(), name, library, library, x);
    }
}

/// No crate between `from` and the first blocking crate blocks.
pub proof fn lemma_first_blocking(g: GraphModel, library: int, from: int)
    requires
        0 <= from <= g.len(),
    ensures
        from <= first_blocking(g, library, from) <= g.len(),
        first_blocking(g, library, from) < g.len() ==> blocks(
            g,
            library,
            first_blocking(g, library, from),
        ),
        forall|c: int| from <= c < first_blocking(g, library, from) ==> !blocks(g, library, c),
    decreases g.len() - from,
{
    if from < g.len() && !blocks(g, library, from) {
        lemma_first_blocking(g, library, from + 1);
    }
}

/// The first blocking crate is the one before which none blocks.
pub proof fn lemma_first_blocking_is(g: GraphModel, library: int, from: int, stop: int)
    requires
        0 <= from <= stop <= g.len(),
        forall|c: int| from <= c < stop ==> !blocks(g, library, c),
        stop < g.len() ==> blocks(g, library, stop),
    ensures
        first_blocking(g, library, from) == stop,
    decreases stop - from,
{
    if from < stop {
        lemma_first_blocking_is(g, library, from + 1, stop);
    }
}

/// The root crate's edge changes nothing about which crates block.
pub proof fn lemma_root_edge_first_blocking(
    g: GraphModel,
    name: Seq<char>,
    library: int,
    from: int,
)
    requires
        g.len() >= 2,
        g.contains(library),
        0 <= from,
    ensures
        first_blocking(g.add_edge(root_index(), name, library), library, from) == first_blocking(
            g,
            library,
            from,
        ),
    decreases g.len() - from,
{
    if from < g.len() {
        lemma_root_edge_reaches(g, name, library, from);
        lemma_root_edge_first_blocking(g, name, library, from + 1);
    }
}

/// A mesh laid over crates that the library does not reach keeps the graph
/// well formed.
pub proof fn lemma_full_mesh_wf(g: GraphModel, name: Seq<char>, library: int, bound: int)
    requires
        g.wf(),
        g.contains(library),
        0 <= bound <= g.len(),
        forall|c: int| 0 <= c < bound ==> !blocks(g, library, c),
    ensures
        full_mesh(g, name, library, bound).wf(),
    decreases bound,
{
    if bound <= 2 {
        lemma_full_mesh_start(g, name, library, bound);
    } else {
        lemma_full_mesh_wf(g, name, library, bound - 1);
        lemma_full_mesh_next(g, name, library, bound - 1);
        if bound - 1 != library {
            let h = full_mesh(g, name, library, bound - 1);
            lemma_full_mesh_reaches(g, name, library, bound - 1, bound - 1);
            assert(!blocks(g, library, bound - 1));
            lemma_add_edge_wf(h, bound - 1, name, library);
        }
    }
}

/// The full mesh for a library keeps the graph well formed, whether or not
/// it is blocked.
pub proof fn lemma_propagate_wf(g: GraphModel, name: Seq<char>, library: int)
    requires
        g.wf(),
        g.contains(library),
    ensures
        propagate(g, name, library).wf(),
        propagate(g, name, library).len() == g.len(),
{
    lemma_first_blocking(g, library, 0);
    lemma_full_mesh_wf(g, name, library, first_blocking(g, library, 0));
}

/// Linking one library keeps the graph well formed, however it ends.
pub proof fn lemma_link_library_wf(g: GraphModel, library: DependencyModel)
    requires
        g.wf(),
    ensures
        link_library(g, library).0.wf(),
        link_library(g, library).0.len() >= g.len(),
{
    let source = entry_path(library.package_root);
    let registered = g.register(source);
    let id = g.registered_index(source);
    lemma_register_wf(g, source);
    if valid_crate_name(library.name) && !registered.reaches(id, root_index()) {
        lemma_add_edge_wf(registered, root_index(), library.name, id);
        lemma_propagate_wf(registered.add_edge(root_index(), library.name, id), library.name, id);
    }
}

/// Registering a source keeps the graph well formed and yields one of its
/// crates, which is not the builtin one.
pub proof fn lemma_register_wf(g: GraphModel, source: Seq<char>)
    requires
        g.wf(),
    ensures
        g.register(source).wf(),
        g.register(source).len() >= g.len(),
        g.register(source).contains(g.registered_index(source)),
        g.registered_index(source) != stdlib_index(),
        g.register(source).sources[g.registered_index(source)] == Some(source),
{
    if g.find_source(source) is None {
        lemma_push_crate_wf(g, source);
    }
}

/// Linking a list of libraries keeps the graph well formed, however it ends.
pub proof fn lemma_link_all_wf(g: GraphModel, libraries: Seq<DependencyModel>)
    requires
        g.wf(),
    ensures
        link_all(g, libraries).0.wf(),
    decreases libraries.len(),
{
    if libraries.len() > 0 {
        lemma_link_all_wf(g, libraries.drop_last());
        let (linked, verdict) = link_all(g, libraries.drop_last());
        if verdict is Linked {
            lemma_link_library_wf(linked, libraries.last());
        }
    }
}

/// Once a prefix of the list has failed, the rest is not linked.
pub proof fn lemma_link_all_stops(g: GraphModel, libraries: Seq<DependencyModel>, k: int)
    requires
        0 <= k <= libraries.len(),
        !(link_all(g, libraries.subrange(0, k)).1 is Linked),
    ensures
        link_all(g, libraries) == link_all(g, libraries.subrange(0, k)),
    decreases libraries.len() - k,
{
    if k < libraries.len() {
        let longer = libraries.subrange(0, k + 1);
        assert(longer.drop_last() =~= libraries.subrange(0, k));
        lemma_link_all_stops(g, libraries, k + 1);
    } else {
        assert(libraries.subrange(0, k) =~= libraries);
    }
}

} // verus!
