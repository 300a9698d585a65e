//! What holds of a graph once libraries are linked into it: the full mesh
//! between them, when linking ends in a cyclic-dependency error, and what a
//! name shared by several libraries stands for.

use crate::linking::{
    blocks, entry_path, full_mesh, lemma_first_blocking, lemma_first_blocking_is,
    lemma_link_all_stops, lemma_link_all_wf, lemma_link_library_wf, lemma_register_wf,
    lemma_root_edge_first_blocking, link_all, link_library,
    valid_crate_name, DependencyModel, LinkVerdict,
};
use crate::model::{
    lemma_find_source_is, lemma_push_crate_wf, lemma_reaches_inside, lemma_reaches_self,
    lemma_sink_reaches_itself, lemma_step_reaches, resolve_among, root_index, stdlib_index,
    EdgeModel, GraphModel,
};
use vstd::prelude::*;

verus! {

/// The libraries are new to the graph: their names are well formed, none of
/// their entry source units is registered yet, and no two of them share one.
pub open spec fn fresh_libraries(g: GraphModel, libraries: Seq<DependencyModel>) -> bool {
    &&& forall|k: int|
        0 <= k < libraries.len() ==> valid_crate_name((#[trigger] libraries[k]).name)
    &&& forall|k: int|
        0 <= k < libraries.len() ==> g.find_source(
            entry_path((#[trigger] libraries[k]).package_root),
        ) is None
    &&& forall|k: int, l: int|
        0 <= k < l < libraries.len() ==> entry_path((#[trigger] libraries[k]).package_root)
            != entry_path((#[trigger] libraries[l]).package_root)
}

/// One edge for each library from `first` on, in the order of declaration,
/// where the library declared at place `k` is crate `base + k`.
pub open spec fn mesh_edges(base: int, libraries: Seq<DependencyModel>, first: int) -> Seq<
    EdgeModel,
> {
    Seq::new(
        (libraries.len() - first) as nat,
        |k: int| EdgeModel { name: libraries[first + k].name, target: base + first + k },
    )
}

/// The full mesh over `g` and new libraries: the libraries follow the crates
/// of `g` in the order of declaration; every crate of `g` but the builtin one
/// has, behind its own edges, an edge to each library; and each library has
/// an edge to each library declared after it.
pub open spec fn meshed(g: GraphModel, libraries: Seq<DependencyModel>) -> GraphModel {
    GraphModel {
        sources: g.sources + Seq::new(
            libraries.len(),
            |k: int| Some(entry_path(libraries[k].package_root)),
        ),
        edges: Seq::new(
            (g.len() + libraries.len()) as nat,
            |c: int|
                if c == stdlib_index() {
                    g.edges[c]
                } else if c < g.len() {
                    g.edges[c] + mesh_edges(g.len(), libraries, 0)
                } else {
                    mesh_edges(g.len(), libraries, c - g.len() + 1)
                },
        ),
    }
}

/// A source that neither the graph nor the libraries know is not registered
/// in their mesh.
proof fn lemma_meshed_find_source(g: GraphModel, libraries: Seq<DependencyModel>, source: Seq<char>)
    requires
        g.wf(),
        g.find_source(source) is None,
        forall|k: int|
            0 <= k < libraries.len() ==> entry_path((#[trigger] libraries[k]).package_root)
                != source,
    ensures
        meshed(g, libraries).find_source(source) is None,
{
    let m = meshed(g, libraries);
    if exists|i: int| 0 <= i < m.sources.len() && m.sources[i] == Some(source) {
        let i = choose|i: int| 0 <= i < m.sources.len() && m.sources[i] == Some(source);
        if i < g.len() {
            assert(g.sources[i] == Some(source));
        } else {
            assert(m.sources[i] == Some(entry_path(libraries[i - g.len()].package_root)));
        }
    }
}

/// Full mesh. Linking libraries that are new to the graph, in whatever order
/// they are declared and whatever names they share, succeeds and gives
/// exactly the mesh: the root crate and every library already there gain an
/// edge to each new library, and each new library gains an edge to each one
/// declared after it.
pub proof fn lemma_link_all_meshes(g: GraphModel, libraries: Seq<DependencyModel>)
    requires
        g.wf(),
        fresh_libraries(g, libraries),
    ensures
        link_all(g, libraries).1 is Linked,
        link_all(g, libraries).0 == meshed(g, libraries),
    decreases libraries.len(),
{
    if libraries.len() == 0 {
        let m = meshed(g, libraries);
        assert(m.sources =~= g.sources);
        assert forall|c: int| 0 <= c < g.len() implies #[trigger] m.edges[c] == g.edges[c] by {
            assert(m.edges[c] =~= g.edges[c]);
        }
        assert(m.edges =~= g.edges);
    } else {
        let prefix = libraries.drop_last();
        let library = libraries.last();
        let n = prefix.len() as int;
        lemma_link_all_meshes(g, prefix);
        lemma_link_all_wf(g, prefix);
        let m = meshed(g, prefix);
        let source = entry_path(library.package_root);
        assert forall|k: int| 0 <= k < prefix.len() implies entry_path(
            (#[trigger] prefix[k]).package_root,
        ) != source by {
            assert(prefix[k] == libraries[k]);
        }
        lemma_meshed_find_source(g, prefix, source);
        let registered = m.push_crate(source);
        let id = m.len();
        assert(m.register(source) == registered);
        assert(m.registered_index(source) == id);
        lemma_push_crate_wf(m, source);
        assert forall|c: int| #[trigger] registered.reaches(id, c) implies c == id by {
            lemma_sink_reaches_itself(registered, id, c);
        }
        let rooted = registered.add_edge(root_index(), library.name, id);
        lemma_first_blocking_is(registered, id, 0, registered.len());
        lemma_root_edge_first_blocking(registered, library.name, id, 0);
        let linked = full_mesh(rooted, library.name, id, rooted.len());
        let whole = meshed(g, libraries);
        assert(linked.sources =~= whole.sources);
        assert forall|c: int| 0 <= c < whole.edges.len() implies #[trigger] linked.edges[c]
            == whole.edges[c] by {
            assert(linked.edges[c] =~= whole.edges[c]);
        }
        assert(linked.edges =~= whole.edges);
        assert(link_library(m, library).0 == linked);
    }
}

/// In the mesh, every crate of the graph but the builtin one and every
/// library declared before place `j` has an edge, under the name declared at
/// place `j`, to the library declared there.
pub proof fn lemma_mesh_has_edge(g: GraphModel, libraries: Seq<DependencyModel>, c: int, j: int)
    requires
        g.wf(),
        0 <= j < libraries.len(),
        c != stdlib_index(),
        0 <= c < g.len() + j,
    ensures
        meshed(g, libraries).has_edge(c, libraries[j].name, g.len() + j),
{
    let m = meshed(g, libraries);
    let wanted = EdgeModel { name: libraries[j].name, target: g.len() + j };
    if c < g.len() {
        assert(m.edges[c][g.edges[c].len() + j] == wanted);
    } else {
        assert(m.edges[c][j - (c - g.len() + 1)] == wanted);
    }
}

/// In the mesh, no library has an edge to a library declared at or before
/// its own place: the edges between libraries all lead from an earlier one
/// to a later one.
pub proof fn lemma_mesh_has_no_back_edge(
    g: GraphModel,
    libraries: Seq<DependencyModel>,
    i: int,
    j: int,
    name: Seq<char>,
)
    requires
        g.wf(),
        0 <= i <= j < libraries.len(),
    ensures
        !meshed(g, libraries).has_edge(g.len() + j, name, g.len() + i),
{
    let m = meshed(g, libraries);
    let wanted = EdgeModel { name, target: g.len() + i };
    if m.edges[g.len() + j].contains(wanted) {
        let row = m.edges[g.len() + j];
        let k = choose|k: int| 0 <= k < row.len() && #[trigger] row[k] == wanted;
        assert(row[k].target == g.len() + j + 1 + k);
    }
}

/// Behind whatever edges a crate has of its own, the newest mesh edge of a
/// name is the one to the last library declared under it.
proof fn lemma_resolve_among_mesh(
    own: Seq<EdgeModel>,
    base: int,
    libraries: Seq<DependencyModel>,
    first: int,
    j: int,
)
    requires
        0 <= first <= j < libraries.len(),
        forall|l: int| j < l < libraries.len() ==> (#[trigger] libraries[l]).name
            != libraries[j].name,
    ensures
        resolve_among(own + mesh_edges(base, libraries, first), libraries[j].name) == Some(
            base + j,
        ),
    decreases libraries.len(),
{
    let all = own + mesh_edges(base, libraries, first);
    let last = libraries.len() - 1;
    assert(all.last() == EdgeModel { name: libraries[last].name, target: base + last });
    if j < last {
        let shorter = libraries.drop_last();
        assert(all.drop_last() =~= own + mesh_edges(base, shorter, first));
        assert forall|l: int| j < l < shorter.len() implies (#[trigger] shorter[l]).name
            != shorter[j].name by {
            assert(shorter[l] == libraries[l]);
        }
        lemma_resolve_among_mesh(own, base, shorter, first, j);
    }
}

/// Shared names. In the mesh, a name under which several new libraries are
/// declared stands for the one declared last: in the root crate, in every
/// library that the graph held before, and in every library declared before
/// that one.
pub proof fn lemma_mesh_resolves_to_last(
    g: GraphModel,
    libraries: Seq<DependencyModel>,
    c: int,
    j: int,
)
    requires
        g.wf(),
        0 <= j < libraries.len(),
        c != stdlib_index(),
        0 <= c < g.len() + j,
        forall|l: int| j < l < libraries.len() ==> (#[trigger] libraries[l]).name
            != libraries[j].name,
    ensures
        meshed(g, libraries).resolve(c, libraries[j].name) == Some(g.len() + j),
{
    if c < g.len() {
        lemma_resolve_among_mesh(g.edges[c], g.len(), libraries, 0, j);
    } else {
        let own = Seq::<EdgeModel>::empty();
        lemma_resolve_among_mesh(own, g.len(), libraries, c - g.len() + 1, j);
        assert(own + mesh_edges(g.len(), libraries, c - g.len() + 1) =~= mesh_edges(
            g.len(),
            libraries,
            c - g.len() + 1,
        ));
    }
}

/// The crate of the library leads to the root crate or to another library:
/// an edge to it from there would close a cycle.
pub open spec fn closes_cycle(g: GraphModel, library: int) -> bool {
    g.reaches(library, root_index()) || exists|c: int| #[trigger] blocks(g, library, c)
}

/// Cycles. Linking a library whose name is well formed fails, with the
/// cyclic-dependency error that names it, exactly when its crate already
/// leads to the root crate or to another library; it never succeeds
/// silently then, and it never fails otherwise.
pub proof fn lemma_link_library_verdict(g: GraphModel, library: DependencyModel)
    requires
        g.wf(),
    ensures
        ({
            let source = entry_path(library.package_root);
            let cyclic = closes_cycle(g.register(source), g.registered_index(source));
            let verdict = link_library(g, library).1;
            &&& !valid_crate_name(library.name) ==> verdict == (LinkVerdict::MalformedName {
                name: library.name,
            })
            &&& valid_crate_name(library.name) && cyclic ==> verdict == (LinkVerdict::Cycle {
                library: library.name,
            })
            &&& valid_crate_name(library.name) && !cyclic ==> verdict is Linked
        }),
{
    let source = entry_path(library.package_root);
    let registered = g.register(source);
    let id = g.registered_index(source);
    lemma_register_wf(g, source);
    lemma_first_blocking(registered, id, 0);
    lemma_root_edge_first_blocking(registered, library.name, id, 0);
    if closes_cycle(registered, id) && !registered.reaches(id, root_index()) {
        let c = choose|c: int| #[trigger] blocks(registered, id, c);
        lemma_reaches_inside(registered, id, c);
    }
}

/// A library whose entry source unit is that of the root crate names the
/// root crate itself, and linking it fails.
pub proof fn lemma_root_as_library_is_cycle(g: GraphModel, library: DependencyModel)
    requires
        g.wf(),
        valid_crate_name(library.name),
        g.sources[root_index()] == Some(entry_path(library.package_root)),
    ensures
        link_library(g, library).1 == (LinkVerdict::Cycle { library: library.name }),
        link_library(g, library).0 == g,
{
    lemma_find_source_is(g, entry_path(library.package_root), root_index());
    lemma_reaches_self(g, root_index());
}

/// Declaring again a library after which another was linked fails: the full
/// mesh has given it an edge to the later one, so the edge back would close
/// a cycle.
pub proof fn lemma_relinked_library_is_cycle(
    g: GraphModel,
    libraries: Seq<DependencyModel>,
    i: int,
    again: DependencyModel,
)
    requires
        g.wf(),
        fresh_libraries(g, libraries),
        0 <= i < libraries.len() - 1,
        valid_crate_name(again.name),
        entry_path(again.package_root) == entry_path(libraries[i].package_root),
    ensures
        link_library(meshed(g, libraries), again).1 == (LinkVerdict::Cycle {
            library: again.name,
        }),
{
    let m = meshed(g, libraries);
    let source = entry_path(again.package_root);
    lemma_link_all_meshes(g, libraries);
    lemma_link_all_wf(g, libraries);
    assert(m.sources[g.len() + i] == Some(source));
    lemma_find_source_is(m, source, g.len() + i);
    let id = g.len() + i;
    let later = g.len() + i + 1;
    assert(m.edges[id][0].target == later);
    assert(m.step(id, later));
    lemma_step_reaches(m, id, later);
    assert(blocks(m, id, later));
    lemma_link_library_verdict(m, again);
}

/// Linking a library takes no edge away.
pub proof fn lemma_link_library_keeps_edge(
    g: GraphModel,
    library: DependencyModel,
    c: int,
    name: Seq<char>,
    to: int,
)
    requires
        g.wf(),
        g.has_edge(c, name, to),
    ensures
        link_library(g, library).0.has_edge(c, name, to),
{
    let h = link_library(g, library).0;
    let wanted = EdgeModel { name, target: to };
    let k = choose|k: int| 0 <= k < g.edges[c].len() && g.edges[c][k] == wanted;
    let registered = g.register(entry_path(library.package_root));
    assert(registered.edges[c][k] == wanted);
    assert(h.edges[c][k] == wanted);
}

/// Linking a library leaves every registered source with its crate, and
/// registers the library's own.
pub proof fn lemma_link_library_keeps_source(
    g: GraphModel,
    library: DependencyModel,
    source: Seq<char>,
)
    requires
        g.wf(),
    ensures
        link_library(g, library).0.len() >= g.len(),
        g.find_source(source) is Some ==> link_library(g, library).0.find_source(source)
            == g.find_source(source),
        link_library(g, library).0.find_source(entry_path(library.package_root)) == Some(
            g.registered_index(entry_path(library.package_root)),
        ),
{
    let h = link_library(g, library).0;
    let own = entry_path(library.package_root);
    lemma_link_library_wf(g, library);
    lemma_register_wf(g, own);
    lemma_find_source_is(h, own, g.registered_index(own));
    if g.find_source(source) is Some {
        let i = g.find_source(source)->0;
        lemma_find_source_is(h, source, i);
    }
}

/// A library that was linked has an edge from every crate that was there
/// but the builtin crate and itself.
pub proof fn lemma_link_library_attaches(g: GraphModel, library: DependencyModel, c: int)
    requires
        g.wf(),
        link_library(g, library).1 is Linked,
        g.register(entry_path(library.package_root)).contains(c),
        c != stdlib_index(),
        c != g.registered_index(entry_path(library.package_root)),
    ensures
        link_library(g, library).0.has_edge(
            c,
            library.name,
            g.registered_index(entry_path(library.package_root)),
        ),
{
    let registered = g.register(entry_path(library.package_root));
    let id = g.registered_index(entry_path(library.package_root));
    let rooted = registered.add_edge(root_index(), library.name, id);
    let h = link_library(g, library).0;
    let wanted = EdgeModel { name: library.name, target: id };
    lemma_register_wf(g, entry_path(library.package_root));
    if c == root_index() {
        assert(rooted.edges[c][registered.edges[c].len() as int] == wanted);
    }
    assert(h.edges[c][registered.edges[c].len() as int] == wanted);
}

/// Where the whole list was linked, so was every list it begins with.
pub proof fn lemma_link_all_prefix_linked(g: GraphModel, libraries: Seq<DependencyModel>, k: int)
    requires
        0 <= k <= libraries.len(),
        link_all(g, libraries).1 is Linked,
    ensures
        link_all(g, libraries.subrange(0, k)).1 is Linked,
{
    if !(link_all(g, libraries.subrange(0, k)).1 is Linked) {
        lemma_link_all_stops(g, libraries, k);
    }
}

/// Linking the rest of a list takes away no edge and no source that the
/// graph had after the list's first `k` libraries.
pub proof fn lemma_link_all_keeps(
    g: GraphModel,
    libraries: Seq<DependencyModel>,
    k: int,
    c: int,
    name: Seq<char>,
    to: int,
    source: Seq<char>,
)
    requires
        g.wf(),
        0 <= k <= libraries.len(),
        link_all(g, libraries).1 is Linked,
    ensures
        link_all(g, libraries.subrange(0, k)).0.has_edge(c, name, to) ==> link_all(
            g,
            libraries,
        ).0.has_edge(c, name, to),
        link_all(g, libraries.subrange(0, k)).0.find_source(source) is Some ==> link_all(
            g,
            libraries,
        ).0.find_source(source) == link_all(g, libraries.subrange(0, k)).0.find_source(source),
    decreases libraries.len() - k,
{
    if k == libraries.len() {
        assert(libraries.subrange(0, k) =~= libraries);
    } else {
        let shorter = libraries.subrange(0, k);
        let longer = libraries.subrange(0, k + 1);
        assert(longer.drop_last() =~= shorter);
        assert(longer.last() == libraries[k]);
        lemma_link_all_prefix_linked(g, libraries, k);
        lemma_link_all_prefix_linked(g, libraries, k + 1);
        lemma_link_all_wf(g, shorter);
        let m = link_all(g, shorter).0;
        if m.has_edge(c, name, to) {
            lemma_link_library_keeps_edge(m, libraries[k], c, name, to);
        }
        lemma_link_library_keeps_source(m, libraries[k], source);
        lemma_link_all_keeps(g, libraries, k + 1, c, name, to, source);
    }
}

/// The crate of the library declared at place `j`, once the list is linked.
pub open spec fn library_crate(g: GraphModel, libraries: Seq<DependencyModel>, j: int) -> int {
    link_all(g, libraries.subrange(0, j)).0.registered_index(
        entry_path(libraries[j].package_root),
    )
}

/// Each linked library keeps the crate it was registered with: in the graph
/// of the whole list, its entry source unit leads to that crate.
pub proof fn lemma_library_crate_is_registered(
    g: GraphModel,
    libraries: Seq<DependencyModel>,
    j: int,
)
    requires
        g.wf(),
        link_all(g, libraries).1 is Linked,
        0 <= j < libraries.len(),
    ensures
        link_all(g, libraries).0.find_source(entry_path(libraries[j].package_root)) == Some(
            library_crate(g, libraries, j),
        ),
        library_crate(g, libraries, j) != stdlib_index(),
        link_all(g, libraries.subrange(0, j + 1)).0.contains(library_crate(g, libraries, j)),
{
    let shorter = libraries.subrange(0, j);
    let longer = libraries.subrange(0, j + 1);
    let source = entry_path(libraries[j].package_root);
    assert(longer.drop_last() =~= shorter);
    assert(longer.last() == libraries[j]);
    lemma_link_all_prefix_linked(g, libraries, j);
    lemma_link_all_prefix_linked(g, libraries, j + 1);
    lemma_link_all_wf(g, shorter);
    let m = link_all(g, shorter).0;
    lemma_link_library_keeps_source(m, libraries[j], source);
    lemma_register_wf(m, source);
    lemma_link_all_keeps(g, libraries, j + 1, 0, Seq::empty(), 0, source);
}

/// Full mesh, for every list that links. Where linking the whole list
/// succeeds, the library declared at place `j` has, under its declared name,
/// an edge from every crate that was in the graph when it was linked, but
/// the builtin crate and itself: from the root crate, from every library
/// that the graph held before, and from every library declared before it.
pub proof fn lemma_linked_library_is_attached(
    g: GraphModel,
    libraries: Seq<DependencyModel>,
    j: int,
    c: int,
)
    requires
        g.wf(),
        link_all(g, libraries).1 is Linked,
        0 <= j < libraries.len(),
        link_all(g, libraries.subrange(0, j + 1)).0.contains(c),
        c != stdlib_index(),
        c != library_crate(g, libraries, j),
    ensures
        link_all(g, libraries).0.has_edge(c, libraries[j].name, library_crate(g, libraries, j)),
{
    let shorter = libraries.subrange(0, j);
    let longer = libraries.subrange(0, j + 1);
    let id = library_crate(g, libraries, j);
    assert(longer.drop_last() =~= shorter);
    assert(longer.last() == libraries[j]);
    lemma_link_all_prefix_linked(g, libraries, j);
    lemma_link_all_prefix_linked(g, libraries, j + 1);
    lemma_link_all_wf(g, shorter);
    let m = link_all(g, shorter).0;
    lemma_link_library_attaches(m, libraries[j], c);
    lemma_link_all_keeps(g, libraries, j + 1, c, libraries[j].name, id, Seq::empty());
}

/// Full mesh between libraries. Where linking the whole list succeeds, a
/// library declared earlier has an edge, under the later one's declared
/// name, to every library declared later that is not the same crate; and
/// so has the root crate.
pub proof fn lemma_earlier_library_sees_later(
    g: GraphModel,
    libraries: Seq<DependencyModel>,
    i: int,
    j: int,
)
    requires
        g.wf(),
        link_all(g, libraries).1 is Linked,
        0 <= i < j < libraries.len(),
        library_crate(g, libraries, i) != library_crate(g, libraries, j),
    ensures
        link_all(g, libraries).0.has_edge(
            library_crate(g, libraries, i),
            libraries[j].name,
            library_crate(g, libraries, j),
        ),
        link_all(g, libraries).0.has_edge(
            root_index(),
            libraries[j].name,
            library_crate(g, libraries, j),
        ),
{
    lemma_library_crate_is_registered(g, libraries, i);
    lemma_link_all_prefix_linked(g, libraries, j + 1);
    lemma_link_all_grows(g, libraries, i + 1, j + 1);
    lemma_linked_library_is_attached(g, libraries, j, library_crate(g, libraries, i));
    lemma_link_all_wf(g, libraries.subrange(0, j + 1));
    lemma_root_is_not_linked(g, libraries, j);
    lemma_linked_library_is_attached(g, libraries, j, root_index());
}

/// A library that was linked is not the root crate.
pub proof fn lemma_root_is_not_linked(g: GraphModel, libraries: Seq<DependencyModel>, j: int)
    requires
        g.wf(),
        link_all(g, libraries).1 is Linked,
        0 <= j < libraries.len(),
    ensures
        library_crate(g, libraries, j) != root_index(),
{
    let shorter = libraries.subrange(0, j);
    let longer = libraries.subrange(0, j + 1);
    assert(longer.drop_last() =~= shorter);
    assert(longer.last() == libraries[j]);
    lemma_link_all_prefix_linked(g, libraries, j);
    lemma_link_all_prefix_linked(g, libraries, j + 1);
    lemma_link_all_wf(g, shorter);
    let m = link_all(g, shorter).0;
    let source = entry_path(libraries[j].package_root);
    lemma_register_wf(m, source);
    if library_crate(g, libraries, j) == root_index() {
        lemma_reaches_self(m.register(source), root_index());
    }
}

/// Linking more of a list takes no crate away.
pub proof fn lemma_link_all_grows(g: GraphModel, libraries: Seq<DependencyModel>, k: int, l: int)
    requires
        g.wf(),
        0 <= k <= l <= libraries.len(),
    ensures
        link_all(g, libraries.subrange(0, k)).0.len() <= link_all(
            g,
            libraries.subrange(0, l),
        ).0.len(),
    decreases l - k,
{
    if k < l {
        lemma_link_all_grows(g, libraries, k, l - 1);
        let shorter = libraries.subrange(0, l - 1);
        let longer = libraries.subrange(0, l);
        assert(longer.drop_last() =~= shorter);
        lemma_link_all_wf(g, shorter);
        if link_all(g, shorter).1 is Linked {
            lemma_link_library_wf(link_all(g, shorter).0, longer.last());
        }
    }
}

} // verus!
