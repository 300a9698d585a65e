//! The mathematical model of a crate graph: crates are numbered from zero,
//! each with an ordered list of named edges to other crates.

use vstd::prelude::*;

verus! {

/// A named edge as the contracts see it.
pub struct EdgeModel {
    pub name: Seq<char>,
    pub target: int,
}

/// A crate graph as the contracts see it. Crate `i` was read from
/// `sources[i]` (the builtin crate was read from nothing) and depends on the
/// targets of `edges[i]`, oldest edge first.
pub struct GraphModel {
    pub sources: Seq<Option<Seq<char>>>,
    pub edges: Seq<Seq<EdgeModel>>,
}

/// The number of the builtin crate in every graph.
pub open spec fn stdlib_index() -> int {
    0
}

/// The number of the root crate in every graph.
pub open spec fn root_index() -> int {
    1
}

impl GraphModel {
    /// The number of crates.
    pub open spec fn len(self) -> int {
        self.edges.len() as int
    }

    /// Crate `c` belongs to the graph.
    pub open spec fn contains(self, c: int) -> bool {
        0 <= c < self.edges.len()
    }

    /// Crate `from` has an edge called `name` to crate `to`.
    pub open spec fn has_edge(self, from: int, name: Seq<char>, to: int) -> bool {
        self.contains(from) && self.edges[from].contains(EdgeModel { name, target: to })
    }

    /// Crate `a` depends directly on crate `b`, under whatever name.
    pub open spec fn step(self, a: int, b: int) -> bool {
        self.contains(a) && exists|j: int|
            0 <= j < self.edges[a].len() && (#[trigger] self.edges[a][j]).target == b
    }

    /// The walk `p` goes from its place `i` to the next along an edge.
    pub open spec fn link_at(self, p: Seq<int>, i: int) -> bool {
        self.step(p[i], p[i + 1])
    }

    /// `p` walks along edges of the graph, starting at one of its crates.
    pub open spec fn is_path(self, p: Seq<int>) -> bool {
        &&& p.len() >= 1
        &&& self.contains(p[0])
        &&& forall|i: int| 0 <= i < p.len() - 1 ==> #[trigger] self.link_at(p, i)
    }

    /// Crate `b` can be reached from crate `a` along zero or more edges.
    pub open spec fn reaches(self, a: int, b: int) -> bool {
        exists|p: Seq<int>| #[trigger] self.is_path(p) && p.first() == a && p.last() == b
    }

    /// No edge leads to a crate from which its own source can be reached.
    pub open spec fn acyclic(self) -> bool {
        forall|a: int, b: int| #[trigger] self.step(a, b) ==> !self.reaches(b, a)
    }

    /// Every edge ends at a crate of the graph.
    pub open spec fn closed(self) -> bool {
        forall|a: int, j: int|
            0 <= a < self.edges.len() && 0 <= j < self.edges[a].len() ==> self.contains(
                (#[trigger] self.edges[a][j]).target,
            )
    }

    /// Only the builtin crate has no source, and no two crates share one.
    pub open spec fn sources_distinct(self) -> bool {
        &&& forall|i: int|
            0 <= i < self.sources.len() ==> ((#[trigger] self.sources[i]) is None <==> i
                == stdlib_index())
        &&& forall|i: int, j: int|
            0 <= i < j < self.sources.len() ==> #[trigger] self.sources[i]
                != #[trigger] self.sources[j]
    }

    /// What holds of every graph of a session: it has its builtin crate and
    /// its root crate, its edges stay inside it, and it has no cycle.
    pub open spec fn wf(self) -> bool {
        &&& self.sources.len() == self.edges.len()
        &&& self.edges.len() >= 2
        &&& self.sources_distinct()
        &&& self.closed()
        &&& self.acyclic()
    }

    /// The crate that `name` stands for in crate `from`: the target of the
    /// newest edge of that name.
    pub open spec fn resolve(self, from: int, name: Seq<char>) -> Option<int> {
        resolve_among(self.edges[from], name)
    }

    /// The graph with one more edge, added behind the edges that `from` has.
    pub open spec fn add_edge(self, from: int, name: Seq<char>, to: int) -> GraphModel {
        GraphModel {
            sources: self.sources,
            edges: self.edges.update(from, self.edges[from].push(EdgeModel { name, target: to })),
        }
    }

    /// The number of the crate read from `source`, if there is one.
    pub open spec fn find_source(self, source: Seq<char>) -> Option<int> {
        if exists|i: int| 0 <= i < self.sources.len() && self.sources[i] == Some(source) {
            Some(choose|i: int| 0 <= i < self.sources.len() && self.sources[i] == Some(source))
        } else {
            None
        }
    }

    /// The graph with one more crate that has no edges yet.
    pub open spec fn push_crate(self, source: Seq<char>) -> GraphModel {
        GraphModel {
            sources: self.sources.push(Some(source)),
            edges: self.edges.push(Seq::empty()),
        }
    }

    /// The graph in which `source` is registered: unchanged if a crate was
    /// read from it before, else with a new crate.
    pub open spec fn register(self, source: Seq<char>) -> GraphModel {
        if self.find_source(source) is Some {
            self
        } else {
            self.push_crate(source)
        }
    }

    /// The number under which `source` is registered in `self.register(source)`.
    pub open spec fn registered_index(self, source: Seq<char>) -> int {
        match self.find_source(source) {
            Some(i) => i,
            None => self.len(),
        }
    }
}

/// The target of the last edge called `name`, if any.
pub open spec fn resolve_among(edges: Seq<EdgeModel>, name: Seq<char>) -> Option<int>
    decreases edges.len(),
{
    if edges.len() == 0 {
        None
    } else if edges.last().name == name {
        Some(edges.last().target)
    } else {
        resolve_among(edges.drop_last(), name)
    }
}

/// The graph of a fresh session: the builtin crate and the root crate read
/// from `entry_point`, with no edges.
pub open spec fn fresh_graph(entry_point: Seq<char>) -> GraphModel {
    GraphModel {
        sources: seq![None, Some(entry_point)],
        edges: seq![Seq::empty(), Seq::empty()],
    }
}

/// Every crate reaches itself.
pub proof fn lemma_reaches_self(g: GraphModel, a: int)
    requires
        g.contains(a),
    ensures
        g.reaches(a, a),
{
    let p = seq![a];
    assert(g.is_path(p));
    assert(p.first() == a && p.last() == a);
}

/// What is reached stays reached one edge further.
pub proof fn lemma_reaches_then_step(g: GraphModel, a: int, b: int, c: int)
    requires
        g.reaches(a, b),
        g.step(b, c),
    ensures
        g.reaches(a, c),
{
    let p = choose|p: Seq<int>| #[trigger] g.is_path(p) && p.first() == a && p.last() == b;
    let q = p.push(c);
    assert forall|i: int| 0 <= i < q.len() - 1 implies #[trigger] g.link_at(q, i) by {
        if i < p.len() - 1 {
            assert(g.link_at(p, i));
            assert(q[i] == p[i] && q[i + 1] == p[i + 1]);
        } else {
            assert(q[i] == b && q[i + 1] == c);
        }
    }
    assert(g.is_path(q));
    assert(q.first() == a && q.last() == c);
}

/// A direct dependency is reached.
pub proof fn lemma_step_reaches(g: GraphModel, a: int, b: int)
    requires
        g.step(a, b),
    ensures
        g.reaches(a, b),
{
    lemma_reaches_self(g, a);
    lemma_reaches_then_step(g, a, a, b);
}

/// What is reached from a reached crate is reached.
pub proof fn lemma_reaches_transitive(g: GraphModel, a: int, b: int, c: int)
    requires
        g.reaches(a, b),
        g.reaches(b, c),
    ensures
        g.reaches(a, c),
{
    let q = choose|q: Seq<int>| #[trigger] g.is_path(q) && q.first() == b && q.last() == c;
    lemma_reaches_along(g, a, q, q.len() - 1);
}

/// Whatever reaches the start of a path reaches each crate on it.
pub proof fn lemma_reaches_along(g: GraphModel, a: int, q: Seq<int>, k: int)
    requires
        g.is_path(q),
        g.reaches(a, q[0]),
        0 <= k < q.len(),
    ensures
        g.reaches(a, q[k]),
    decreases k,
{
    if k > 0 {
        lemma_reaches_along(g, a, q, k - 1);
        assert(g.link_at(q, k - 1));
        lemma_reaches_then_step(g, a, q[k - 1], q[k]);
    }
}

/// A set of crates that holds the start of a path and every direct
/// dependency of its members holds the whole path.
pub proof fn lemma_closed_set_holds_path(g: GraphModel, s: Set<int>, p: Seq<int>, k: int)
    requires
        g.is_path(p),
        s.contains(p[0]),
        forall|a: int, b: int| s.contains(a) && #[trigger] g.step(a, b) ==> s.contains(b),
        0 <= k < p.len(),
    ensures
        s.contains(p[k]),
    decreases k,
{
    if k > 0 {
        lemma_closed_set_holds_path(g, s, p, k - 1);
        assert(g.link_at(p, k - 1));
    }
}

/// In a graph whose edges stay inside it, so does every path.
pub proof fn lemma_path_inside(g: GraphModel, p: Seq<int>, k: int)
    requires
        g.closed(),
        g.is_path(p),
        0 <= k < p.len(),
    ensures
        g.contains(p[k]),
    decreases k,
{
    if k > 0 {
        lemma_path_inside(g, p, k - 1);
        assert(g.link_at(p, k - 1));
    }
}

/// Only crates of the graph reach or are reached.
pub proof fn lemma_reaches_inside(g: GraphModel, a: int, b: int)
    requires
        g.closed(),
        g.reaches(a, b),
    ensures
        g.contains(a),
        g.contains(b),
{
    let p = choose|p: Seq<int>| #[trigger] g.is_path(p) && p.first() == a && p.last() == b;
    lemma_path_inside(g, p, p.len() - 1);
}

/// A crate without edges reaches only itself.
pub proof fn lemma_sink_reaches_itself(g: GraphModel, a: int, b: int)
    requires
        g.contains(a),
        g.edges[a].len() == 0,
        g.reaches(a, b),
    ensures
        a == b,
{
    let p = choose|p: Seq<int>| #[trigger] g.is_path(p) && p.first() == a && p.last() == b;
    if p.len() > 1 {
        assert(g.link_at(p, 0));
    }
}

/// The direct dependencies after `add_edge` are the old ones and the new one.
pub proof fn lemma_add_edge_step(g: GraphModel, from: int, name: Seq<char>, to: int, a: int, b: int)
    requires
        g.contains(from),
    ensures
        g.add_edge(from, name, to).step(a, b) <==> g.step(a, b) || (a == from && b == to),
{
    let h = g.add_edge(from, name, to);
    let e = EdgeModel { name, target: to };
    if g.step(a, b) {
        let j = choose|j: int| 0 <= j < g.edges[a].len() && (#[trigger] g.edges[a][j]).target == b;
        assert(h.edges[a][j] == g.edges[a][j]);
    }
    if a == from && b == to {
        assert(h.edges[a][g.edges[a].len() as int] == e);
    }
    if h.step(a, b) {
        let j = choose|j: int| 0 <= j < h.edges[a].len() && (#[trigger] h.edges[a][j]).target == b;
        if a == from && j == g.edges[a].len() {
        } else {
            assert(h.edges[a][j] == g.edges[a][j]);
        }
    }
}

/// A path of the graph with the new edge either is a path of the old graph
/// in effect, or passes through the new edge.
pub proof fn lemma_add_edge_path(
    g: GraphModel,
    from: int,
    name: Seq<char>,
    to: int,
    p: Seq<int>,
    k: int,
)
    requires
        g.contains(from),
        g.contains(to),
        g.add_edge(from, name, to).is_path(p),
        0 <= k < p.len(),
    ensures
        g.reaches(p[0], p[k]) || (g.reaches(p[0], from) && g.reaches(to, p[k])),
    decreases k,
{
    let h = g.add_edge(from, name, to);
    if k == 0 {
        lemma_reaches_self(g, p[0]);
    } else {
        lemma_add_edge_path(g, from, name, to, p, k - 1);
        assert(h.link_at(p, k - 1));
        lemma_add_edge_step(g, from, name, to, p[k - 1], p[k]);
        if g.step(p[k - 1], p[k]) {
            if g.reaches(p[0], p[k - 1]) {
                lemma_reaches_then_step(g, p[0], p[k - 1], p[k]);
            } else {
                lemma_reaches_then_step(g, to, p[k - 1], p[k]);
            }
        } else {
            // the step is the new edge: p[k - 1] is `from` and p[k] is `to`
            lemma_reaches_self(g, to);
        }
    }
}

/// What the graph with the new edge reaches, the old graph reaches too, or
/// it leads to the new edge and on from there.
pub proof fn lemma_add_edge_reaches(
    g: GraphModel,
    from: int,
    name: Seq<char>,
    to: int,
    a: int,
    b: int,
)
    requires
        g.contains(from),
        g.contains(to),
        g.add_edge(from, name, to).reaches(a, b),
    ensures
        g.reaches(a, b) || (g.reaches(a, from) && g.reaches(to, b)),
{
    let h = g.add_edge(from, name, to);
    let p = choose|p: Seq<int>| #[trigger] h.is_path(p) && p.first() == a && p.last() == b;
    lemma_add_edge_path(g, from, name, to, p, p.len() - 1);
}

/// Adding an edge takes no path away.
pub proof fn lemma_add_edge_keeps_reaches(
    g: GraphModel,
    from: int,
    name: Seq<char>,
    to: int,
    a: int,
    b: int,
)
    requires
        g.contains(from),
        g.reaches(a, b),
    ensures
        g.add_edge(from, name, to).reaches(a, b),
{
    let h = g.add_edge(from, name, to);
    let p = choose|p: Seq<int>| #[trigger] g.is_path(p) && p.first() == a && p.last() == b;
    assert forall|i: int| 0 <= i < p.len() - 1 implies #[trigger] h.link_at(p, i) by {
        assert(g.link_at(p, i));
        lemma_add_edge_step(g, from, name, to, p[i], p[i + 1]);
    }
    assert(h.is_path(p));
}

/// An edge whose target does not lead back to its source closes no cycle.
pub proof fn lemma_add_edge_wf(g: GraphModel, from: int, name: Seq<char>, to: int)
    requires
        g.wf(),
        g.contains(from),
        g.contains(to),
        !g.reaches(to, from),
    ensures
        g.add_edge(from, name, to).wf(),
{
    let h = g.add_edge(from, name, to);
    assert forall|a: int, j: int|
        0 <= a < h.edges.len() && 0 <= j < h.edges[a].len() implies h.contains(
        (#[trigger] h.edges[a][j]).target,
    ) by {
        if a == from && j == g.edges[a].len() {
        } else {
            assert(h.edges[a][j] == g.edges[a][j]);
        }
    }
    assert forall|a: int, b: int| #[trigger] h.step(a, b) implies !h.reaches(b, a) by {
        lemma_add_edge_step(g, from, name, to, a, b);
        if h.reaches(b, a) {
            lemma_add_edge_reaches(g, from, name, to, b, a);
            if g.step(a, b) {
                // old edge: the cycle must pass through the new edge
                assert(g.reaches(b, from) && g.reaches(to, a));
                lemma_reaches_then_step(g, to, a, b);
                lemma_reaches_transitive(g, to, b, from);
            } else {
                // the new edge itself
                if !g.reaches(to, from) {
                    lemma_reaches_self(g, to);
                }
            }
        }
    }
}

/// A new crate without edges changes nothing among the old crates and
/// reaches only itself.
pub proof fn lemma_push_crate_reaches(g: GraphModel, source: Seq<char>, a: int, b: int)
    requires
        g.closed(),
        g.sources.len() == g.edges.len(),
    ensures
        g.push_crate(source).reaches(a, b) <==> g.reaches(a, b) || (a == g.len() && b == g.len()),
{
    let h = g.push_crate(source);
    let n = g.len();
    assert forall|x: int, y: int| #[trigger] g.step(x, y) implies h.step(x, y) by {
        let j = choose|j: int| 0 <= j < g.edges[x].len() && (#[trigger] g.edges[x][j]).target == y;
        assert(h.edges[x][j] == g.edges[x][j]);
    }
    assert forall|x: int, y: int| #[trigger] h.step(x, y) implies g.step(x, y) by {
        let j = choose|j: int| 0 <= j < h.edges[x].len() && (#[trigger] h.edges[x][j]).target == y;
        assert(x != n);
        assert(h.edges[x][j] == g.edges[x][j]);
    }
    if g.reaches(a, b) {
        let p = choose|p: Seq<int>| #[trigger] g.is_path(p) && p.first() == a && p.last() == b;
        assert forall|i: int| 0 <= i < p.len() - 1 implies #[trigger] h.link_at(p, i) by {
            assert(g.link_at(p, i));
        }
        assert(h.is_path(p));
    }
    if a == n && b == n {
        lemma_reaches_self(h, n);
    }
    if h.reaches(a, b) {
        let p = choose|p: Seq<int>| #[trigger] h.is_path(p) && p.first() == a && p.last() == b;
        if a == n {
            lemma_sink_reaches_itself(h, a, b);
        } else {
            assert forall|i: int| 0 <= i < p.len() - 1 implies #[trigger] g.link_at(p, i) by {
                assert(h.link_at(p, i));
            }
            assert(g.is_path(p));
        }
    }
}

/// A new crate read from a new source keeps the graph well formed.
pub proof fn lemma_push_crate_wf(g: GraphModel, source: Seq<char>)
    requires
        g.wf(),
        g.find_source(source) is None,
    ensures
        g.push_crate(source).wf(),
{
    let h = g.push_crate(source);
    let n = g.len();
    assert forall|a: int, j: int|
        0 <= a < h.edges.len() && 0 <= j < h.edges[a].len() implies h.contains(
        (#[trigger] h.edges[a][j]).target,
    ) by {
        assert(h.edges[a][j] == g.edges[a][j]);
    }
    assert forall|a: int, b: int| #[trigger] h.step(a, b) implies !h.reaches(b, a) by {
        lemma_push_crate_reaches(g, source, a, b);
        lemma_push_crate_reaches(g, source, b, a);
        lemma_step_reaches(h, a, b);
        if h.reaches(b, a) {
            if a == n {
                lemma_sink_reaches_itself(h, a, b);
            } else {
                let j = choose|j: int|
                    0 <= j < h.edges[a].len() && (#[trigger] h.edges[a][j]).target == b;
                assert(h.edges[a][j] == g.edges[a][j]);
                assert(g.step(a, b));
            }
        }
    }
    assert forall|i: int, j: int| 0 <= i < j < h.sources.len() implies #[trigger] h.sources[i]
        != #[trigger] h.sources[j] by {
        if j == n {
            assert(h.sources[i] == g.sources[i]);
            if g.sources[i] == Some(source) {
                assert(g.find_source(source) is Some);
            }
        }
    }
}

/// The graph of a fresh session is well formed.
pub proof fn lemma_fresh_graph_wf(entry_point: Seq<char>)
    ensures
        fresh_graph(entry_point).wf(),
{
    let g = fresh_graph(entry_point);
    assert forall|a: int, b: int| #[trigger] g.step(a, b) implies !g.reaches(b, a) by {
        assert(g.edges[a].len() == 0);
    }
}

/// In a graph whose sources are distinct, the crate read from a source is
/// the one that holds it.
pub proof fn lemma_find_source_is(g: GraphModel, source: Seq<char>, i: int)
    requires
        g.sources_distinct(),
        0 <= i < g.sources.len(),
        g.sources[i] == Some(source),
    ensures
        g.find_source(source) == Some(i),
{
    let c = choose|c: int| 0 <= c < g.sources.len() && g.sources[c] == Some(source);
    if c < i {
        assert(g.sources[c] != g.sources[i]);
    } else if i < c {
        assert(g.sources[i] != g.sources[c]);
    }
}

} // verus!
