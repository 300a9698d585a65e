//! The crate graph of one compilation session: compilation units and the
//! named, acyclic dependency edges between them.

use crate::model::{
    fresh_graph, lemma_add_edge_wf, lemma_closed_set_holds_path, lemma_find_source_is,
    lemma_fresh_graph_wf, lemma_push_crate_wf, lemma_reaches_inside, lemma_reaches_self,
    lemma_reaches_then_step, resolve_among, root_index, stdlib_index, EdgeModel, GraphModel,
};
use vstd::prelude::*;
use vstd::set_lib::{lemma_int_range, lemma_len_subset, set_int_range};

verus! {

/// Identifies one crate of a graph. The builtin crate and the root crate have
/// fixed identifiers; library crates are numbered as they are registered.
#[derive(Clone, Copy, Debug, PartialEq, Eq, Hash, Structural)]
pub struct CrateId {
    pub index: usize,
}

impl View for CrateId {
    type V = int;

    open spec fn view(&self) -> int {
        self.index as int
    }
}

/// The part a crate plays in a session.
#[derive(Clone, Copy, Debug, PartialEq, Eq, Structural)]
pub enum CrateRole {
    /// The always present standard crate, which is never linked again.
    Stdlib,
    /// The crate of the entry point.
    Root,
    /// A crate registered for a declared dependency.
    Library,
}

/// The role that belongs to a crate number.
pub open spec fn role_of(index: int) -> CrateRole {
    if index == stdlib_index() {
        CrateRole::Stdlib
    } else if index == root_index() {
        CrateRole::Root
    } else {
        CrateRole::Library
    }
}

/// A dependency edge: the crate on which another depends, and the name under
/// which the other refers to it.
#[derive(Clone, Debug, PartialEq, Eq)]
pub struct Edge {
    pub name: String,
    pub target: CrateId,
}

impl View for Edge {
    type V = EdgeModel;

    open spec fn view(&self) -> EdgeModel {
        EdgeModel { name: self.name@, target: self.target@ }
    }
}

/// Refusal of an edge from `from` to `to`, because `from` can already be
/// reached from `to`.
#[derive(Clone, Copy, Debug, PartialEq, Eq, Structural)]
pub struct CyclicDependenciesError {
    pub from: CrateId,
    pub to: CrateId,
}

#[derive(Debug)]
struct CrateData {
    source: Option<String>,
    edges: Vec<Edge>,
}

/// The crates of a session and their dependency edges.
#[derive(Debug)]
pub struct CrateGraph {
    crates: Vec<CrateData>,
}

/// A source as the contracts see it.
pub open spec fn source_model(source: Option<String>) -> Option<Seq<char>> {
    match source {
        Some(path) => Some(path@),
        None => None,
    }
}

/// A list of edges as the contracts see it.
pub open spec fn edges_model(edges: Seq<Edge>) -> Seq<EdgeModel> {
    Seq::new(edges.len(), |j: int| edges[j]@)
}

/// Crate `x` waits on the stack of a traversal.
spec fn pending(stack: Seq<usize>, x: int) -> bool {
    exists|k: int| 0 <= k < stack.len() && #[trigger] stack[k] as int == x
}

impl View for CrateGraph {
    type V = GraphModel;

    closed spec fn view(&self) -> GraphModel {
        GraphModel {
            sources: Seq::new(self.crates@.len(), |i: int| source_model(self.crates@[i].source)),
            edges: Seq::new(self.crates@.len(), |i: int| edges_model(self.crates@[i].edges@)),
        }
    }
}

impl CrateGraph {
    /// The invariant of a graph: it holds its builtin and root crate, no two
    /// crates were read from one source, and its edges form no cycle.
    pub open spec fn wf(&self) -> bool {
        self@.wf()
    }

    /// A graph with the builtin crate and the root crate read from
    /// `entry_point`.
    pub fn new(entry_point: String) -> (graph: CrateGraph)
        ensures
            graph.wf(),
            graph@ == fresh_graph(entry_point@),
    {
        let mut crates: Vec<CrateData> = Vec::new();
        crates.push(CrateData { source: None, edges: Vec::new() });
        crates.push(CrateData { source: Some(entry_point), edges: Vec::new() });
        let graph = CrateGraph { crates };
        proof {
            lemma_fresh_graph_wf(entry_point@);
            assert(graph@.sources =~= fresh_graph(entry_point@).sources);
            assert(graph@.edges[0] =~= Seq::empty());
            assert(graph@.edges[1] =~= Seq::empty());
            assert(graph@.edges =~= fresh_graph(entry_point@).edges);
        }
        graph
    }

    /// The number of crates.
    pub fn len(&self) -> (n: usize)
        ensures
            n == self@.len(),
    {
        self.crates.len()
    }

    /// The crate of the entry point.
    pub fn root_crate_id(&self) -> (id: CrateId)
        ensures
            id@ == root_index(),
    {
        CrateId { index: 1 }
    }

    /// The builtin crate.
    pub fn stdlib_crate_id(&self) -> (id: CrateId)
        ensures
            id@ == stdlib_index(),
    {
        CrateId { index: 0 }
    }

    /// The role of a crate.
    pub fn role(&self, id: CrateId) -> (role: CrateRole)
        ensures
            role == role_of(id@),
    {
        if id.index == 0 {
            CrateRole::Stdlib
        } else if id.index == 1 {
            CrateRole::Root
        } else {
            CrateRole::Library
        }
    }

    /// Every crate of the graph, in the order of registration.
    pub fn iter_crate_ids(&self) -> (ids: Vec<CrateId>)
        ensures
            ids@.len() == self@.len(),
            forall|i: int| 0 <= i < ids@.len() ==> (#[trigger] ids@[i])@ == i,
    {
        let n = self.crates.len();
        let mut ids: Vec<CrateId> = Vec::new();
        let mut i: usize = 0;
        while i < n
            invariant
                i <= n,
                ids@.len() == i,
                forall|k: int| 0 <= k < i ==> (#[trigger] ids@[k])@ == k,
            decreases n - i,
        {
            ids.push(CrateId { index: i });
            i += 1;
        }
        ids
    }

    /// The source from which a crate was read; the builtin crate has none.
    pub fn source(&self, id: CrateId) -> (source: Option<String>)
        requires
            self@.contains(id@),
        ensures
            source_model(source) == self@.sources[id@],
    {
        match &self.crates[id.index].source {
            Some(path) => Some(path.clone()),
            None => None,
        }
    }

    /// The edges that leave a crate, oldest first.
    pub fn edges(&self, id: CrateId) -> (edges: Vec<Edge>)
        requires
            self@.contains(id@),
        ensures
            edges_model(edges@) == self@.edges[id@],
    {
        let stored = &self.crates[id.index].edges;
        let mut edges: Vec<Edge> = Vec::new();
        let mut j: usize = 0;
        while j < stored.len()
            invariant
                j <= stored@.len(),
                edges@.len() == j,
                forall|k: int| 0 <= k < j ==> (#[trigger] edges@[k])@ == stored@[k]@,
            decreases stored@.len() - j,
        {
            edges.push(Edge { name: stored[j].name.clone(), target: stored[j].target });
            j += 1;
        }
        assert(edges_model(edges@) =~= edges_model(stored@));
        edges
    }

    /// Registers the crate read from `source` and returns its identifier. A
    /// source that was registered before keeps the crate it has; any other
    /// gets a new crate without edges.
    pub fn add_crate(&mut self, source: String) -> (id: CrateId)
        requires
            old(self).wf(),
        ensures
            final(self).wf(),
            final(self)@ == old(self)@.register(source@),
            id@ == old(self)@.registered_index(source@),
            final(self)@.contains(id@),
    {
        let n = self.crates.len();
        let mut i: usize = 1;
        while i < n
            invariant
                1 <= i <= n,
                n == self.crates@.len(),
                self.wf(),
                forall|k: int| 0 <= k < i ==> (#[trigger] self@.sources[k]) != Some(source@),
            decreases n - i,
        {
            let found = match &self.crates[i].source {
                Some(path) => *path == source,
                None => false,
            };
            if found {
                proof {
                    lemma_find_source_is(self@, source@, i as int);
                }
                return CrateId { index: i };
            }
            i += 1;
        }
        proof {
            assert(self@.find_source(source@) is None);
            lemma_push_crate_wf(self@, source@);
        }
        let ghost before = self@;
        self.crates.push(CrateData { source: Some(source), edges: Vec::new() });
        proof {
            let after = self@;
            let expected = before.push_crate(source@);
            assert(after.sources =~= expected.sources);
            assert forall|k: int| 0 <= k < after.edges.len() implies after.edges[k]
                == expected.edges[k] by {
                if k == n {
                    assert(after.edges[k] =~= Seq::empty());
                }
            }
            assert(after.edges =~= expected.edges);
        }
        CrateId { index: n }
    }

    /// Whether `goal` can be reached from `start` along zero or more edges.
    pub fn reaches(&self, start: CrateId, goal: CrateId) -> (found: bool)
        requires
            self.wf(),
        ensures
            found == self@.reaches(start@, goal@),
    {
        let n = self.crates.len();
        let ghost g = self@;
        if start.index >= n || goal.index >= n {
            proof {
                if g.reaches(start@, goal@) {
                    lemma_reaches_inside(g, start@, goal@);
                }
            }
            return false;
        }
        let mut visited: Vec<bool> = Vec::new();
        let mut i: usize = 0;
        while i < n
            invariant
                i <= n,
                visited@.len() == i,
                forall|k: int| 0 <= k < i ==> !(#[trigger] visited@[k]),
            decreases n - i,
        {
            visited.push(false);
            i += 1;
        }
        let mut stack: Vec<usize> = Vec::new();
        visited[start.index] = true;
        stack.push(start.index);
        let ghost mut seen: Set<int> = set![start@];
        let ghost mut done: Set<int> = Set::empty();
        proof {
            lemma_reaches_self(g, start@);
            lemma_int_range(0, n as int);
            lemma_len_subset(seen, set_int_range(0, n as int));
            assert(stack@[0] as int == start@);
        }
        while stack.len() > 0
            invariant
                self.wf(),
                g == self@,
                n == self.crates@.len(),
                visited@.len() == n,
                start.index < n,
                seen.finite(),
                seen.len() <= n,
                forall|x: int| seen.contains(x) ==> 0 <= x < n,
                forall|x: int| 0 <= x < n ==> (#[trigger] visited@[x] <==> seen.contains(x)),
                forall|k: int|
                    0 <= k < stack@.len() ==> (#[trigger] stack@[k]) < n && seen.contains(
                        stack@[k] as int,
                    ),
                seen.contains(start@),
                forall|x: int| seen.contains(x) ==> g.reaches(start@, x),
                forall|x: int| seen.contains(x) ==> done.contains(x) || pending(stack@, x),
                forall|a: int, b: int| done.contains(a) && #[trigger] g.step(a, b) ==> seen.contains(b),
            decreases 2 * (n - seen.len()) + stack@.len(),
        {
            let ghost stack_before = stack@;
            let ghost budget = 2 * (n - seen.len()) + stack@.len();
            let u = stack.pop().unwrap();
            assert(u == stack_before[stack_before.len() - 1]);
            assert forall|x: int| seen.contains(x) implies done.contains(x) || pending(stack@, x)
                || x == u by {
                if !done.contains(x) {
                    let k = choose|k: int|
                        0 <= k < stack_before.len() && #[trigger] stack_before[k] as int == x;
                    if k < stack@.len() {
                        assert(stack@[k] as int == x);
                    }
                }
            }
            let m = self.crates[u].edges.len();
            let mut j: usize = 0;
            while j < m
                invariant
                    self.wf(),
                    g == self@,
                    n == self.crates@.len(),
                    visited@.len() == n,
                    u < n,
                    m == self.crates@[u as int].edges@.len(),
                    j <= m,
                    seen.finite(),
                    seen.len() <= n,
                    forall|x: int| seen.contains(x) ==> 0 <= x < n,
                    forall|x: int| 0 <= x < n ==> (#[trigger] visited@[x] <==> seen.contains(x)),
                    forall|k: int|
                        0 <= k < stack@.len() ==> (#[trigger] stack@[k]) < n && seen.contains(
                            stack@[k] as int,
                        ),
                    seen.contains(start@),
                    seen.contains(u as int),
                    forall|x: int| seen.contains(x) ==> g.reaches(start@, x),
                    forall|x: int|
                        seen.contains(x) ==> done.contains(x) || pending(stack@, x) || x == u,
                    forall|a: int, b: int|
                        done.contains(a) && #[trigger] g.step(a, b) ==> seen.contains(b),
                    forall|k: int| 0 <= k < j ==> seen.contains((#[trigger] g.edges[u as int][k]).target),
                    2 * (n - seen.len()) + stack@.len() < budget,
                decreases m - j,
            {
                let v = self.crates[u].edges[j].target.index;
                proof {
                    assert(g.edges[u as int][j as int].target == v);
                    assert(g.contains(g.edges[u as int][j as int].target));
                    assert(g.step(u as int, v as int));
                }
                if !visited[v] {
                    let ghost stack_old = stack@;
                    visited[v] = true;
                    stack.push(v);
                    proof {
                        lemma_reaches_then_step(g, start@, u as int, v as int);
                        seen = seen.insert(v as int);
                        lemma_int_range(0, n as int);
                        lemma_len_subset(seen, set_int_range(0, n as int));
                        assert(stack@[stack_old.len() as int] as int == v);
                        assert forall|x: int| seen.contains(x) implies done.contains(x) || pending(
                            stack@,
                            x,
                        ) || x == u by {
                            if x != v && !done.contains(x) && x != u {
                                let k = choose|k: int|
                                    0 <= k < stack_old.len() && #[trigger] stack_old[k] as int == x;
                                assert(stack@[k] as int == x);
                            }
                        }
                    }
                }
                j += 1;
            }
            proof {
                assert forall|b: int| #[trigger] g.step(u as int, b) implies seen.contains(b) by {
                    let k = choose|k: int|
                        0 <= k < g.edges[u as int].len() && (#[trigger] g.edges[u as int][k]).target
                            == b;
                }
                done = done.insert(u as int);
            }
        }
        proof {
            assert forall|x: int| seen.contains(x) implies done.contains(x) by {
                assert(!pending(stack@, x));
            }
            if g.reaches(start@, goal@) {
                let p = choose|p: Seq<int>|
                    #[trigger] g.is_path(p) && p.first() == start@ && p.last() == goal@;
                lemma_closed_set_holds_path(g, seen, p, p.len() - 1);
            }
        }
        visited[goal.index]
    }

    /// Adds an edge called `name` from `from` to `to`, behind the edges that
    /// `from` already has. An edge that would close a cycle is refused and
    /// leaves the graph as it was.
    pub fn add_edge(&mut self, from: CrateId, name: String, to: CrateId) -> (outcome: Result<
        (),
        CyclicDependenciesError,
    >)
        requires
            old(self).wf(),
            old(self)@.contains(from@),
            old(self)@.contains(to@),
        ensures
            final(self).wf(),
            outcome is Err <==> old(self)@.reaches(to@, from@),
            outcome is Err ==> final(self)@ == old(self)@ && outcome == Err::<
                (),
                CyclicDependenciesError,
            >(CyclicDependenciesError { from, to }),
            outcome is Ok ==> final(self)@ == old(self)@.add_edge(from@, name@, to@),
    {
        if self.reaches(to, from) {
            return Err(CyclicDependenciesError { from, to });
        }
        let ghost before = self@;
        proof {
            lemma_add_edge_wf(before, from@, name@, to@);
        }
        self.crates[from.index].edges.push(Edge { name, target: to });
        proof {
            let after = self@;
            let expected = before.add_edge(from@, name@, to@);
            assert(after.sources =~= expected.sources);
            assert forall|k: int| 0 <= k < after.edges.len() implies after.edges[k]
                == expected.edges[k] by {
                if k == from@ {
                    assert(after.edges[k] =~= expected.edges[k]);
                } else {
                    assert(after.edges[k] =~= expected.edges[k]);
                }
            }
            assert(after.edges =~= expected.edges);
        }
        Ok(())
    }

    /// The crate that `name` stands for in crate `from`: the target of the
    /// newest edge of that name that leaves `from`.
    pub fn resolve(&self, from: CrateId, name: &String) -> (target: Option<CrateId>)
        requires
            self@.contains(from@),
        ensures
            match target {
                Some(id) => self@.resolve(from@, name@) == Some(id@),
                None => self@.resolve(from@, name@) is None,
            },
    {
        let edges = &self.crates[from.index].edges;
        let ghost all = self@.edges[from@];
        assert(all.subrange(0, all.len() as int) =~= all);
        let mut j: usize = edges.len();
        while j > 0
            invariant
                j <= edges@.len(),
                all == edges_model(edges@),
                all == self@.edges[from@],
                resolve_among(all, name@) == resolve_among(all.subrange(0, j as int), name@),
            decreases j,
        {
            j -= 1;
            proof {
                let head = all.subrange(0, j + 1);
                assert(head.last() == edges@[j as int]@);
                assert(head.drop_last() =~= all.subrange(0, j as int));
                assert(resolve_among(head, name@) == if head.last().name == name@ {
                    Some(head.last().target)
                } else {
                    resolve_among(head.drop_last(), name@)
                });
            }
            if edges[j].name == *name {
                return Some(edges[j].target);
            }
        }
        proof {
            assert(all.subrange(0, 0).len() == 0);
        }
        None
    }

    /// Whether `from` has an edge called `name` to `to`.
    pub fn has_edge(&self, from: CrateId, name: &String, to: CrateId) -> (found: bool)
        ensures
            found == self@.has_edge(from@, name@, to@),
    {
        if from.index >= self.crates.len() {
            return false;
        }
        let edges = &self.crates[from.index].edges;
        let ghost all = self@.edges[from@];
        let ghost wanted = EdgeModel { name: name@, target: to@ };
        let mut j: usize = 0;
        while j < edges.len()
            invariant
                j <= edges@.len(),
                all == edges_model(edges@),
                all == self@.edges[from@],
                self@.contains(from@),
                wanted == (EdgeModel { name: name@, target: to@ }),
                forall|k: int| 0 <= k < j ==> all[k] != wanted,
            decreases edges@.len() - j,
        {
            if edges[j].name == *name && edges[j].target == to {
                assert(all[j as int] == wanted);
                assert(all.contains(wanted));
                return true;
            }
            j += 1;
        }
        false
    }
}

} // verus!
