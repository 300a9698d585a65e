//! The dependency linker: turns declared libraries into crates of the graph
//! and makes each of them visible, under its declared name, to the root crate
//! and to every library registered before it.

use crate::errors::{CompileError, Severity};
use crate::graph::{CrateGraph, CrateId, CyclicDependenciesError};
use crate::linking::{
    blocks, entry_path, first_blocking, full_mesh, lemma_first_blocking_is, lemma_full_mesh_next,
    lemma_full_mesh_reaches, lemma_full_mesh_start, lemma_link_all_stops, lemma_register_wf,
    link_all, link_library, propagate, propagation_blocked, valid_crate_name, DependencyModel,
    LinkVerdict,
};
use crate::model::{root_index, stdlib_index};
use vstd::prelude::*;
use vstd::string::*;

verus! {

/// A declared dependency: the name under which a library is referred to, and
/// the directory that holds it.
#[derive(Clone, Debug, PartialEq, Eq)]
pub struct Dependency {
    pub name: String,
    pub package_root: String,
}

impl View for Dependency {
    type V = DependencyModel;

    open spec fn view(&self) -> DependencyModel {
        DependencyModel { name: self.name@, package_root: self.package_root@ }
    }
}

/// A list of declared dependencies as the contracts see it.
pub open spec fn dependencies_model(dependencies: Seq<Dependency>) -> Seq<DependencyModel> {
    Seq::new(dependencies.len(), |i: int| dependencies[i]@)
}

/// Whether `outcome` tells the caller of `verdict`: success for a finished
/// linking, else the fatal error of that kind with the offending name.
pub open spec fn reports(outcome: Result<(), CompileError>, verdict: LinkVerdict) -> bool {
    match verdict {
        LinkVerdict::Linked => outcome is Ok,
        LinkVerdict::MalformedName { name } => {
            &&& outcome matches Err(CompileError::MalformedDependencyName { name: reported })
            &&& reported@ == name
        },
        LinkVerdict::Cycle { library } => {
            &&& outcome matches Err(CompileError::CyclicDependency { library: reported })
            &&& reported@ == library
        },
    }
}

/// A failed linking is reported as a fatal error.
pub proof fn lemma_link_failures_are_fatal(outcome: Result<(), CompileError>, verdict: LinkVerdict)
    requires
        reports(outcome, verdict),
        !(verdict is Linked),
    ensures
        outcome is Err,
        outcome->Err_0.severity_spec() == Severity::Fatal,
{
}

/// Whether `name` can name a crate: it is not empty and holds no hyphen.
pub fn is_valid_crate_name(name: &String) -> (valid: bool)
    ensures
        valid == valid_crate_name(name@),
{
    let text = name.as_str();
    let n = text.unicode_len();
    if n == 0 {
        return false;
    }
    let mut i: usize = 0;
    while i < n
        invariant
            i <= n,
            n == text@.len(),
            text@ == name@,
            forall|k: int| 0 <= k < i ==> text@[k] != '-',
        decreases n - i,
    {
        if text.get_char(i) == '-' {
            return false;
        }
        i += 1;
    }
    true
}

/// The entry source unit of the library kept at `package_root`.
pub fn library_entry_path(package_root: &String) -> (path: String)
    ensures
        path@ == entry_path(package_root@),
{
    let n = package_root.as_str().unicode_len();
    let mut path = package_root.clone();
    if n > 0 && package_root.as_str().get_char(n - 1) != '/' {
        path.append("/");
    }
    path.append("src/lib.nr");
    path
}

/// The full-mesh linking policy. In the order of registration, every crate
/// but the builtin crate, the root crate and the library itself gets an edge
/// to `library` under `name`, so that every library that is already there
/// sees the new one whether it asked to or not. The first edge that would
/// close a cycle is refused; the edges added before it stay.
pub fn propagate_full_mesh(graph: &mut CrateGraph, name: &String, library: CrateId) -> (outcome:
    Result<(), CyclicDependenciesError>)
    requires
        old(graph).wf(),
        old(graph)@.contains(library@),
    ensures
        final(graph).wf(),
        final(graph)@ == propagate(old(graph)@, name@, library@),
        outcome is Err <==> propagation_blocked(old(graph)@, library@),
        outcome matches Err(refused) ==> refused.from@ == first_blocking(
            old(graph)@,
            library@,
            0,
        ) && refused.to == library,
{
    let ghost start = graph@;
    let ghost id = library@;
    let root_crate_id = graph.root_crate_id();
    let stdlib_crate_id = graph.stdlib_crate_id();
    let crate_ids = graph.iter_crate_ids();
    let n = crate_ids.len();
    proof {
        lemma_full_mesh_start(start, name@, id, 0);
    }
    let mut i: usize = 0;
    while i < n
        invariant
            i <= n,
            n == start.len(),
            n == crate_ids@.len(),
            forall|k: int| 0 <= k < n ==> (#[trigger] crate_ids@[k])@ == k,
            graph.wf(),
            start.wf(),
            start == old(graph)@,
            start.contains(id),
            id == library@,
            root_crate_id@ == root_index(),
            stdlib_crate_id@ == stdlib_index(),
            graph@ == full_mesh(start, name@, id, i as int),
            forall|c: int| 0 <= c < i ==> !blocks(start, id, c),
        decreases n - i,
    {
        let crate_id = crate_ids[i];
        proof {
            lemma_full_mesh_next(start, name@, id, i as int);
            lemma_full_mesh_reaches(start, name@, id, i as int, i as int);
        }
        if crate_id != library && crate_id != root_crate_id && crate_id != stdlib_crate_id {
            match graph.add_edge(crate_id, name.clone(), library) {
                Ok(()) => {},
                Err(refused) => {
                    proof {
                        lemma_first_blocking_is(start, id, 0, i as int);
                    }
                    return Err(refused);
                },
            }
        }
        i += 1;
    }
    proof {
        lemma_first_blocking_is(start, id, 0, n as int);
    }
    Ok(())
}

/// Links one declared library into the graph: registers its entry source
/// unit, gives the root crate an edge to it under the declared name, and
/// lays the full mesh. A malformed name, which is found after the
/// registration, or an edge that would close a cycle ends the linking with a
/// fatal error and leaves the edges added so far in place.
pub fn add_noir_lib(graph: &mut CrateGraph, library: Dependency) -> (outcome: Result<
    (),
    CompileError,
>)
    requires
        old(graph).wf(),
    ensures
        final(graph).wf(),
        final(graph)@ == link_library(old(graph)@, library@).0,
        reports(outcome, link_library(old(graph)@, library@).1),
{
    let path_to_lib = library_entry_path(&library.package_root);
    proof {
        lemma_register_wf(graph@, path_to_lib@);
    }
    let library_crate_id = graph.add_crate(path_to_lib);

    if !is_valid_crate_name(&library.name) {
        return Err(CompileError::MalformedDependencyName { name: library.name });
    }
    let root_crate_id = graph.root_crate_id();
    match graph.add_edge(root_crate_id, library.name.clone(), library_crate_id) {
        Ok(()) => {},
        Err(_) => {
            return Err(CompileError::CyclicDependency { library: library.name });
        },
    }
    match propagate_full_mesh(graph, &library.name, library_crate_id) {
        Ok(()) => Ok(()),
        Err(_) => Err(CompileError::CyclicDependency { library: library.name }),
    }
}

/// Links the declared libraries in order and stops at the first that fails.
pub fn link_dependencies(graph: &mut CrateGraph, dependencies: Vec<Dependency>) -> (outcome:
    Result<(), CompileError>)
    requires
        old(graph).wf(),
    ensures
        final(graph).wf(),
        final(graph)@ == link_all(old(graph)@, dependencies_model(dependencies@)).0,
        reports(outcome, link_all(old(graph)@, dependencies_model(dependencies@)).1),
{
    let ghost declared = dependencies@;
    let ghost all = dependencies_model(declared);
    let ghost start = graph@;
    assert(all.subrange(0, 0) =~= Seq::empty());
    for dependency in it: dependencies.into_iter()
        invariant
            it.seq() == declared,
            all == dependencies_model(declared),
            start == old(graph)@,
            graph.wf(),
            link_all(start, all.subrange(0, it.index() as int)) == (graph@, LinkVerdict::Linked),
    {
        proof {
            let longer = all.subrange(0, it.index() + 1);
            assert(longer.drop_last() =~= all.subrange(0, it.index() as int));
            assert(longer.last() == dependency@);
        }
        match add_noir_lib(graph, dependency) {
            Ok(()) => {},
            Err(error) => {
                proof {
                    lemma_link_all_stops(start, all, it.index() + 1);
                }
                return Err(error);
            },
        }
    }
    assert(all.subrange(0, all.len() as int) =~= all);
    Ok(())
}

} // verus!
