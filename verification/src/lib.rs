//! Orchestration of one compilation session: a crate graph with acyclic named
//! dependency edges, the linker that wires declared libraries into it, the
//! program/contract pipeline around the frontend and the circuit optimizer,
//! and the shape of the artifacts handed to callers.

pub mod artifacts;
pub mod dialect;
pub mod driver;
pub mod errors;
pub mod graph;
pub mod linker;
pub mod linking;
pub mod mesh;
pub mod model;

pub use crate::driver::{compile, Action, Artifact, Compiled, Outcome, Session, Stage};
pub use crate::errors::{CompileError, CompileMode, Severity};
pub use crate::graph::{CrateGraph, CrateId};
pub use crate::linker::Dependency;
