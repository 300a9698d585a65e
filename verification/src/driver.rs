//! The compilation pipeline. A session is started from an entry point and
//! its declared dependencies; the frontend and the optimizer run outside the
//! library, and each of their outcomes is handed to `Session::step`, which
//! decides what happens next.

use crate::artifacts::{
    is_preprocessed_contract, is_preprocessed_program, preprocess_contract, preprocess_program,
    CompiledContract, CompiledProgram, PreprocessedContract, PreprocessedProgram,
    BACKEND_IDENTIFIER,
};
use crate::dialect::{target_language, Language, PLONK_WIDTH};
use crate::errors::{CompileError, CompileMode};
use crate::graph::CrateGraph;
use crate::linker::{dependencies_model, link_dependencies, reports, Dependency};
use crate::linking::{link_all, DependencyModel};
use crate::model::fresh_graph;
use vstd::prelude::*;

verus! {

/// A compiled representation, of a program or of a contract.
#[derive(Debug, PartialEq)]
pub enum Compiled<Abi, Event, DebugInfo> {
    Program(CompiledProgram<Abi, DebugInfo>),
    Contract(CompiledContract<Abi, Event, DebugInfo>),
}

/// The artifact that a finished session hands to its caller.
#[derive(Debug, PartialEq)]
pub enum Artifact<Abi, Event> {
    Program(PreprocessedProgram<Abi>),
    Contract(PreprocessedContract<Abi, Event>),
}

/// Where a session stands.
#[derive(Clone, Copy, Debug, PartialEq, Eq, Structural)]
pub enum Stage {
    /// The graph is linked; the frontend is to compile the root crate in the
    /// session's mode.
    Frontend,
    /// The frontend has succeeded; the optimizer is to lower what it returned.
    Optimizer,
    /// The session has ended.
    Finished,
}

/// What the work done outside the library came to.
#[derive(Debug, PartialEq)]
pub enum Outcome<Abi, Event, DebugInfo> {
    /// The frontend has returned: a compiled representation, or nothing where
    /// it rejected the source.
    Frontend(Option<Compiled<Abi, Event, DebugInfo>>),
    /// The optimizer has returned: the optimized representation, or nothing
    /// where it failed.
    Optimizer(Option<Compiled<Abi, Event, DebugInfo>>),
}

/// What is to be done next.
#[derive(Debug, PartialEq)]
pub enum Action<Abi, Event, DebugInfo> {
    /// Lower `compiled` into `language` and hand back what the optimizer
    /// returns.
    Optimize { compiled: Compiled<Abi, Event, DebugInfo>, language: Language },
    /// Return this to the caller.
    Finish(Result<Artifact<Abi, Event>, CompileError>),
}

/// One compilation session: its linked crate graph, the output it is to
/// produce, and how far it has come.
#[derive(Debug)]
pub struct Session {
    pub graph: CrateGraph,
    pub mode: CompileMode,
    pub stage: Stage,
}

/// The mode that the caller's flag selects: a contract where it is set, a
/// program where it is cleared or absent.
pub open spec fn selected_mode(contracts: Option<bool>) -> CompileMode {
    if contracts == Some(true) {
        CompileMode::Contract
    } else {
        CompileMode::Program
    }
}

/// The declared dependencies as the contracts see them; none where the
/// caller gave no list.
pub open spec fn declared(dependencies: Option<Vec<Dependency>>) -> Seq<DependencyModel> {
    match dependencies {
        Some(list) => dependencies_model(list@),
        None => Seq::empty(),
    }
}

/// The mode of a compiled representation.
pub open spec fn compiled_mode<Abi, Event, DebugInfo>(
    compiled: Compiled<Abi, Event, DebugInfo>,
) -> CompileMode {
    match compiled {
        Compiled::Program(_) => CompileMode::Program,
        Compiled::Contract(_) => CompileMode::Contract,
    }
}

/// The mode of an artifact.
pub open spec fn artifact_mode<Abi, Event>(artifact: Artifact<Abi, Event>) -> CompileMode {
    match artifact {
        Artifact::Program(_) => CompileMode::Program,
        Artifact::Contract(_) => CompileMode::Contract,
    }
}

/// The backend that an artifact names.
pub open spec fn artifact_backend<Abi, Event>(artifact: Artifact<Abi, Event>) -> Seq<char> {
    match artifact {
        Artifact::Program(program) => program.backend@,
        Artifact::Contract(contract) => contract.backend@,
    }
}

/// `artifact` is `optimized` in the shape that callers receive.
pub open spec fn is_shaped<Abi, Event, DebugInfo>(
    optimized: Compiled<Abi, Event, DebugInfo>,
    artifact: Artifact<Abi, Event>,
) -> bool {
    match optimized {
        Compiled::Program(program) => artifact matches Artifact::Program(out)
            && is_preprocessed_program(program, out),
        Compiled::Contract(contract) => artifact matches Artifact::Contract(out)
            && is_preprocessed_contract(contract, out),
    }
}

/// What `action` and which next stage answer `outcome` for a session in
/// `mode` at `stage`.
///
/// At the frontend stage, a compiled representation of the session's mode
/// goes to the optimizer with the target dialect, and a rejection ends the
/// session with the recoverable error of that mode. At the optimizer stage,
/// an optimized representation of the session's mode is shaped into the
/// artifact, and a failure ends the session with the fatal error of that
/// mode. Whatever does not answer the pending request ends the session with
/// a fatal error.
pub open spec fn answers<Abi, Event, DebugInfo>(
    mode: CompileMode,
    stage: Stage,
    outcome: Outcome<Abi, Event, DebugInfo>,
    next: Stage,
    action: Action<Abi, Event, DebugInfo>,
) -> bool {
    match (stage, outcome) {
        (Stage::Frontend, Outcome::Frontend(Some(compiled))) => if compiled_mode(compiled)
            == mode {
            next == Stage::Optimizer && action == (Action::Optimize {
                compiled,
                language: Language::PLONKCSat { width: PLONK_WIDTH },
            })
        } else {
            next == Stage::Finished && action == Action::<Abi, Event, DebugInfo>::Finish(
                Err(CompileError::UnexpectedOutcome),
            )
        },
        (Stage::Frontend, Outcome::Frontend(None)) => next == Stage::Finished && action
            == Action::<Abi, Event, DebugInfo>::Finish(Err(CompileError::CompilationFailed { mode })),
        (Stage::Optimizer, Outcome::Optimizer(Some(optimized))) => if compiled_mode(optimized)
            == mode {
            &&& next == Stage::Finished
            &&& action matches Action::Finish(Ok(artifact))
            &&& is_shaped(optimized, artifact)
        } else {
            next == Stage::Finished && action == Action::<Abi, Event, DebugInfo>::Finish(
                Err(CompileError::UnexpectedOutcome),
            )
        },
        (Stage::Optimizer, Outcome::Optimizer(None)) => next == Stage::Finished && action
            == Action::<Abi, Event, DebugInfo>::Finish(Err(CompileError::OptimizationFailed { mode })),
        _ => next == Stage::Finished && action == Action::<Abi, Event, DebugInfo>::Finish(
            Err(CompileError::UnexpectedOutcome),
        ),
    }
}

/// Starts a session: builds the crate graph with the root crate read from
/// `entry_point`, links the declared dependencies in order, and selects the
/// mode. The session then waits for the frontend. Where linking fails, no
/// session is started and the fatal error of the failing dependency is
/// returned.
pub fn compile(
    entry_point: String,
    contracts: Option<bool>,
    dependencies: Option<Vec<Dependency>>,
) -> (started: Result<Session, CompileError>)
    ensures
        match started {
            Ok(session) => {
                &&& link_all(fresh_graph(entry_point@), declared(dependencies)).1 is Linked
                &&& session.graph.wf()
                &&& session.graph@ == link_all(fresh_graph(entry_point@), declared(dependencies)).0
                &&& session.mode == selected_mode(contracts)
                &&& session.stage == Stage::Frontend
            },
            Err(error) => {
                &&& !(link_all(fresh_graph(entry_point@), declared(dependencies)).1 is Linked)
                &&& reports(
                    Err(error),
                    link_all(fresh_graph(entry_point@), declared(dependencies)).1,
                )
            },
        },
{
    let mut graph = CrateGraph::new(entry_point);
    let dependencies = match dependencies {
        Some(list) => list,
        None => Vec::new(),
    };
    match link_dependencies(&mut graph, dependencies) {
        Ok(()) => {},
        Err(error) => {
            return Err(error);
        },
    }
    let mode = match contracts {
        Some(true) => CompileMode::Contract,
        _ => CompileMode::Program,
    };
    Ok(Session { graph, mode, stage: Stage::Frontend })
}

impl Session {
    /// Takes the outcome of the work done outside and says what is to be
    /// done next. The graph and the mode of the session stay as they are.
    pub fn step<Abi, Event, DebugInfo>(self, outcome: Outcome<Abi, Event, DebugInfo>) -> (next: (
        Session,
        Action<Abi, Event, DebugInfo>,
    ))
        ensures
            next.0.graph == self.graph,
            next.0.mode == self.mode,
            answers(self.mode, self.stage, outcome, next.0.stage, next.1),
    {
        let Session { graph, mode, stage } = self;
        let (stage, action) = match (stage, outcome) {
            (Stage::Frontend, Outcome::Frontend(Some(compiled))) => {
                if matches_mode(&compiled, mode) {
                    (Stage::Optimizer, Action::Optimize { compiled, language: target_language() })
                } else {
                    (Stage::Finished, Action::Finish(Err(CompileError::UnexpectedOutcome)))
                }
            },
            (Stage::Frontend, Outcome::Frontend(None)) => {
                (Stage::Finished, Action::Finish(Err(CompileError::CompilationFailed { mode })))
            },
            (Stage::Optimizer, Outcome::Optimizer(Some(optimized))) => {
                if matches_mode(&optimized, mode) {
                    (Stage::Finished, Action::Finish(Ok(shape(optimized))))
                } else {
                    (Stage::Finished, Action::Finish(Err(CompileError::UnexpectedOutcome)))
                }
            },
            (Stage::Optimizer, Outcome::Optimizer(None)) => {
                (Stage::Finished, Action::Finish(Err(CompileError::OptimizationFailed { mode })))
            },
            _ => (Stage::Finished, Action::Finish(Err(CompileError::UnexpectedOutcome))),
        };
        (Session { graph, mode, stage }, action)
    }
}

/// Whether `compiled` is of the given mode.
pub fn matches_mode<Abi, Event, DebugInfo>(
    compiled: &Compiled<Abi, Event, DebugInfo>,
    mode: CompileMode,
) -> (same: bool)
    ensures
        same == (compiled_mode(*compiled) == mode),
{
    match (compiled, mode) {
        (Compiled::Program(_), CompileMode::Program) => true,
        (Compiled::Contract(_), CompileMode::Contract) => true,
        _ => false,
    }
}

/// Shapes an optimized representation into the artifact of its mode.
pub fn shape<Abi, Event, DebugInfo>(optimized: Compiled<Abi, Event, DebugInfo>) -> (artifact:
    Artifact<Abi, Event>)
    ensures
        is_shaped(optimized, artifact),
{
    match optimized {
        Compiled::Program(program) => Artifact::Program(preprocess_program(program)),
        Compiled::Contract(contract) => Artifact::Contract(preprocess_contract(contract)),
    }
}

/// The flag selects the output. Whatever the frontend and the optimizer
/// hand back, a session that ends with an artifact ends with one of its own
/// mode: never a contract in program mode, never a program in contract mode.
pub proof fn lemma_artifact_has_session_mode<Abi, Event, DebugInfo>(
    mode: CompileMode,
    stage: Stage,
    outcome: Outcome<Abi, Event, DebugInfo>,
    next: Stage,
    action: Action<Abi, Event, DebugInfo>,
)
    requires
        answers(mode, stage, outcome, next, action),
    ensures
        action matches Action::Finish(Ok(artifact)) ==> artifact_mode(artifact) == mode,
        action matches Action::Optimize { compiled, .. } ==> compiled_mode(compiled) == mode,
{
}

/// The backend is fixed. Whatever the optimizer hands back, the artifact
/// names the one backend.
pub proof fn lemma_artifact_names_backend<Abi, Event, DebugInfo>(
    mode: CompileMode,
    stage: Stage,
    outcome: Outcome<Abi, Event, DebugInfo>,
    next: Stage,
    action: Action<Abi, Event, DebugInfo>,
)
    requires
        answers(mode, stage, outcome, next, action),
    ensures
        action matches Action::Finish(Ok(artifact)) ==> artifact_backend(artifact)
            == BACKEND_IDENTIFIER@,
{
}

/// A session ends with an artifact only at the optimizer stage, and only
/// for an optimized representation of its mode, which the artifact carries.
pub proof fn lemma_artifact_only_from_optimizer<Abi, Event, DebugInfo>(
    mode: CompileMode,
    stage: Stage,
    outcome: Outcome<Abi, Event, DebugInfo>,
    next: Stage,
    action: Action<Abi, Event, DebugInfo>,
)
    requires
        answers(mode, stage, outcome, next, action),
        action is Finish,
        action->Finish_0 is Ok,
    ensures
        stage == Stage::Optimizer,
        outcome matches Outcome::Optimizer(Some(optimized)) && compiled_mode(optimized) == mode
            && is_shaped(optimized, action->Finish_0->Ok_0),
{
}

/// Compiling twice gives the same. Two sessions in one mode at one stage
/// that are handed the same outcome go to the same stage and ask for the
/// same, and where they end with artifacts, the two agree in every field.
pub proof fn lemma_same_outcome_same_answer<Abi, Event, DebugInfo>(
    mode: CompileMode,
    stage: Stage,
    outcome: Outcome<Abi, Event, DebugInfo>,
    next1: Stage,
    action1: Action<Abi, Event, DebugInfo>,
    next2: Stage,
    action2: Action<Abi, Event, DebugInfo>,
)
    requires
        answers(mode, stage, outcome, next1, action1),
        answers(mode, stage, outcome, next2, action2),
    ensures
        next1 == next2,
        action1 is Optimize ==> action1 == action2,
        action1 matches Action::Finish(Err(_)) ==> action1 == action2,
        action1 matches Action::Finish(Ok(first)) ==> (action2 matches Action::Finish(Ok(second))
            && agree(first, second)),
{
}

/// Two artifacts are the same in every field.
pub open spec fn agree<Abi, Event>(first: Artifact<Abi, Event>, second: Artifact<Abi, Event>) -> bool {
    match (first, second) {
        (Artifact::Program(a), Artifact::Program(b)) => {
            &&& a.hash == b.hash
            &&& a.backend@ == b.backend@
            &&& a.abi == b.abi
            &&& a.bytecode == b.bytecode
        },
        (Artifact::Contract(a), Artifact::Contract(b)) => {
            &&& a.name == b.name
            &&& a.backend@ == b.backend@
            &&& a.functions@ == b.functions@
            &&& a.events == b.events
        },
        _ => false,
    }
}

} // verus!
