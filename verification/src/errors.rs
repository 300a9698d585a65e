//! The single error channel of a compilation session.

use vstd::prelude::*;
use vstd::string::*;

verus! {

/// Which of the two mutually exclusive outputs a session produces.
#[derive(Clone, Copy, Debug, PartialEq, Eq, Structural)]
pub enum CompileMode {
    /// A single program, compiled from the root crate's entry function.
    Program,
    /// A contract with its functions and events.
    Contract,
}

/// Whether a caller may expect to see an error in ordinary use.
#[derive(Clone, Copy, Debug, PartialEq, Eq, Structural)]
pub enum Severity {
    /// The frontend rejected the source; the caller is told so.
    Recoverable,
    /// The session itself cannot go on.
    Fatal,
}

/// Why a compilation session ended without an artifact.
#[derive(Clone, Debug, PartialEq, Eq)]
pub enum CompileError {
    /// The frontend could not compile the root crate in the given mode.
    CompilationFailed { mode: CompileMode },
    /// Linking the named library would have closed a dependency cycle.
    CyclicDependency { library: String },
    /// A declared dependency name is empty or holds a hyphen.
    MalformedDependencyName { name: String },
    /// The optimizer could not lower the compiled representation.
    OptimizationFailed { mode: CompileMode },
    /// The outcome handed to the pipeline does not answer its last request.
    UnexpectedOutcome,
}

impl CompileError {
    /// Only a frontend failure is recoverable; every other error is fatal.
    pub open spec fn severity_spec(self) -> Severity {
        match self {
            CompileError::CompilationFailed { .. } => Severity::Recoverable,
            _ => Severity::Fatal,
        }
    }

    /// The text shown for each error.
    pub open spec fn message_spec(self) -> Seq<char> {
        match self {
            CompileError::CompilationFailed { mode: CompileMode::Program } =>
                "Failed to compile program"@,
            CompileError::CompilationFailed { mode: CompileMode::Contract } =>
                "Failed to compile contract"@,
            CompileError::CyclicDependency { library } =>
                "ICE: Cyclic error triggered by "@ + library@ + " library"@,
            CompileError::MalformedDependencyName { name } =>
                "Package names must be non-empty and cannot contain hyphens: "@ + name@,
            CompileError::OptimizationFailed { mode: CompileMode::Program } =>
                "Program optimization failed"@,
            CompileError::OptimizationFailed { mode: CompileMode::Contract } =>
                "Contract optimization failed"@,
            CompileError::UnexpectedOutcome =>
                "Outcome does not match the pending request"@,
        }
    }

    /// Whether the caller may expect the error in ordinary use.
    pub fn severity(&self) -> (severity: Severity)
        ensures
            severity == self.severity_spec(),
    {
        match self {
            CompileError::CompilationFailed { .. } => Severity::Recoverable,
            _ => Severity::Fatal,
        }
    }

    /// Whether the error ends the invocation rather than being reported.
    pub fn is_fatal(&self) -> (fatal: bool)
        ensures
            fatal == (self.severity_spec() == Severity::Fatal),
    {
        match self {
            CompileError::CompilationFailed { .. } => false,
            _ => true,
        }
    }

    /// The text shown for the error.
    pub fn message(&self) -> (text: String)
        ensures
            text@ == self.message_spec(),
    {
        match self {
            CompileError::CompilationFailed { mode: CompileMode::Program } =>
                String::from_str("Failed to compile program"),
            CompileError::CompilationFailed { mode: CompileMode::Contract } =>
                String::from_str("Failed to compile contract"),
            CompileError::CyclicDependency { library } => {
                let mut text = String::from_str("ICE: Cyclic error triggered by ");
                text.append(library.as_str());
                text.append(" library");
                text
            },
            CompileError::MalformedDependencyName { name } => {
                let mut text = String::from_str(
                    "Package names must be non-empty and cannot contain hyphens: ",
                );
                text.append(name.as_str());
                text
            },
            CompileError::OptimizationFailed { mode: CompileMode::Program } =>
                String::from_str("Program optimization failed"),
            CompileError::OptimizationFailed { mode: CompileMode::Contract } =>
                String::from_str("Contract optimization failed"),
            CompileError::UnexpectedOutcome =>
                String::from_str("Outcome does not match the pending request"),
        }
    }
}

} // verus!
