//! The compiled representations that the frontend and the optimizer hand
//! over, the artifacts that callers receive, and the mapping between them.
//!
//! An interface signature, a declared event and the frontend's debug
//! information pass through unread, so their types are left to the caller.

use acvm::acir::circuit::Circuit;
use vstd::prelude::*;
use vstd::string::*;

verus! {

/// Names the proving backend for which every artifact is made.
pub const BACKEND_IDENTIFIER: &'static str = "acvm-backend-barretenberg";

/// `acvm::acir::circuit::Circuit`, the bytecode of a program or of a
/// contract function. The library hands circuits on and does not look into
/// them.
#[verifier::external_type_specification]
#[verifier::external_body]
pub struct ExCircuit(Circuit);

/// A program as the frontend or the optimizer returns it.
#[derive(Debug, PartialEq)]
pub struct CompiledProgram<Abi, DebugInfo> {
    pub hash: u64,
    pub circuit: Circuit,
    pub abi: Abi,
    /// For the optimizer and for diagnostics only: no artifact holds it.
    pub debug: DebugInfo,
}

/// A program as callers receive it.
#[derive(Debug, PartialEq)]
pub struct PreprocessedProgram<Abi> {
    pub hash: u64,
    pub backend: String,
    pub abi: Abi,
    pub bytecode: Circuit,
}

/// How a function of a contract is executed.
#[derive(Clone, Copy, Debug, PartialEq, Eq, Structural)]
pub enum ContractFunctionType {
    /// In a private context.
    Secret,
    /// In a public context.
    Open,
    /// Without constraints on its values.
    Unconstrained,
}

/// A function of a contract as the frontend or the optimizer returns it.
#[derive(Debug, PartialEq)]
pub struct ContractFunction<Abi, DebugInfo> {
    pub name: String,
    pub function_type: ContractFunctionType,
    pub is_internal: bool,
    pub abi: Abi,
    pub bytecode: Circuit,
    /// For the optimizer and for diagnostics only: no artifact holds it.
    pub debug: DebugInfo,
}

/// A contract as the frontend or the optimizer returns it.
#[derive(Debug, PartialEq)]
pub struct CompiledContract<Abi, Event, DebugInfo> {
    pub name: String,
    pub functions: Vec<ContractFunction<Abi, DebugInfo>>,
    pub events: Vec<Event>,
}

/// A function of a contract as callers receive it.
#[derive(Debug, PartialEq)]
pub struct PreprocessedContractFunction<Abi> {
    pub name: String,
    pub function_type: ContractFunctionType,
    pub is_internal: bool,
    pub abi: Abi,
    pub bytecode: Circuit,
}

/// A contract as callers receive it.
#[derive(Debug, PartialEq)]
pub struct PreprocessedContract<Abi, Event> {
    pub name: String,
    pub backend: String,
    pub functions: Vec<PreprocessedContractFunction<Abi>>,
    pub events: Vec<Event>,
}

/// `out` is `program` in the shape that callers receive: hash, interface
/// signature and circuit carried over, the debug information left behind,
/// and the backend named.
pub open spec fn is_preprocessed_program<Abi, DebugInfo>(
    program: CompiledProgram<Abi, DebugInfo>,
    out: PreprocessedProgram<Abi>,
) -> bool {
    &&& out.hash == program.hash
    &&& out.backend@ == BACKEND_IDENTIFIER@
    &&& out.abi == program.abi
    &&& out.bytecode == program.circuit
}

/// The function that callers receive for `function`: every field carried
/// over but the debug information.
pub open spec fn preprocessed_function<Abi, DebugInfo>(
    function: ContractFunction<Abi, DebugInfo>,
) -> PreprocessedContractFunction<Abi> {
    PreprocessedContractFunction {
        name: function.name,
        function_type: function.function_type,
        is_internal: function.is_internal,
        abi: function.abi,
        bytecode: function.bytecode,
    }
}

/// `out` is `contract` in the shape that callers receive: name and events
/// carried over, each function carried over in its place, and the backend
/// named.
pub open spec fn is_preprocessed_contract<Abi, Event, DebugInfo>(
    contract: CompiledContract<Abi, Event, DebugInfo>,
    out: PreprocessedContract<Abi, Event>,
) -> bool {
    &&& out.name == contract.name
    &&& out.backend@ == BACKEND_IDENTIFIER@
    &&& out.functions@ == contract.functions@.map_values(
        |function: ContractFunction<Abi, DebugInfo>| preprocessed_function(function),
    )
    &&& out.events == contract.events
}

/// Shapes an optimized program for callers.
pub fn preprocess_program<Abi, DebugInfo>(program: CompiledProgram<Abi, DebugInfo>) -> (out:
    PreprocessedProgram<Abi>)
    ensures
        is_preprocessed_program(program, out),
{
    PreprocessedProgram {
        hash: program.hash,
        backend: String::from_str(BACKEND_IDENTIFIER),
        abi: program.abi,
        bytecode: program.circuit,
    }
}

/// Shapes an optimized contract for callers.
pub fn preprocess_contract<Abi, Event, DebugInfo>(
    contract: CompiledContract<Abi, Event, DebugInfo>,
) -> (out: PreprocessedContract<Abi, Event>)
    ensures
        is_preprocessed_contract(contract, out),
{
    let ghost functions = contract.functions@;
    let mut preprocessed_functions: Vec<PreprocessedContractFunction<Abi>> = Vec::new();
    for func in it: contract.functions.into_iter()
        invariant
            it.seq() == functions,
            preprocessed_functions@.len() == it.index(),
            forall|k: int|
                0 <= k < it.index() ==> #[trigger] preprocessed_functions@[k]
                    == preprocessed_function(functions[k]),
    {
        preprocessed_functions.push(
            PreprocessedContractFunction {
                name: func.name,
                function_type: func.function_type,
                is_internal: func.is_internal,
                abi: func.abi,
                bytecode: func.bytecode,
            },
        );
    }
    assert(preprocessed_functions@ =~= functions.map_values(
        |function: ContractFunction<Abi, DebugInfo>| preprocessed_function(function),
    ));
    PreprocessedContract {
        name: contract.name,
        backend: String::from_str(BACKEND_IDENTIFIER),
        functions: preprocessed_functions,
        events: contract.events,
    }
}

} // verus!
