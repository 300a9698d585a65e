//! The target of the optimizer: a constraint-satisfaction dialect of fixed
//! width, and the opcodes a backend for it is taken to support.

use acvm::acir::circuit::Opcode;
use vstd::prelude::*;

verus! {

/// The width of the target dialect.
pub const PLONK_WIDTH: usize = 3;

/// The dialects into which a circuit can be lowered.
#[derive(Clone, Copy, Debug, PartialEq, Eq, Structural)]
pub enum Language {
    /// Rank-one constraints.
    R1CS,
    /// PLONK-style constraint satisfaction with gates of the given width.
    PLONKCSat { width: usize },
}

/// `acvm::acir::circuit::Opcode`, an opcode of a circuit. The library hands
/// opcodes on and does not look into them.
#[verifier::external_type_specification]
#[verifier::external_body]
pub struct ExOpcode(Opcode);

/// The dialect that every session targets.
pub fn target_language() -> (language: Language)
    ensures
        language == (Language::PLONKCSat { width: PLONK_WIDTH }),
{
    Language::PLONKCSat { width: PLONK_WIDTH }
}

/// Calls `acvm::pwg::default_is_opcode_supported` for the PLONK dialect of
/// the given width and asks the predicate it returns about `opcode`. For
/// that dialect the predicate accepts every opcode, whatever the width.
#[verifier::external_body]
#[allow(deprecated)]
fn plonk_default_is_opcode_supported(width: usize, opcode: &Opcode) -> (supported: bool)
    ensures
        supported,
{
    acvm::pwg::default_is_opcode_supported(acvm::Language::PLONKCSat { width })(opcode)
}

/// Whether the target dialect supports `opcode`, by the defaults of the
/// circuit compiler: it supports every opcode.
pub fn is_opcode_supported(opcode: &Opcode) -> (supported: bool)
    ensures
        supported,
{
    plonk_default_is_opcode_supported(PLONK_WIDTH, opcode)
}

} // verus!
