//! The classified fatal errors of the two lowering passes.  Every error
//! carries the offending token or symbol, so a caller can present a
//! precise diagnostic.

use vstd::prelude::*;

verus! {

/// A fatal assembly error: the first one encountered aborts the whole
/// run, and no output is produced.
#[derive(Debug, PartialEq, Eq)]
pub enum AsmError {
    /// A destination prefix held a letter other than A, M or D.
    InvalidDestination(String),
    /// The computation text matched no mnemonic of the fixed table.
    InvalidComputation(String),
    /// The text after `;` matched no jump mnemonic.
    InvalidJump(String),
    /// A label redefined an existing symbol; carries the name and the
    /// address the symbol already had.
    DuplicateSymbol(String, u16),
    /// An instruction index or variable address left the 16-bit range.
    ProgramTooLarge,
}

/// The mathematical form of an assembly error.
pub enum AsmErrV {
    InvalidDestination(Seq<char>),
    InvalidComputation(Seq<char>),
    InvalidJump(Seq<char>),
    DuplicateSymbol(Seq<char>, u16),
    ProgramTooLarge,
}

impl View for AsmError {
    type V = AsmErrV;

    open spec fn view(&self) -> AsmErrV {
        match self {
            AsmError::InvalidDestination(s) => AsmErrV::InvalidDestination(s@),
            AsmError::InvalidComputation(s) => AsmErrV::InvalidComputation(s@),
            AsmError::InvalidJump(s) => AsmErrV::InvalidJump(s@),
            AsmError::DuplicateSymbol(s, v) => AsmErrV::DuplicateSymbol(s@, *v),
            AsmError::ProgramTooLarge => AsmErrV::ProgramTooLarge,
        }
    }
}

/// A fatal VM-translation error: the first one encountered aborts the
/// whole run, and no output is produced.
#[derive(Debug, PartialEq, Eq)]
pub enum VmError {
    /// The first token of a command named no known operation.
    UnknownVmCommand(String),
    /// A push named a segment other than `constant`, or named none.
    UnsupportedSegment(String),
    /// A push index was missing, non-numeric, or out of 16-bit range.
    InvalidIndex(String),
    /// The branch-label counter left the 16-bit range.
    TooManyLabels,
}

/// The mathematical form of a VM-translation error.
pub enum VmErrV {
    UnknownVmCommand(Seq<char>),
    UnsupportedSegment(Seq<char>),
    InvalidIndex(Seq<char>),
    TooManyLabels,
}

impl View for VmError {
    type V = VmErrV;

    open spec fn view(&self) -> VmErrV {
        match self {
            VmError::UnknownVmCommand(s) => VmErrV::UnknownVmCommand(s@),
            VmError::UnsupportedSegment(s) => VmErrV::UnsupportedSegment(s@),
            VmError::InvalidIndex(s) => VmErrV::InvalidIndex(s@),
            VmError::TooManyLabels => VmErrV::TooManyLabels,
        }
    }
}

} // verus!
