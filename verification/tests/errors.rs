//! One input for every classified error: each aborts its run with the
//! offending token and produces no output.

use nandtetris::assembler::Context as AssemblerContext;
use nandtetris::errors::{AsmError, VmError};
use nandtetris::vm::Context as VmContext;

fn assemble_err(input: &str) -> AsmError {
    let mut context = AssemblerContext::default();
    context.assemble(input).unwrap_err()
}

fn translate_err(input: &str) -> VmError {
    let mut context = VmContext::default();
    context.translate(input).unwrap_err()
}

#[test]
fn invalid_destination_letter() {
    assert_eq!(assemble_err("X=D"), AsmError::InvalidDestination("X".to_string()));
}

#[test]
fn invalid_computation_mnemonic() {
    assert_eq!(assemble_err("D=W"), AsmError::InvalidComputation("W".to_string()));
}

#[test]
fn invalid_jump_mnemonic() {
    assert_eq!(assemble_err("D;JXY"), AsmError::InvalidJump("JXY".to_string()));
}

#[test]
fn duplicate_user_label_is_rejected() {
    let input = "\
(HERE)
D=A
(HERE)
";
    assert_eq!(assemble_err(input), AsmError::DuplicateSymbol("HERE".to_string(), 0));
}

#[test]
fn redefined_predefined_symbol_is_rejected() {
    // R5 is predefined at address 5; a label may not rebind it, and the
    // run produces nothing.
    assert_eq!(assemble_err("(R5)"), AsmError::DuplicateSymbol("R5".to_string(), 5));
}

#[test]
fn duplicate_is_rejected_before_any_output() {
    let input = "\
@2
D=A
(TWICE)
@3
(TWICE)
";
    let mut context = AssemblerContext::default();
    let result = context.assemble(input);
    assert!(result.is_err());
}

#[test]
fn unsupported_segment_names_the_segment() {
    assert_eq!(translate_err("push local 3"), VmError::UnsupportedSegment("local".to_string()));
}

#[test]
fn missing_segment_is_unsupported() {
    assert_eq!(translate_err("push"), VmError::UnsupportedSegment(String::new()));
}

#[test]
fn non_numeric_index_is_invalid() {
    assert_eq!(translate_err("push constant x7"), VmError::InvalidIndex("x7".to_string()));
}

#[test]
fn oversized_index_is_invalid() {
    assert_eq!(translate_err("push constant 65536"), VmError::InvalidIndex("65536".to_string()));
}

#[test]
fn missing_index_is_invalid() {
    assert_eq!(translate_err("push constant"), VmError::InvalidIndex(String::new()));
}

#[test]
fn first_error_wins() {
    // The unknown command on the second line aborts before the push on
    // the third is reached.
    let input = "\
push constant 3
frobnicate
push local 9
";
    assert_eq!(translate_err(input), VmError::UnknownVmCommand("frobnicate".to_string()));
}
