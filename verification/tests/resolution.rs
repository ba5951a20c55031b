//! The symbol table and the resolution laws on concrete inputs:
//! variable numbering from 16, label addressing, the binary line
//! length, and the stack-depth delta of each VM operation.

use nandtetris::symbols::SymbolTable;
use nandtetris::vm::{Segment, VmInstruction};
use nandtetris::assembler::Context as AssemblerContext;
use nandtetris::errors::AsmError;
use nandtetris::vm::Context as VmContext;

fn assemble_words(input: &str) -> Vec<String> {
    let mut context = AssemblerContext::default();
    let instructions = context.assemble(input).unwrap();
    instructions.iter().map(|x| x.to_binary_string()).collect()
}

#[test]
fn fresh_table_holds_the_predefined_symbols() {
    let table = SymbolTable::default();
    assert_eq!(table.lookup_addr(&"SP".to_string()), Some(0));
    assert_eq!(table.lookup_addr(&"THAT".to_string()), Some(4));
    assert_eq!(table.lookup_addr(&"R15".to_string()), Some(15));
    assert_eq!(table.lookup_addr(&"SCREEN".to_string()), Some(16384));
    assert_eq!(table.lookup_addr(&"KBD".to_string()), Some(24576));
    assert_eq!(table.lookup_addr(&"nowhere".to_string()), None);
}

#[test]
fn get_or_insert_allocates_from_sixteen() {
    let mut table = SymbolTable::default();
    assert_eq!(table.get_or_insert("alpha".to_string()), 16);
    assert_eq!(table.get_or_insert("beta".to_string()), 17);
    assert_eq!(table.get_or_insert("alpha".to_string()), 16);
    assert_eq!(table.get_or_insert("gamma".to_string()), 18);
}

#[test]
fn insert_rejects_an_existing_binding() {
    let mut table = SymbolTable::default();
    assert!(table.insert("fresh".to_string(), 3).is_ok());
    let err = table.insert("fresh".to_string(), 9).unwrap_err();
    assert_eq!(err, AsmError::DuplicateSymbol("fresh".to_string(), 3));
    let err = table.insert("SP".to_string(), 1).unwrap_err();
    assert_eq!(err, AsmError::DuplicateSymbol("SP".to_string(), 0));
}

#[test]
fn nth_new_variable_gets_sixteen_plus_n_minus_one() {
    let out = assemble_words("@alpha\n@beta\n@gamma");
    assert_eq!(out[0], "0000000000010000"); // 16
    assert_eq!(out[1], "0000000000010001"); // 17
    assert_eq!(out[2], "0000000000010010"); // 18
}

#[test]
fn repeated_variable_keeps_its_first_address() {
    let out = assemble_words("@alpha\n@beta\n@alpha");
    assert_eq!(out[0], "0000000000010000");
    assert_eq!(out[1], "0000000000010001");
    assert_eq!(out[2], "0000000000010000");
}

#[test]
fn label_address_counts_only_instructions() {
    // Two labels around three instructions: FIRST marks index 0, LAST
    // marks index 3; neither label consumes an address.
    let input = "\
(FIRST)
@LAST
D=A
@FIRST
(LAST)
0;JMP
";
    let out = assemble_words(input);
    assert_eq!(out[0], "0000000000000011"); // @LAST -> 3
    assert_eq!(out[2], "0000000000000000"); // @FIRST -> 0
    assert_eq!(out.len(), 4);
}

#[test]
fn binary_lines_are_always_sixteen_characters() {
    let input = "\
@0
D=M
@32767
AMD=D+1;JLE
(END)
@END
0;JMP
";
    for line in assemble_words(input) {
        assert_eq!(line.len(), 16);
        for c in line.chars() {
            assert!(c == '0' || c == '1');
        }
    }
}

fn stack_delta(input: &str) -> i64 {
    let mut context = VmContext::default();
    let lines = context.translate(input).unwrap();
    let mut delta: i64 = 0;
    for line in &lines {
        if line == "M=M+1" {
            delta += 1;
        }
        if line == "M=M-1" {
            delta -= 1;
        }
    }
    delta
}

#[test]
fn stack_depth_delta_per_operation() {
    assert_eq!(stack_delta("push constant 5"), 1);
    assert_eq!(stack_delta("add"), -1);
    assert_eq!(stack_delta("sub"), -1);
    assert_eq!(stack_delta("and"), -1);
    assert_eq!(stack_delta("or"), -1);
    assert_eq!(stack_delta("neg"), 0);
    assert_eq!(stack_delta("not"), 0);
    assert_eq!(stack_delta("eq"), -1);
    assert_eq!(stack_delta("gt"), -1);
    assert_eq!(stack_delta("lt"), -1);
}

#[test]
fn parse_reads_operations_in_order() {
    let context = VmContext::default();
    let ops = context.parse("push constant 7\nadd\nnot").unwrap();
    assert_eq!(
        ops,
        vec![
            VmInstruction::Push { segment: Segment::Constant, index: 7 },
            VmInstruction::Add,
            VmInstruction::Not,
        ]
    );
}

#[test]
fn boundary_addresses_encode_exactly() {
    assert_eq!(assemble_words("@0")[0], "0000000000000000");
    assert_eq!(assemble_words("@32767")[0], "0111111111111111");
    assert_eq!(assemble_words("@16384")[0], "0100000000000000");
}
