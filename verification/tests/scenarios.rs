//! Pinned end-to-end scenarios: single instructions, forward labels,
//! the push and comparison expansions, and the unknown-command error.

use nandtetris::assembler::Context as AssemblerContext;
use nandtetris::errors::VmError;
use nandtetris::vm::Context as VmContext;

fn assemble_lines(input: &str) -> Vec<String> {
    let mut context = AssemblerContext::default();
    let instructions = context.assemble(input).unwrap();
    instructions.iter().map(|x| x.to_binary_string()).collect()
}

fn translate_lines(input: &str) -> Vec<String> {
    let mut context = VmContext::default();
    context.translate(input).unwrap()
}

#[test]
fn literal_address_encodes_as_its_value() {
    assert_eq!(assemble_lines("@2"), vec!["0000000000000010".to_string()]);
}

#[test]
fn compute_d_from_a_encodes_fixed_word() {
    assert_eq!(assemble_lines("D=A"), vec!["1110110000010000".to_string()]);
}

#[test]
fn forward_label_resolves_to_following_instruction() {
    let input = "\
@LOOP
D=A
D=A
D=A
(LOOP)
D=A
";
    let out = assemble_lines(input);
    // The label line takes no address: LOOP marks the fifth instruction
    // (index 4), so the forward reference resolves to 4.
    assert_eq!(out[0], "0000000000000100");
    assert_eq!(out.len(), 5);
}

#[test]
fn push_constant_expands_to_seven_lines() {
    let expected = vec!["@7", "D=A", "@SP", "A=M", "M=D", "@SP", "M=M+1"];
    assert_eq!(translate_lines("push constant 7"), expected);
}

#[test]
fn eq_expands_to_comparison_protocol() {
    let expected = vec![
        "@SP", "M=M-1", "@SP", "A=M", "D=M", // pop right operand into D
        "@SP", "M=M-1", "@SP", "A=M", "A=M", // pop left operand into A
        "D=A-D", "@LABEL1", "D;JEQ", // jump to the true branch on equality
        "@SP", "A=M", "M=0", // false: write 0 to the stack top
        "@LABEL2", "0;JMP", // skip the true branch
        "(LABEL1)", "@SP", "A=M", "M=-1", // true: write -1 to the stack top
        "(LABEL2)", "@SP", "M=M+1", // join: advance the stack pointer
    ];
    assert_eq!(translate_lines("eq"), expected);
}

#[test]
fn comparison_labels_strictly_increase() {
    let out = translate_lines("eq\ngt");
    let all = out.join("\n");
    assert!(all.contains("@LABEL1"));
    assert!(all.contains("(LABEL2)"));
    assert!(all.contains("@LABEL3"));
    assert!(all.contains("(LABEL4)"));
    assert!(!all.contains("LABEL5"));
}

#[test]
fn unknown_vm_command_names_the_token() {
    let mut context = VmContext::default();
    let err = context.translate("frobnicate").unwrap_err();
    assert_eq!(err, VmError::UnknownVmCommand("frobnicate".to_string()));
}

#[test]
fn oversized_numeral_is_a_variable_name() {
    // A token after @ that does not fit 16 bits is not a literal, so it
    // is treated as a symbolic name and allocated the first free slot.
    assert_eq!(assemble_lines("@99999"), vec!["0000000000010000".to_string()]);
}

#[test]
fn comments_and_blanks_never_shift_addresses() {
    let plain = "\
@END
D=A
(END)
0;JMP
";
    let noisy = "\
// leading comment

   @END   // a forward reference

D=A      // compute
(END)    // the label
0;JMP
";
    assert_eq!(assemble_lines(plain), assemble_lines(noisy));
}

#[test]
fn label_and_variable_share_one_namespace() {
    // A name declared as a label resolves to the label's address even
    // where it is later used like a variable.
    let input = "\
D=A
(SPOT)
@SPOT
";
    let out = assemble_lines(input);
    assert_eq!(out[1], "0000000000000001");
}

#[test]
fn empty_sources_produce_no_output() {
    assert_eq!(assemble_lines("// only a comment\n\n"), Vec::<String>::new());
    assert_eq!(translate_lines("// nothing here\n   \n"), Vec::<String>::new());
}
