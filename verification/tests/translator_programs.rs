//! Whole-program translation runs: each test translates a VM source
//! text and compares the generated assembly line by line.  The expected
//! sequences follow the translator's documented expansion shapes.

use nandtetris::vm::Context;

fn translate_to_lines(input: &str) -> Vec<String> {
    let mut context = Context::default();
    context.translate(input).unwrap()
}

fn push_d(lines: &mut Vec<String>) {
    for s in ["@SP", "A=M", "M=D", "@SP", "M=M+1"] {
        lines.push(s.to_string());
    }
}

fn pop_into(lines: &mut Vec<String>, dest: &str) {
    for s in ["@SP", "M=M-1", "@SP", "A=M"] {
        lines.push(s.to_string());
    }
    lines.push(format!("{}=M", dest));
}

fn push_constant(lines: &mut Vec<String>, n: u16) {
    lines.push(format!("@{}", n));
    lines.push("D=A".to_string());
    push_d(lines);
}

fn binary_op(lines: &mut Vec<String>, comp: &str) {
    pop_into(lines, "D");
    pop_into(lines, "A");
    lines.push(format!("D={}", comp));
    push_d(lines);
}

fn unary_op(lines: &mut Vec<String>, comp: &str) {
    pop_into(lines, "D");
    lines.push(format!("D={}", comp));
    push_d(lines);
}

fn comparison_op(lines: &mut Vec<String>, jump: &str, label: u16) {
    pop_into(lines, "D");
    pop_into(lines, "A");
    lines.push("D=A-D".to_string());
    lines.push(format!("@LABEL{}", label));
    lines.push(format!("D;{}", jump));
    lines.push("@SP".to_string());
    lines.push("A=M".to_string());
    lines.push("M=0".to_string());
    lines.push(format!("@LABEL{}", label + 1));
    lines.push("0;JMP".to_string());
    lines.push(format!("(LABEL{})", label));
    lines.push("@SP".to_string());
    lines.push("A=M".to_string());
    lines.push("M=-1".to_string());
    lines.push(format!("(LABEL{})", label + 1));
    lines.push("@SP".to_string());
    lines.push("M=M+1".to_string());
}

const SIMPLE_ADD_VM: &str = "\
// Pushes and adds two constants.

push constant 7
push constant 8
add
";

#[test]
fn test_simple_add() {
    let mut expected: Vec<String> = Vec::new();
    push_constant(&mut expected, 7);
    push_constant(&mut expected, 8);
    binary_op(&mut expected, "D+A");
    assert_eq!(translate_to_lines(SIMPLE_ADD_VM), expected);
}

const STACK_TEST_VM: &str = "\
// Executes a sequence of arithmetic and logical operations
// on the stack.

push constant 17
push constant 17
eq
push constant 17
push constant 16
eq
push constant 16
push constant 17
eq
push constant 892
push constant 891
lt
push constant 891
push constant 892
lt
push constant 891
push constant 891
lt
push constant 32767
push constant 32766
gt
push constant 32766
push constant 32767
gt
push constant 32766
push constant 32766
gt
push constant 57
push constant 31
push constant 53
add
push constant 112
sub
neg
and
push constant 82
or
not
";

#[test]
fn test_stack_test() {
    let mut expected: Vec<String> = Vec::new();
    let mut label: u16 = 1;
    push_constant(&mut expected, 17);
    push_constant(&mut expected, 17);
    comparison_op(&mut expected, "JEQ", label);
    label += 2;
    push_constant(&mut expected, 17);
    push_constant(&mut expected, 16);
    comparison_op(&mut expected, "JEQ", label);
    label += 2;
    push_constant(&mut expected, 16);
    push_constant(&mut expected, 17);
    comparison_op(&mut expected, "JEQ", label);
    label += 2;
    push_constant(&mut expected, 892);
    push_constant(&mut expected, 891);
    comparison_op(&mut expected, "JLT", label);
    label += 2;
    push_constant(&mut expected, 891);
    push_constant(&mut expected, 892);
    comparison_op(&mut expected, "JLT", label);
    label += 2;
    push_constant(&mut expected, 891);
    push_constant(&mut expected, 891);
    comparison_op(&mut expected, "JLT", label);
    label += 2;
    push_constant(&mut expected, 32767);
    push_constant(&mut expected, 32766);
    comparison_op(&mut expected, "JGT", label);
    label += 2;
    push_constant(&mut expected, 32766);
    push_constant(&mut expected, 32767);
    comparison_op(&mut expected, "JGT", label);
    label += 2;
    push_constant(&mut expected, 32766);
    push_constant(&mut expected, 32766);
    comparison_op(&mut expected, "JGT", label);
    label += 2;
    assert_eq!(label, 19);
    push_constant(&mut expected, 57);
    push_constant(&mut expected, 31);
    push_constant(&mut expected, 53);
    binary_op(&mut expected, "D+A");
    push_constant(&mut expected, 112);
    binary_op(&mut expected, "A-D");
    unary_op(&mut expected, "-D");
    binary_op(&mut expected, "D&A");
    push_constant(&mut expected, 82);
    binary_op(&mut expected, "D|A");
    unary_op(&mut expected, "!D");
    assert_eq!(translate_to_lines(STACK_TEST_VM), expected);
}
