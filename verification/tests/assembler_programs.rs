//! Whole-program assembly runs: each test assembles a source text and
//! compares the binary output line by line.

use nandtetris::assembler::Context;

fn assemble_to_binary(input: &str) -> Vec<String> {
    let mut context = Context::default();
    let instructions = context.assemble(input).unwrap();
    instructions.iter().map(|x| x.to_binary_string()).collect()
}

const ADD_ASM: &str = "\
// Computes R0 = 2 + 3  (R0 refers to RAM[0])

@2
D=A
@3
D=D+A
@0
M=D
";

const ADD_HACK: [&str; 6] = [
    "0000000000000010",
    "1110110000010000",
    "0000000000000011",
    "1110000010010000",
    "0000000000000000",
    "1110001100001000",
];

const MAX_ASM: &str = "\
// Computes R2 = max(R0, R1)  (R0,R1,R2 refer to RAM[0],RAM[1],RAM[2])

   @R0
   D=M              // D = first number
   @R1
   D=D-M            // D = first number - second number
   @OUTPUT_FIRST
   D;JGT            // if D>0 (first is greater) goto output_first
   @R1
   D=M              // D = second number
   @OUTPUT_D
   0;JMP            // goto output_d
(OUTPUT_FIRST)
   @R0
   D=M              // D = first number
(OUTPUT_D)
   @R2
   M=D              // M[2] = D (greatest number)
(INFINITE_LOOP)
   @INFINITE_LOOP
   0;JMP            // infinite loop
";

const MAX_L_ASM: &str = "\
// Symbol-less version of the Max.asm program.

@0
D=M
@1
D=D-M
@10
D;JGT
@1
D=M
@12
0;JMP
@0
D=M
@2
M=D
@14
0;JMP
";

const MAX_HACK: [&str; 16] = [
    "0000000000000000",
    "1111110000010000",
    "0000000000000001",
    "1111010011010000",
    "0000000000001010",
    "1110001100000001",
    "0000000000000001",
    "1111110000010000",
    "0000000000001100",
    "1110101010000111",
    "0000000000000000",
    "1111110000010000",
    "0000000000000010",
    "1110001100001000",
    "0000000000001110",
    "1110101010000111",
];

const RECT_ASM: &str = "\
// Draws a rectangle at the top-left corner of the screen.
// The rectangle is 16 pixels wide and R0 pixels high.

   @0
   D=M
   @INFINITE_LOOP
   D;JLE
   @counter
   M=D
   @SCREEN
   D=A
   @address
   M=D
(LOOP)
   @address
   A=M
   M=-1
   @address
   D=M
   @32
   D=D+A
   @address
   M=D
   @counter
   MD=M-1
   @LOOP
   D;JGT
(INFINITE_LOOP)
   @INFINITE_LOOP
   0;JMP
";

const RECT_L_ASM: &str = "\
// Symbol-less version of the Rect.asm program.

@0
D=M
@23
D;JLE
@16
M=D
@16384
D=A
@17
M=D
@17
A=M
M=-1
@17
D=M
@32
D=D+A
@17
M=D
@16
MD=M-1
@10
D;JGT
@23
0;JMP
";

const RECT_HACK: [&str; 25] = [
    "0000000000000000",
    "1111110000010000",
    "0000000000010111",
    "1110001100000110",
    "0000000000010000",
    "1110001100001000",
    "0100000000000000",
    "1110110000010000",
    "0000000000010001",
    "1110001100001000",
    "0000000000010001",
    "1111110000100000",
    "1110111010001000",
    "0000000000010001",
    "1111110000010000",
    "0000000000100000",
    "1110000010010000",
    "0000000000010001",
    "1110001100001000",
    "0000000000010000",
    "1111110010011000",
    "0000000000001010",
    "1110001100000001",
    "0000000000010111",
    "1110101010000111",
];

const FILL_ASM: &str = "\
// Blackens the first screen word while a key is pressed,
// and clears it otherwise.

(MAIN)
@KBD
D=M
@BLACK
D;JGT
@SCREEN
M=0
@MAIN
0;JMP
(BLACK)
@SCREEN
M=-1
@MAIN
0;JMP
";

const FILL_HACK: [&str; 12] = [
    "0110000000000000",
    "1111110000010000",
    "0000000000001000",
    "1110001100000001",
    "0100000000000000",
    "1110101010001000",
    "0000000000000000",
    "1110101010000111",
    "0100000000000000",
    "1110111010001000",
    "0000000000000000",
    "1110101010000111",
];

const MULT_ASM: &str = "\
// Computes R2 = R0 * R1 by repeated addition.

@R2
M=0
(LOOP)
@R1
D=M
@END
D;JLE
@R1
M=M-1
@R0
D=M
@R2
M=D+M
@LOOP
0;JMP
(END)
@END
0;JMP
";

const MULT_HACK: [&str; 16] = [
    "0000000000000010",
    "1110101010001000",
    "0000000000000001",
    "1111110000010000",
    "0000000000001110",
    "1110001100000110",
    "0000000000000001",
    "1111110010001000",
    "0000000000000000",
    "1111110000010000",
    "0000000000000010",
    "1111000010001000",
    "0000000000000010",
    "1110101010000111",
    "0000000000001110",
    "1110101010000111",
];

#[test]
fn add() {
    assert_eq!(assemble_to_binary(ADD_ASM), ADD_HACK.to_vec());
}

#[test]
fn main_add() {
    assert_eq!(assemble_to_binary(ADD_ASM), ADD_HACK.to_vec());
}

#[test]
fn max() {
    assert_eq!(assemble_to_binary(MAX_ASM), MAX_HACK.to_vec());
}

#[test]
fn main_max() {
    assert_eq!(assemble_to_binary(MAX_ASM), MAX_HACK.to_vec());
}

#[test]
fn max_l() {
    assert_eq!(assemble_to_binary(MAX_L_ASM), MAX_HACK.to_vec());
}

#[test]
fn main_max_l() {
    assert_eq!(assemble_to_binary(MAX_L_ASM), MAX_HACK.to_vec());
}

#[test]
fn rect() {
    assert_eq!(assemble_to_binary(RECT_ASM), RECT_HACK.to_vec());
}

#[test]
fn main_rect() {
    assert_eq!(assemble_to_binary(RECT_ASM), RECT_HACK.to_vec());
}

#[test]
fn rect_l() {
    assert_eq!(assemble_to_binary(RECT_L_ASM), RECT_HACK.to_vec());
}

#[test]
fn main_rect_l() {
    assert_eq!(assemble_to_binary(RECT_L_ASM), RECT_HACK.to_vec());
}

#[test]
fn fill() {
    assert_eq!(assemble_to_binary(FILL_ASM), FILL_HACK.to_vec());
}

#[test]
fn mult() {
    assert_eq!(assemble_to_binary(MULT_ASM), MULT_HACK.to_vec());
}
