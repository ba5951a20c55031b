//! The assembly intermediate representation: destinations, computations,
//! jump conditions, address operands and code lines, together with their
//! numeric codes, their mnemonic texts, and the text form of a code line.

use vstd::prelude::*;
use crate::text::{chars_to_string, dec_digits, str_to_chars, u16_dec_chars};

verus! {

// ---------------------------------------------------------------------------
// Destination
// ---------------------------------------------------------------------------

/// The set of places a computed value is stored to.
#[derive(Debug, Clone, Copy, PartialEq, Eq, Structural)]
pub struct Dest {
    pub a: bool,
    pub m: bool,
    pub d: bool,
}

/// The 3-bit destination code: the A bit above the D bit above the M bit.
pub open spec fn dest_code(d: Dest) -> u16 {
    (((if d.a {
        4int
    } else {
        0int
    }) + (if d.d {
        2int
    } else {
        0int
    }) + (if d.m {
        1int
    } else {
        0int
    })) as u16)
}

impl Dest {
    pub fn code(&self) -> (r: u16)
        ensures
            r == dest_code(*self),
    {
        (if self.a {
            4u16
        } else {
            0u16
        }) + (if self.d {
            2u16
        } else {
            0u16
        }) + (if self.m {
            1u16
        } else {
            0u16
        })
    }
}

impl Default for Dest {
    fn default() -> (r: Dest)
        ensures
            r == (Dest { a: false, m: false, d: false }),
    {
        Dest { a: false, m: false, d: false }
    }
}

/// The text form of a destination prefix: the selected registers in the
/// fixed order A, M, D, then `=`; empty when nothing is selected.
pub open spec fn dest_chars(d: Dest) -> Seq<char> {
    (if d.a {
        seq!['A']
    } else {
        Seq::<char>::empty()
    }) + (if d.m {
        seq!['M']
    } else {
        Seq::<char>::empty()
    }) + (if d.d {
        seq!['D']
    } else {
        Seq::<char>::empty()
    }) + (if d.a || d.m || d.d {
        seq!['=']
    } else {
        Seq::<char>::empty()
    })
}

// ---------------------------------------------------------------------------
// Jump condition
// ---------------------------------------------------------------------------

/// The condition under which a compute instruction jumps, a comparison
/// of the computed value against zero.
#[derive(Debug, Clone, Copy, PartialEq, Eq, Structural)]
pub enum Jump {
    Null,
    JGT,
    JEQ,
    JGE,
    JLT,
    JNE,
    JLE,
    JMP,
}

/// The fixed 3-bit jump code.
pub open spec fn jump_code(j: Jump) -> u16 {
    match j {
        Jump::Null => 0,
        Jump::JGT => 1,
        Jump::JEQ => 2,
        Jump::JGE => 3,
        Jump::JLT => 4,
        Jump::JNE => 5,
        Jump::JLE => 6,
        Jump::JMP => 7,
    }
}

/// The mnemonic of a jump condition; the never-jump has none.
pub open spec fn jump_chars(j: Jump) -> Seq<char> {
    match j {
        Jump::Null => Seq::<char>::empty(),
        Jump::JGT => seq!['J', 'G', 'T'],
        Jump::JEQ => seq!['J', 'E', 'Q'],
        Jump::JGE => seq!['J', 'G', 'E'],
        Jump::JLT => seq!['J', 'L', 'T'],
        Jump::JNE => seq!['J', 'N', 'E'],
        Jump::JLE => seq!['J', 'L', 'E'],
        Jump::JMP => seq!['J', 'M', 'P'],
    }
}

/// The text a jump condition adds to a compute instruction: `;` and the
/// mnemonic, or nothing for the never-jump.
pub open spec fn jump_suffix_chars(j: Jump) -> Seq<char> {
    if j is Null {
        Seq::<char>::empty()
    } else {
        seq![';'] + jump_chars(j)
    }
}

/// The jump condition named by a mnemonic, if any.  The never-jump is
/// written by leaving the suffix out, so no mnemonic names it.
pub open spec fn parse_jump_chars(s: Seq<char>) -> Option<Jump> {
    if s == jump_chars(Jump::JGT) {
        Some(Jump::JGT)
    } else if s == jump_chars(Jump::JEQ) {
        Some(Jump::JEQ)
    } else if s == jump_chars(Jump::JGE) {
        Some(Jump::JGE)
    } else if s == jump_chars(Jump::JLT) {
        Some(Jump::JLT)
    } else if s == jump_chars(Jump::JNE) {
        Some(Jump::JNE)
    } else if s == jump_chars(Jump::JLE) {
        Some(Jump::JLE)
    } else if s == jump_chars(Jump::JMP) {
        Some(Jump::JMP)
    } else {
        None
    }
}

impl Jump {
    pub fn code(&self) -> (r: u16)
        ensures
            r == jump_code(*self),
    {
        match self {
            Jump::Null => 0,
            Jump::JGT => 1,
            Jump::JEQ => 2,
            Jump::JGE => 3,
            Jump::JLT => 4,
            Jump::JNE => 5,
            Jump::JLE => 6,
            Jump::JMP => 7,
        }
    }
}

// ---------------------------------------------------------------------------
// Computation
// ---------------------------------------------------------------------------

/// One of the 28 operations over the registers D and A, the memory cell
/// M, and the constants 0, 1 and -1.
#[derive(Debug, Clone, Copy, PartialEq, Eq, Structural)]
pub enum Comp {
    Zero,
    One,
    NegOne,
    D,
    A,
    NotD,
    NotA,
    NegD,
    NegA,
    DPlusOne,
    APlusOne,
    DMinusOne,
    AMinusOne,
    DPlusA,
    DMinusA,
    AMinusD,
    DAndA,
    DOrA,
    M,
    NotM,
    NegM,
    MPlusOne,
    MMinusOne,
    DPlusM,
    DMinusM,
    MMinusD,
    DAndM,
    DOrM,
}

/// The fixed 7-bit computation code; the high bit selects the memory
/// cell M over the register A as operand.
pub open spec fn comp_code(c: Comp) -> u16 {
    match c {
        Comp::Zero => 0b0101010,
        Comp::One => 0b0111111,
        Comp::NegOne => 0b0111010,
        Comp::D => 0b0001100,
        Comp::A => 0b0110000,
        Comp::NotD => 0b0001101,
        Comp::NotA => 0b0110001,
        Comp::NegD => 0b0001111,
        Comp::NegA => 0b0110011,
        Comp::DPlusOne => 0b0011111,
        Comp::APlusOne => 0b0110111,
        Comp::DMinusOne => 0b0001110,
        Comp::AMinusOne => 0b0110010,
        Comp::DPlusA => 0b0000010,
        Comp::DMinusA => 0b0010011,
        Comp::AMinusD => 0b0000111,
        Comp::DAndA => 0b0000000,
        Comp::DOrA => 0b0010101,
        Comp::M => 0b1110000,
        Comp::NotM => 0b1110001,
        Comp::NegM => 0b1110011,
        Comp::MPlusOne => 0b1110111,
        Comp::MMinusOne => 0b1110010,
        Comp::DPlusM => 0b1000010,
        Comp::DMinusM => 0b1010011,
        Comp::MMinusD => 0b1000111,
        Comp::DAndM => 0b1000000,
        Comp::DOrM => 0b1010101,
    }
}

/// The mnemonic of a computation.
pub open spec fn comp_chars(c: Comp) -> Seq<char> {
    match c {
        Comp::Zero => seq!['0'],
        Comp::One => seq!['1'],
        Comp::NegOne => seq!['-', '1'],
        Comp::D => seq!['D'],
        Comp::A => seq!['A'],
        Comp::NotD => seq!['!', 'D'],
        Comp::NotA => seq!['!', 'A'],
        Comp::NegD => seq!['-', 'D'],
        Comp::NegA => seq!['-', 'A'],
        Comp::DPlusOne => seq!['D', '+', '1'],
        Comp::APlusOne => seq!['A', '+', '1'],
        Comp::DMinusOne => seq!['D', '-', '1'],
        Comp::AMinusOne => seq!['A', '-', '1'],
        Comp::DPlusA => seq!['D', '+', 'A'],
        Comp::DMinusA => seq!['D', '-', 'A'],
        Comp::AMinusD => seq!['A', '-', 'D'],
        Comp::DAndA => seq!['D', '&', 'A'],
        Comp::DOrA => seq!['D', '|', 'A'],
        Comp::M => seq!['M'],
        Comp::NotM => seq!['!', 'M'],
        Comp::NegM => seq!['-', 'M'],
        Comp::MPlusOne => seq!['M', '+', '1'],
        Comp::MMinusOne => seq!['M', '-', '1'],
        Comp::DPlusM => seq!['D', '+', 'M'],
        Comp::DMinusM => seq!['D', '-', 'M'],
        Comp::MMinusD => seq!['M', '-', 'D'],
        Comp::DAndM => seq!['D', '&', 'M'],
        Comp::DOrM => seq!['D', '|', 'M'],
    }
}

/// The computation named by a mnemonic, if any.
pub open spec fn parse_comp_chars(s: Seq<char>) -> Option<Comp> {
    if s == comp_chars(Comp::Zero) {
        Some(Comp::Zero)
    } else if s == comp_chars(Comp::One) {
        Some(Comp::One)
    } else if s == comp_chars(Comp::NegOne) {
        Some(Comp::NegOne)
    } else if s == comp_chars(Comp::D) {
        Some(Comp::D)
    } else if s == comp_chars(Comp::A) {
        Some(Comp::A)
    } else if s == comp_chars(Comp::NotD) {
        Some(Comp::NotD)
    } else if s == comp_chars(Comp::NotA) {
        Some(Comp::NotA)
    } else if s == comp_chars(Comp::NegD) {
        Some(Comp::NegD)
    } else if s == comp_chars(Comp::NegA) {
        Some(Comp::NegA)
    } else if s == comp_chars(Comp::DPlusOne) {
        Some(Comp::DPlusOne)
    } else if s == comp_chars(Comp::APlusOne) {
        Some(Comp::APlusOne)
    } else if s == comp_chars(Comp::DMinusOne) {
        Some(Comp::DMinusOne)
    } else if s == comp_chars(Comp::AMinusOne) {
        Some(Comp::AMinusOne)
    } else if s == comp_chars(Comp::DPlusA) {
        Some(Comp::DPlusA)
    } else if s == comp_chars(Comp::DMinusA) {
        Some(Comp::DMinusA)
    } else if s == comp_chars(Comp::AMinusD) {
        Some(Comp::AMinusD)
    } else if s == comp_chars(Comp::DAndA) {
        Some(Comp::DAndA)
    } else if s == comp_chars(Comp::DOrA) {
        Some(Comp::DOrA)
    } else if s == comp_chars(Comp::M) {
        Some(Comp::M)
    } else if s == comp_chars(Comp::NotM) {
        Some(Comp::NotM)
    } else if s == comp_chars(Comp::NegM) {
        Some(Comp::NegM)
    } else if s == comp_chars(Comp::MPlusOne) {
        Some(Comp::MPlusOne)
    } else if s == comp_chars(Comp::MMinusOne) {
        Some(Comp::MMinusOne)
    } else if s == comp_chars(Comp::DPlusM) {
        Some(Comp::DPlusM)
    } else if s == comp_chars(Comp::DMinusM) {
        Some(Comp::DMinusM)
    } else if s == comp_chars(Comp::MMinusD) {
        Some(Comp::MMinusD)
    } else if s == comp_chars(Comp::DAndM) {
        Some(Comp::DAndM)
    } else if s == comp_chars(Comp::DOrM) {
        Some(Comp::DOrM)
    } else {
        None
    }
}

impl Comp {
    pub fn code(&self) -> (r: u16)
        ensures
            r == comp_code(*self),
    {
        match self {
            Comp::Zero => 0b0101010,
            Comp::One => 0b0111111,
            Comp::NegOne => 0b0111010,
            Comp::D => 0b0001100,
            Comp::A => 0b0110000,
            Comp::NotD => 0b0001101,
            Comp::NotA => 0b0110001,
            Comp::NegD => 0b0001111,
            Comp::NegA => 0b0110011,
            Comp::DPlusOne => 0b0011111,
            Comp::APlusOne => 0b0110111,
            Comp::DMinusOne => 0b0001110,
            Comp::AMinusOne => 0b0110010,
            Comp::DPlusA => 0b0000010,
            Comp::DMinusA => 0b0010011,
            Comp::AMinusD => 0b0000111,
            Comp::DAndA => 0b0000000,
            Comp::DOrA => 0b0010101,
            Comp::M => 0b1110000,
            Comp::NotM => 0b1110001,
            Comp::NegM => 0b1110011,
            Comp::MPlusOne => 0b1110111,
            Comp::MMinusOne => 0b1110010,
            Comp::DPlusM => 0b1000010,
            Comp::DMinusM => 0b1010011,
            Comp::MMinusD => 0b1000111,
            Comp::DAndM => 0b1000000,
            Comp::DOrM => 0b1010101,
        }
    }

    /// The mnemonic of this computation.
    pub fn as_str(&self) -> (r: &'static str)
        ensures
            r@ == comp_chars(*self),
    {
        match self {
            Comp::Zero => {
                proof {
                    reveal_strlit("0");
                    assert("0"@ =~= comp_chars(Comp::Zero));
                }
                "0"
            },
            Comp::One => {
                proof {
                    reveal_strlit("1");
                    assert("1"@ =~= comp_chars(Comp::One));
                }
                "1"
            },
            Comp::NegOne => {
                proof {
                    reveal_strlit("-1");
                    assert("-1"@ =~= comp_chars(Comp::NegOne));
                }
                "-1"
            },
            Comp::D => {
                proof {
                    reveal_strlit("D");
                    assert("D"@ =~= comp_chars(Comp::D));
                }
                "D"
            },
            Comp::A => {
                proof {
                    reveal_strlit("A");
                    assert("A"@ =~= comp_chars(Comp::A));
                }
                "A"
            },
            Comp::NotD => {
                proof {
                    reveal_strlit("!D");
                    assert("!D"@ =~= comp_chars(Comp::NotD));
                }
                "!D"
            },
            Comp::NotA => {
                proof {
                    reveal_strlit("!A");
                    assert("!A"@ =~= comp_chars(Comp::NotA));
                }
                "!A"
            },
            Comp::NegD => {
                proof {
                    reveal_strlit("-D");
                    assert("-D"@ =~= comp_chars(Comp::NegD));
                }
                "-D"
            },
            Comp::NegA => {
                proof {
                    reveal_strlit("-A");
                    assert("-A"@ =~= comp_chars(Comp::NegA));
                }
                "-A"
            },
            Comp::DPlusOne => {
                proof {
                    reveal_strlit("D+1");
                    assert("D+1"@ =~= comp_chars(Comp::DPlusOne));
                }
                "D+1"
            },
            Comp::APlusOne => {
                proof {
                    reveal_strlit("A+1");
                    assert("A+1"@ =~= comp_chars(Comp::APlusOne));
                }
                "A+1"
            },
            Comp::DMinusOne => {
                proof {
                    reveal_strlit("D-1");
                    assert("D-1"@ =~= comp_chars(Comp::DMinusOne));
                }
                "D-1"
            },
            Comp::AMinusOne => {
                proof {
                    reveal_strlit("A-1");
                    assert("A-1"@ =~= comp_chars(Comp::AMinusOne));
                }
                "A-1"
            },
            Comp::DPlusA => {
                proof {
                    reveal_strlit("D+A");
                    assert("D+A"@ =~= comp_chars(Comp::DPlusA));
                }
                "D+A"
            },
            Comp::DMinusA => {
                proof {
                    reveal_strlit("D-A");
                    assert("D-A"@ =~= comp_chars(Comp::DMinusA));
                }
                "D-A"
            },
            Comp::AMinusD => {
                proof {
                    reveal_strlit("A-D");
                    assert("A-D"@ =~= comp_chars(Comp::AMinusD));
                }
                "A-D"
            },
            Comp::DAndA => {
                proof {
                    reveal_strlit("D&A");
                    assert("D&A"@ =~= comp_chars(Comp::DAndA));
                }
                "D&A"
            },
            Comp::DOrA => {
                proof {
                    reveal_strlit("D|A");
                    assert("D|A"@ =~= comp_chars(Comp::DOrA));
                }
                "D|A"
            },
            Comp::M => {
                proof {
                    reveal_strlit("M");
                    assert("M"@ =~= comp_chars(Comp::M));
                }
                "M"
            },
            Comp::NotM => {
                proof {
                    reveal_strlit("!M");
                    assert("!M"@ =~= comp_chars(Comp::NotM));
                }
                "!M"
            },
            Comp::NegM => {
                proof {
                    reveal_strlit("-M");
                    assert("-M"@ =~= comp_chars(Comp::NegM));
                }
                "-M"
            },
            Comp::MPlusOne => {
                proof {
                    reveal_strlit("M+1");
                    assert("M+1"@ =~= comp_chars(Comp::MPlusOne));
                }
                "M+1"
            },
            Comp::MMinusOne => {
                proof {
                    reveal_strlit("M-1");
                    assert("M-1"@ =~= comp_chars(Comp::MMinusOne));
                }
                "M-1"
            },
            Comp::DPlusM => {
                proof {
                    reveal_strlit("D+M");
                    assert("D+M"@ =~= comp_chars(Comp::DPlusM));
                }
                "D+M"
            },
            Comp::DMinusM => {
                proof {
                    reveal_strlit("D-M");
                    assert("D-M"@ =~= comp_chars(Comp::DMinusM));
                }
                "D-M"
            },
            Comp::MMinusD => {
                proof {
                    reveal_strlit("M-D");
                    assert("M-D"@ =~= comp_chars(Comp::MMinusD));
                }
                "M-D"
            },
            Comp::DAndM => {
                proof {
                    reveal_strlit("D&M");
                    assert("D&M"@ =~= comp_chars(Comp::DAndM));
                }
                "D&M"
            },
            Comp::DOrM => {
                proof {
                    reveal_strlit("D|M");
                    assert("D|M"@ =~= comp_chars(Comp::DOrM));
                }
                "D|M"
            },
        }
    }
}

// ---------------------------------------------------------------------------
// Address operands and code lines
// ---------------------------------------------------------------------------

/// The operand of an address instruction: a literal value or a symbolic
/// name to be resolved.
#[derive(Debug)]
pub enum Address {
    Value(u16),
    Variable(String),
}

/// One significant line of assembly: a label declaration, an address
/// instruction, or a compute instruction.
#[derive(Debug)]
pub enum CodeLine {
    Label(String),
    A(Address),
    C { comp: Comp, dest: Dest, jump: Jump },
}

/// The mathematical form of a code line, with names as character
/// sequences.
pub enum LineV {
    Label(Seq<char>),
    AVal(u16),
    AVar(Seq<char>),
    C { comp: Comp, dest: Dest, jump: Jump },
}

impl View for Address {
    type V = LineV;

    open spec fn view(&self) -> LineV {
        match self {
            Address::Value(v) => LineV::AVal(*v),
            Address::Variable(s) => LineV::AVar(s@),
        }
    }
}

impl View for CodeLine {
    type V = LineV;

    open spec fn view(&self) -> LineV {
        match self {
            CodeLine::Label(s) => LineV::Label(s@),
            CodeLine::A(a) => a@,
            CodeLine::C { comp, dest, jump } => LineV::C { comp: *comp, dest: *dest, jump: *jump },
        }
    }
}

/// Views of a sequence of code lines.
pub open spec fn code_line_views(s: Seq<CodeLine>) -> Seq<LineV> {
    s.map_values(|l: CodeLine| l@)
}

/// The text form of a code line, as the assembler reads it back.
pub open spec fn line_text(l: LineV) -> Seq<char> {
    match l {
        LineV::Label(s) => seq!['('] + s + seq![')'],
        LineV::AVal(v) => seq!['@'] + dec_digits(v as int),
        LineV::AVar(s) => seq!['@'] + s,
        LineV::C { comp, dest, jump } => dest_chars(dest) + comp_chars(comp) + jump_suffix_chars(
            jump,
        ),
    }
}

/// Appends the text form of a jump suffix.
fn push_jump_suffix(out: &mut Vec<char>, j: Jump)
    ensures
        final(out)@ == old(out)@ + jump_suffix_chars(j),
{
    match j {
        Jump::Null => {
            proof {
                assert(old(out)@ + jump_suffix_chars(j) =~= old(out)@);
            }
        },
        Jump::JGT => {
            out.push(';');
            out.push('J');
            out.push('G');
            out.push('T');
            proof {
                assert(out@ =~= old(out)@ + jump_suffix_chars(j));
            }
        },
        Jump::JEQ => {
            out.push(';');
            out.push('J');
            out.push('E');
            out.push('Q');
            proof {
                assert(out@ =~= old(out)@ + jump_suffix_chars(j));
            }
        },
        Jump::JGE => {
            out.push(';');
            out.push('J');
            out.push('G');
            out.push('E');
            proof {
                assert(out@ =~= old(out)@ + jump_suffix_chars(j));
            }
        },
        Jump::JLT => {
            out.push(';');
            out.push('J');
            out.push('L');
            out.push('T');
            proof {
                assert(out@ =~= old(out)@ + jump_suffix_chars(j));
            }
        },
        Jump::JNE => {
            out.push(';');
            out.push('J');
            out.push('N');
            out.push('E');
            proof {
                assert(out@ =~= old(out)@ + jump_suffix_chars(j));
            }
        },
        Jump::JLE => {
            out.push(';');
            out.push('J');
            out.push('L');
            out.push('E');
            proof {
                assert(out@ =~= old(out)@ + jump_suffix_chars(j));
            }
        },
        Jump::JMP => {
            out.push(';');
            out.push('J');
            out.push('M');
            out.push('P');
            proof {
                assert(out@ =~= old(out)@ + jump_suffix_chars(j));
            }
        },
    }
}

/// Appends the text form of a destination prefix.
fn push_dest_chars(out: &mut Vec<char>, d: Dest)
    ensures
        final(out)@ == old(out)@ + dest_chars(d),
{
    if d.a {
        out.push('A');
    }
    if d.m {
        out.push('M');
    }
    if d.d {
        out.push('D');
    }
    if d.a || d.m || d.d {
        out.push('=');
    }
    proof {
        assert(out@ =~= old(out)@ + dest_chars(d));
    }
}

impl CodeLine {
    /// An address instruction holding a literal value.
    pub fn constant(value: u16) -> (r: CodeLine)
        ensures
            r@ == LineV::AVal(value),
    {
        CodeLine::A(Address::Value(value))
    }

    /// An address instruction referencing a symbolic name.
    pub fn variable(name: String) -> (r: CodeLine)
        ensures
            r@ matches LineV::AVar(n) && n == name@,
    {
        CodeLine::A(Address::Variable(name))
    }

    /// A compute instruction that stores and never jumps.
    pub fn assign(dest: Dest, comp: Comp) -> (r: CodeLine)
        ensures
            r@ == (LineV::C { comp, dest, jump: Jump::Null }),
    {
        CodeLine::C { comp, dest, jump: Jump::Null }
    }

    /// A compute instruction with an explicit jump condition.
    pub fn test(dest: Dest, comp: Comp, jump: Jump) -> (r: CodeLine)
        ensures
            r@ == (LineV::C { comp, dest, jump }),
    {
        CodeLine::C { comp, dest, jump }
    }

    /// An unconditional jump: compute zero, jump always.
    pub fn goto() -> (r: CodeLine)
        ensures
            r@ == (LineV::C {
                comp: Comp::Zero,
                dest: Dest { a: false, m: false, d: false },
                jump: Jump::JMP,
            }),
    {
        CodeLine::C {
            comp: Comp::Zero,
            dest: Dest { a: false, m: false, d: false },
            jump: Jump::JMP,
        }
    }

    /// The text of this line, as written in an assembly file.
    pub fn to_text(&self) -> (r: String)
        ensures
            r@ == line_text(self@),
    {
        let mut out: Vec<char> = Vec::new();
        match self {
            CodeLine::Label(s) => {
                out.push('(');
                let mut name = str_to_chars(s.as_str());
                out.append(&mut name);
                out.push(')');
                proof {
                    assert(out@ =~= line_text(self@));
                }
            },
            CodeLine::A(Address::Value(v)) => {
                out.push('@');
                let mut digits = u16_dec_chars(*v);
                out.append(&mut digits);
                proof {
                    assert(out@ =~= line_text(self@));
                }
            },
            CodeLine::A(Address::Variable(s)) => {
                out.push('@');
                let mut name = str_to_chars(s.as_str());
                out.append(&mut name);
                proof {
                    assert(out@ =~= line_text(self@));
                }
            },
            CodeLine::C { comp, dest, jump } => {
                push_dest_chars(&mut out, *dest);
                let mut comp_text = str_to_chars(comp.as_str());
                out.append(&mut comp_text);
                push_jump_suffix(&mut out, *jump);
                proof {
                    assert(out@ =~= line_text(self@));
                }
            },
        }
        chars_to_string(&out)
    }
}

// ---------------------------------------------------------------------------
// Mnemonic laws
// ---------------------------------------------------------------------------

/// Parsing the mnemonic of any computation yields that computation, so
/// displaying a parsed mnemonic returns the text it came from: the
/// mnemonic table is a round-trip-safe bijection.
/// The length and the characters of every computation mnemonic.
proof fn lemma_comp_chars_facts()
    ensures
        forall|c1: Comp, c2: Comp| comp_chars(c1) == comp_chars(c2) ==> c1 == c2,
{
    assert(comp_chars(Comp::Zero).len() == 1);
    assert(comp_chars(Comp::Zero)[0] == '0');
    assert(comp_chars(Comp::One).len() == 1);
    assert(comp_chars(Comp::One)[0] == '1');
    assert(comp_chars(Comp::NegOne).len() == 2);
    assert(comp_chars(Comp::NegOne)[0] == '-');
    assert(comp_chars(Comp::NegOne)[1] == '1');
    assert(comp_chars(Comp::D).len() == 1);
    assert(comp_chars(Comp::D)[0] == 'D');
    assert(comp_chars(Comp::A).len() == 1);
    assert(comp_chars(Comp::A)[0] == 'A');
    assert(comp_chars(Comp::NotD).len() == 2);
    assert(comp_chars(Comp::NotD)[0] == '!');
    assert(comp_chars(Comp::NotD)[1] == 'D');
    assert(comp_chars(Comp::NotA).len() == 2);
    assert(comp_chars(Comp::NotA)[0] == '!');
    assert(comp_chars(Comp::NotA)[1] == 'A');
    assert(comp_chars(Comp::NegD).len() == 2);
    assert(comp_chars(Comp::NegD)[0] == '-');
    assert(comp_chars(Comp::NegD)[1] == 'D');
    assert(comp_chars(Comp::NegA).len() == 2);
    assert(comp_chars(Comp::NegA)[0] == '-');
    assert(comp_chars(Comp::NegA)[1] == 'A');
    assert(comp_chars(Comp::DPlusOne).len() == 3);
    assert(comp_chars(Comp::DPlusOne)[0] == 'D');
    assert(comp_chars(Comp::DPlusOne)[1] == '+');
    assert(comp_chars(Comp::DPlusOne)[2] == '1');
    assert(comp_chars(Comp::APlusOne).len() == 3);
    assert(comp_chars(Comp::APlusOne)[0] == 'A');
    assert(comp_chars(Comp::APlusOne)[1] == '+');
    assert(comp_chars(Comp::APlusOne)[2] == '1');
    assert(comp_chars(Comp::DMinusOne).len() == 3);
    assert(comp_chars(Comp::DMinusOne)[0] == 'D');
    assert(comp_chars(Comp::DMinusOne)[1] == '-');
    assert(comp_chars(Comp::DMinusOne)[2] == '1');
    assert(comp_chars(Comp::AMinusOne).len() == 3);
    assert(comp_chars(Comp::AMinusOne)[0] == 'A');
    assert(comp_chars(Comp::AMinusOne)[1] == '-');
    assert(comp_chars(Comp::AMinusOne)[2] == '1');
    assert(comp_chars(Comp::DPlusA).len() == 3);
    assert(comp_chars(Comp::DPlusA)[0] == 'D');
    assert(comp_chars(Comp::DPlusA)[1] == '+');
    assert(comp_chars(Comp::DPlusA)[2] == 'A');
    assert(comp_chars(Comp::DMinusA).len() == 3);
    assert(comp_chars(Comp::DMinusA)[0] == 'D');
    assert(comp_chars(Comp::DMinusA)[1] == '-');
    assert(comp_chars(Comp::DMinusA)[2] == 'A');
    assert(comp_chars(Comp::AMinusD).len() == 3);
    assert(comp_chars(Comp::AMinusD)[0] == 'A');
    assert(comp_chars(Comp::AMinusD)[1] == '-');
    assert(comp_chars(Comp::AMinusD)[2] == 'D');
    assert(comp_chars(Comp::DAndA).len() == 3);
    assert(comp_chars(Comp::DAndA)[0] == 'D');
    assert(comp_chars(Comp::DAndA)[1] == '&');
    assert(comp_chars(Comp::DAndA)[2] == 'A');
    assert(comp_chars(Comp::DOrA).len() == 3);
    assert(comp_chars(Comp::DOrA)[0] == 'D');
    assert(comp_chars(Comp::DOrA)[1] == '|');
    assert(comp_chars(Comp::DOrA)[2] == 'A');
    assert(comp_chars(Comp::M).len() == 1);
    assert(comp_chars(Comp::M)[0] == 'M');
    assert(comp_chars(Comp::NotM).len() == 2);
    assert(comp_chars(Comp::NotM)[0] == '!');
    assert(comp_chars(Comp::NotM)[1] == 'M');
    assert(comp_chars(Comp::NegM).len() == 2);
    assert(comp_chars(Comp::NegM)[0] == '-');
    assert(comp_chars(Comp::NegM)[1] == 'M');
    assert(comp_chars(Comp::MPlusOne).len() == 3);
    assert(comp_chars(Comp::MPlusOne)[0] == 'M');
    assert(comp_chars(Comp::MPlusOne)[1] == '+');
    assert(comp_chars(Comp::MPlusOne)[2] == '1');
    assert(comp_chars(Comp::MMinusOne).len() == 3);
    assert(comp_chars(Comp::MMinusOne)[0] == 'M');
    assert(comp_chars(Comp::MMinusOne)[1] == '-');
    assert(comp_chars(Comp::MMinusOne)[2] == '1');
    assert(comp_chars(Comp::DPlusM).len() == 3);
    assert(comp_chars(Comp::DPlusM)[0] == 'D');
    assert(comp_chars(Comp::DPlusM)[1] == '+');
    assert(comp_chars(Comp::DPlusM)[2] == 'M');
    assert(comp_chars(Comp::DMinusM).len() == 3);
    assert(comp_chars(Comp::DMinusM)[0] == 'D');
    assert(comp_chars(Comp::DMinusM)[1] == '-');
    assert(comp_chars(Comp::DMinusM)[2] == 'M');
    assert(comp_chars(Comp::MMinusD).len() == 3);
    assert(comp_chars(Comp::MMinusD)[0] == 'M');
    assert(comp_chars(Comp::MMinusD)[1] == '-');
    assert(comp_chars(Comp::MMinusD)[2] == 'D');
    assert(comp_chars(Comp::DAndM).len() == 3);
    assert(comp_chars(Comp::DAndM)[0] == 'D');
    assert(comp_chars(Comp::DAndM)[1] == '&');
    assert(comp_chars(Comp::DAndM)[2] == 'M');
    assert(comp_chars(Comp::DOrM).len() == 3);
    assert(comp_chars(Comp::DOrM)[0] == 'D');
    assert(comp_chars(Comp::DOrM)[1] == '|');
    assert(comp_chars(Comp::DOrM)[2] == 'M');
    assert forall|c1: Comp, c2: Comp| comp_chars(c1) == comp_chars(c2) implies c1 == c2 by {
    }
}

pub proof fn lemma_comp_mnemonic_round_trip(c: Comp)
    ensures
        parse_comp_chars(comp_chars(c)) == Some(c),
{
    lemma_comp_chars_facts();
    match c {
        Comp::Zero => {},
        Comp::One => {},
        Comp::NegOne => {},
        Comp::D => {},
        Comp::A => {},
        Comp::NotD => {},
        Comp::NotA => {},
        Comp::NegD => {},
        Comp::NegA => {},
        Comp::DPlusOne => {},
        Comp::APlusOne => {},
        Comp::DMinusOne => {},
        Comp::AMinusOne => {},
        Comp::DPlusA => {},
        Comp::DMinusA => {},
        Comp::AMinusD => {},
        Comp::DAndA => {},
        Comp::DOrA => {},
        Comp::M => {},
        Comp::NotM => {},
        Comp::NegM => {},
        Comp::MPlusOne => {},
        Comp::MMinusOne => {},
        Comp::DPlusM => {},
        Comp::DMinusM => {},
        Comp::MMinusD => {},
        Comp::DAndM => {},
        Comp::DOrM => {},
    }
}

/// A parsed computation mnemonic pins the text down: only the mnemonic
/// of the returned computation parses to it.
pub proof fn lemma_comp_parse_exact(s: Seq<char>, c: Comp)
    requires
        parse_comp_chars(s) == Some(c),
    ensures
        s == comp_chars(c),
{
}

/// The jump encoding is a total bijection between the eight jump
/// conditions (the never-jump included) and the codes 0 through 7.
pub proof fn lemma_jump_code_bijection(n: u16)
    requires
        n <= 7,
    ensures
        forall|j: Jump| #[trigger] jump_code(j) <= 7,
        forall|j1: Jump, j2: Jump| jump_code(j1) == jump_code(j2) ==> j1 == j2,
        exists|j: Jump| #[trigger] jump_code(j) == n,
{
    if n == 0 {
        assert(jump_code(Jump::Null) == 0);
    } else if n == 1 {
        assert(jump_code(Jump::JGT) == 1);
    } else if n == 2 {
        assert(jump_code(Jump::JEQ) == 2);
    } else if n == 3 {
        assert(jump_code(Jump::JGE) == 3);
    } else if n == 4 {
        assert(jump_code(Jump::JLT) == 4);
    } else if n == 5 {
        assert(jump_code(Jump::JNE) == 5);
    } else if n == 6 {
        assert(jump_code(Jump::JLE) == 6);
    } else {
        assert(jump_code(Jump::JMP) == 7);
    }
}

/// Every computation code fits in seven bits.
pub proof fn lemma_comp_code_bounds(c: Comp)
    ensures
        comp_code(c) <= 127,
{
}

/// Every destination code fits in three bits.
pub proof fn lemma_dest_code_bounds(d: Dest)
    ensures
        dest_code(d) <= 7,
{
}

/// Every jump code fits in three bits.
pub proof fn lemma_jump_code_bounds(j: Jump)
    ensures
        jump_code(j) <= 7,
{
}

} // verus!
