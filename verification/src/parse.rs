//! The assembly line parser: classifies one significant line as a label
//! declaration, an address instruction or a compute instruction, and
//! reads the destination, computation and jump fields of the latter.

use vstd::prelude::*;
use crate::errors::{AsmErrV, AsmError};
use crate::ir::{Address, CodeLine, Comp, Dest, Jump, LineV, comp_chars, jump_chars, parse_comp_chars, parse_jump_chars};
use crate::text::{chars_to_string, dec_val, is_u16_numeral, parse_u16, str_to_chars, subvec};

verus! {

// ---------------------------------------------------------------------------
// Character searching
// ---------------------------------------------------------------------------

/// Index of the first occurrence of `c` at or after position `i`.
pub open spec fn find_char_from(s: Seq<char>, i: int, c: char) -> Option<int>
    decreases s.len() - i,
{
    if i < 0 || i >= s.len() {
        None
    } else if s[i] == c {
        Some(i)
    } else {
        find_char_from(s, i + 1, c)
    }
}

pub proof fn lemma_find_char_bounds(s: Seq<char>, i: int, c: char)
    requires
        0 <= i,
    ensures
        match find_char_from(s, i, c) {
            Some(j) => i <= j < s.len() && s[j] == c,
            None => true,
        },
    decreases s.len() - i,
{
    if i < s.len() && s[i] != c {
        lemma_find_char_bounds(s, i + 1, c);
    }
}

/// The first position of `c`, if any.
pub fn find_char(v: &Vec<char>, c: char) -> (r: Option<usize>)
    ensures
        match r {
            Some(j) => find_char_from(v@, 0, c) == Some(j as int) && j < v@.len(),
            None => find_char_from(v@, 0, c) is None,
        },
{
    let mut i: usize = 0;
    while i < v.len()
        invariant
            i <= v.len(),
            find_char_from(v@, 0, c) == find_char_from(v@, i as int, c),
        decreases v.len() - i,
    {
        if v[i] == c {
            return Some(i);
        }
        i += 1;
    }
    None
}

// ---------------------------------------------------------------------------
// Fixed-length mnemonic comparison
// ---------------------------------------------------------------------------

fn chars_eq1(v: &Vec<char>, c0: char) -> (r: bool)
    ensures
        r == (v@ == seq![c0]),
{
    let r = v.len() == 1 && v[0] == c0;
    proof {
        if r {
            assert(v@ =~= seq![c0]);
        } else {
            if v@ == seq![c0] {
                assert(v@.len() == 1);
                assert(v@[0] == c0);
            }
        }
    }
    r
}

fn chars_eq2(v: &Vec<char>, c0: char, c1: char) -> (r: bool)
    ensures
        r == (v@ == seq![c0, c1]),
{
    let r = v.len() == 2 && v[0] == c0 && v[1] == c1;
    proof {
        if r {
            assert(v@ =~= seq![c0, c1]);
        } else {
            if v@ == seq![c0, c1] {
                assert(v@.len() == 2);
                assert(v@[0] == c0);
                assert(v@[1] == c1);
            }
        }
    }
    r
}

fn chars_eq3(v: &Vec<char>, c0: char, c1: char, c2: char) -> (r: bool)
    ensures
        r == (v@ == seq![c0, c1, c2]),
{
    let r = v.len() == 3 && v[0] == c0 && v[1] == c1 && v[2] == c2;
    proof {
        if r {
            assert(v@ =~= seq![c0, c1, c2]);
        } else {
            if v@ == seq![c0, c1, c2] {
                assert(v@.len() == 3);
                assert(v@[0] == c0);
                assert(v@[1] == c1);
                assert(v@[2] == c2);
            }
        }
    }
    r
}

// ---------------------------------------------------------------------------
// Field parsers
// ---------------------------------------------------------------------------

/// The destination a prefix names: each letter A, M or D sets its flag;
/// any other letter makes the prefix invalid.
pub open spec fn parse_dest_chars(s: Seq<char>) -> Option<Dest>
    decreases s.len(),
{
    if s.len() == 0 {
        Some(Dest { a: false, m: false, d: false })
    } else {
        match parse_dest_chars(s.drop_last()) {
            None => None,
            Some(d0) => {
                let c = s.last();
                if c == 'A' {
                    Some(Dest { a: true, m: d0.m, d: d0.d })
                } else if c == 'M' {
                    Some(Dest { a: d0.a, m: true, d: d0.d })
                } else if c == 'D' {
                    Some(Dest { a: d0.a, m: d0.m, d: true })
                } else {
                    None
                }
            },
        }
    }
}

/// An invalid destination prefix stays invalid however it is extended.
proof fn lemma_parse_dest_none(s: Seq<char>, j: int)
    requires
        0 <= j <= s.len(),
        parse_dest_chars(s.take(j)) is None,
    ensures
        parse_dest_chars(s) is None,
    decreases s.len() - j,
{
    if j == s.len() {
        assert(s.take(j) =~= s);
    } else {
        assert(s.take(j + 1).drop_last() =~= s.take(j));
        lemma_parse_dest_none(s, j + 1);
    }
}

/// The destination prefix, read letter by letter.
pub fn parse_dest(part: &Vec<char>) -> (r: Option<Dest>)
    ensures
        r == parse_dest_chars(part@),
{
    let mut dest = Dest { a: false, m: false, d: false };
    let mut i: usize = 0;
    proof {
        assert(part@.take(0) =~= Seq::<char>::empty());
    }
    while i < part.len()
        invariant
            i <= part.len(),
            parse_dest_chars(part@.take(i as int)) == Some(dest),
        decreases part.len() - i,
    {
        let c = part[i];
        proof {
            assert(part@.take(i as int + 1).drop_last() =~= part@.take(i as int));
            assert(part@.take(i as int + 1).last() == part@[i as int]);
        }
        if c == 'A' {
            dest.a = true;
        } else if c == 'M' {
            dest.m = true;
        } else if c == 'D' {
            dest.d = true;
        } else {
            proof {
                lemma_parse_dest_none(part@, i as int + 1);
            }
            return None;
        }
        i += 1;
    }
    proof {
        assert(part@.take(part@.len() as int) =~= part@);
    }
    Some(dest)
}

/// The jump condition a mnemonic names, if any.
pub fn parse_jump(v: &Vec<char>) -> (r: Option<Jump>)
    ensures
        r == parse_jump_chars(v@),
{
    if chars_eq3(v, 'J', 'G', 'T') {
        Some(Jump::JGT)
    } else if chars_eq3(v, 'J', 'E', 'Q') {
        Some(Jump::JEQ)
    } else if chars_eq3(v, 'J', 'G', 'E') {
        Some(Jump::JGE)
    } else if chars_eq3(v, 'J', 'L', 'T') {
        Some(Jump::JLT)
    } else if chars_eq3(v, 'J', 'N', 'E') {
        Some(Jump::JNE)
    } else if chars_eq3(v, 'J', 'L', 'E') {
        Some(Jump::JLE)
    } else if chars_eq3(v, 'J', 'M', 'P') {
        Some(Jump::JMP)
    } else {
        None
    }
}

/// The computation a mnemonic names, if any.
pub fn parse_comp(v: &Vec<char>) -> (r: Option<Comp>)
    ensures
        r == parse_comp_chars(v@),
{
    if chars_eq1(v, '0') {
        Some(Comp::Zero)
    } else if chars_eq1(v, '1') {
        Some(Comp::One)
    } else if chars_eq2(v, '-', '1') {
        Some(Comp::NegOne)
    } else if chars_eq1(v, 'D') {
        Some(Comp::D)
    } else if chars_eq1(v, 'A') {
        Some(Comp::A)
    } else if chars_eq2(v, '!', 'D') {
        Some(Comp::NotD)
    } else if chars_eq2(v, '!', 'A') {
        Some(Comp::NotA)
    } else if chars_eq2(v, '-', 'D') {
        Some(Comp::NegD)
    } else if chars_eq2(v, '-', 'A') {
        Some(Comp::NegA)
    } else if chars_eq3(v, 'D', '+', '1') {
        Some(Comp::DPlusOne)
    } else if chars_eq3(v, 'A', '+', '1') {
        Some(Comp::APlusOne)
    } else if chars_eq3(v, 'D', '-', '1') {
        Some(Comp::DMinusOne)
    } else if chars_eq3(v, 'A', '-', '1') {
        Some(Comp::AMinusOne)
    } else if chars_eq3(v, 'D', '+', 'A') {
        Some(Comp::DPlusA)
    } else if chars_eq3(v, 'D', '-', 'A') {
        Some(Comp::DMinusA)
    } else if chars_eq3(v, 'A', '-', 'D') {
        Some(Comp::AMinusD)
    } else if chars_eq3(v, 'D', '&', 'A') {
        Some(Comp::DAndA)
    } else if chars_eq3(v, 'D', '|', 'A') {
        Some(Comp::DOrA)
    } else if chars_eq1(v, 'M') {
        Some(Comp::M)
    } else if chars_eq2(v, '!', 'M') {
        Some(Comp::NotM)
    } else if chars_eq2(v, '-', 'M') {
        Some(Comp::NegM)
    } else if chars_eq3(v, 'M', '+', '1') {
        Some(Comp::MPlusOne)
    } else if chars_eq3(v, 'M', '-', '1') {
        Some(Comp::MMinusOne)
    } else if chars_eq3(v, 'D', '+', 'M') {
        Some(Comp::DPlusM)
    } else if chars_eq3(v, 'D', '-', 'M') {
        Some(Comp::DMinusM)
    } else if chars_eq3(v, 'M', '-', 'D') {
        Some(Comp::MMinusD)
    } else if chars_eq3(v, 'D', '&', 'M') {
        Some(Comp::DAndM)
    } else if chars_eq3(v, 'D', '|', 'M') {
        Some(Comp::DOrM)
    } else {
        None
    }
}

// ---------------------------------------------------------------------------
// Line classification
// ---------------------------------------------------------------------------

/// The interior of a label declaration: the text after `(` and before
/// the closing parenthesis position.
pub open spec fn label_interior(s: Seq<char>) -> Seq<char> {
    if s.len() >= 2 {
        s.subrange(1, s.len() - 1)
    } else {
        Seq::empty()
    }
}

/// A compute instruction line: an optional destination prefix before
/// `=`, an optional jump suffix after `;`, and a computation between.
pub open spec fn parse_c_line(s: Seq<char>) -> Result<LineV, AsmErrV> {
    let dest_part = match find_char_from(s, 0, '=') {
        Some(i) => s.take(i),
        None => Seq::<char>::empty(),
    };
    let after_eq = match find_char_from(s, 0, '=') {
        Some(i) => s.skip(i + 1),
        None => s,
    };
    match parse_dest_chars(dest_part) {
        None => Err(AsmErrV::InvalidDestination(dest_part)),
        Some(dest) => {
            let comp_part = match find_char_from(after_eq, 0, ';') {
                Some(j) => after_eq.take(j),
                None => after_eq,
            };
            match find_char_from(after_eq, 0, ';') {
                Some(j) => {
                    let jump_part = after_eq.skip(j + 1);
                    match parse_jump_chars(jump_part) {
                        None => Err(AsmErrV::InvalidJump(jump_part)),
                        Some(jump) => match parse_comp_chars(comp_part) {
                            None => Err(AsmErrV::InvalidComputation(comp_part)),
                            Some(comp) => Ok(LineV::C { comp, dest, jump }),
                        },
                    }
                },
                None => match parse_comp_chars(comp_part) {
                    None => Err(AsmErrV::InvalidComputation(comp_part)),
                    Some(comp) => Ok(LineV::C { comp, dest, jump: Jump::Null }),
                },
            }
        },
    }
}

/// One significant line: a label declaration in parentheses, an address
/// instruction after `@` (a numeral in 16-bit range is a literal value,
/// anything else a symbolic name), or a compute instruction.
pub open spec fn parse_asm_line(s: Seq<char>) -> Result<LineV, AsmErrV> {
    if s.len() > 0 && s[0] == '(' {
        Ok(LineV::Label(label_interior(s)))
    } else if s.len() > 0 && s[0] == '@' {
        let tok = s.skip(1);
        if is_u16_numeral(tok) {
            Ok(LineV::AVal(dec_val(tok) as u16))
        } else {
            Ok(LineV::AVar(tok))
        }
    } else {
        parse_c_line(s)
    }
}

/// Whether a parsed line agrees with its mathematical form.
pub open spec fn line_result_matches(r: Result<CodeLine, AsmError>, s: Result<LineV, AsmErrV>) -> bool {
    match (r, s) {
        (Ok(l), Ok(lv)) => l@ == lv,
        (Err(e), Err(ev)) => e@ == ev,
        _ => false,
    }
}

/// Parses one significant line from its characters.
pub fn parse_code_line(v: &Vec<char>) -> (r: Result<CodeLine, AsmError>)
    ensures
        line_result_matches(r, parse_asm_line(v@)),
{
    if v.len() > 0 && v[0] == '(' {
        let interior = if v.len() >= 2 {
            subvec(v, 1, v.len() - 1)
        } else {
            Vec::new()
        };
        proof {
            assert(interior@ =~= label_interior(v@));
        }
        Ok(CodeLine::Label(chars_to_string(&interior)))
    } else if v.len() > 0 && v[0] == '@' {
        let tok = subvec(v, 1, v.len());
        proof {
            assert(tok@ =~= v@.skip(1));
        }
        match parse_u16(&tok) {
            Some(value) => Ok(CodeLine::A(Address::Value(value))),
            None => Ok(CodeLine::A(Address::Variable(chars_to_string(&tok)))),
        }
    } else {
        let eq = find_char(v, '=');
        let dest_part = match eq {
            Some(i) => subvec(v, 0, i),
            None => Vec::new(),
        };
        let after_eq = match eq {
            Some(i) => subvec(v, i + 1, v.len()),
            None => subvec(v, 0, v.len()),
        };
        proof {
            lemma_find_char_bounds(v@, 0, '=');
            match find_char_from(v@, 0, '=') {
                Some(i) => {
                    assert(dest_part@ =~= v@.take(i));
                    assert(after_eq@ =~= v@.skip(i + 1));
                },
                None => {
                    assert(dest_part@ =~= Seq::<char>::empty());
                    assert(after_eq@ =~= v@);
                },
            }
        }
        match parse_dest(&dest_part) {
            None => Err(AsmError::InvalidDestination(chars_to_string(&dest_part))),
            Some(dest) => {
                let semi = find_char(&after_eq, ';');
                let comp_part = match semi {
                    Some(j) => subvec(&after_eq, 0, j),
                    None => subvec(&after_eq, 0, after_eq.len()),
                };
                proof {
                    lemma_find_char_bounds(after_eq@, 0, ';');
                    match find_char_from(after_eq@, 0, ';') {
                        Some(j) => {
                            assert(comp_part@ =~= after_eq@.take(j));
                        },
                        None => {
                            assert(comp_part@ =~= after_eq@);
                        },
                    }
                }
                match semi {
                    Some(j) => {
                        let jump_part = subvec(&after_eq, j + 1, after_eq.len());
                        proof {
                            assert(jump_part@ =~= after_eq@.skip(j as int + 1));
                        }
                        match parse_jump(&jump_part) {
                            None => Err(AsmError::InvalidJump(chars_to_string(&jump_part))),
                            Some(jump) => match parse_comp(&comp_part) {
                                None => Err(AsmError::InvalidComputation(chars_to_string(&comp_part))),
                                Some(comp) => Ok(CodeLine::C { comp, dest, jump }),
                            },
                        }
                    },
                    None => match parse_comp(&comp_part) {
                        None => Err(AsmError::InvalidComputation(chars_to_string(&comp_part))),
                        Some(comp) => Ok(CodeLine::C { comp, dest, jump: Jump::Null }),
                    },
                }
            },
        }
    }
}

impl CodeLine {
    /// Parses one significant line of assembly text.
    pub fn from_str(line: &str) -> (r: Result<CodeLine, AsmError>)
        ensures
            line_result_matches(r, parse_asm_line(line@)),
    {
        let v = str_to_chars(line);
        parse_code_line(&v)
    }
}

} // verus!
