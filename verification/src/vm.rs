//! The VM translator: parses stack-machine commands and expands each
//! into a fixed shape of assembly lines that manipulates the stack
//! through the reserved stack-pointer symbol.

use vstd::prelude::*;
use vstd::string::StringExecFns;
use crate::errors::{VmErrV, VmError};
use crate::ir::{Address, CodeLine, Comp, Dest, Jump, LineV, code_line_views, line_text};
use crate::text::{
    chars_to_string, clean_lines, clean_lines_exec, dec_digits, dec_val, is_u16_numeral,
    line_views, parse_u16, split_tokens, split_tokens_exec, str_to_chars, str_views, u16_dec_chars,
};

verus! {

// ---------------------------------------------------------------------------
// The VM language
// ---------------------------------------------------------------------------

/// The one memory segment the translator supports.
#[derive(Debug, Clone, Copy, PartialEq, Eq, Structural)]
pub enum Segment {
    Constant,
}

/// A stack-machine operation.
#[derive(Debug, Clone, Copy, PartialEq, Eq, Structural)]
pub enum VmInstruction {
    Push { segment: Segment, index: u16 },
    Add,
    Eq,
    Lt,
    Gt,
    Sub,
    Neg,
    And,
    Or,
    Not,
}

// ---------------------------------------------------------------------------
// Parsing
// ---------------------------------------------------------------------------

/// The operation one significant line names.  The first token selects
/// the operation; a push also needs a supported segment name and an
/// in-range index.
pub open spec fn parse_vm_line_spec(s: Seq<char>) -> Result<VmInstruction, VmErrV> {
    let toks = split_tokens(s);
    if toks.len() == 0 {
        Err(VmErrV::UnknownVmCommand(Seq::empty()))
    } else if toks[0] == seq!['p', 'u', 's', 'h'] {
        if toks.len() < 2 {
            Err(VmErrV::UnsupportedSegment(Seq::empty()))
        } else if toks[1] != seq!['c', 'o', 'n', 's', 't', 'a', 'n', 't'] {
            Err(VmErrV::UnsupportedSegment(toks[1]))
        } else if toks.len() < 3 {
            Err(VmErrV::InvalidIndex(Seq::empty()))
        } else if !is_u16_numeral(toks[2]) {
            Err(VmErrV::InvalidIndex(toks[2]))
        } else {
            Ok(VmInstruction::Push { segment: Segment::Constant, index: dec_val(toks[2]) as u16 })
        }
    } else if toks[0] == seq!['a', 'd', 'd'] {
        Ok(VmInstruction::Add)
    } else if toks[0] == seq!['s', 'u', 'b'] {
        Ok(VmInstruction::Sub)
    } else if toks[0] == seq!['n', 'e', 'g'] {
        Ok(VmInstruction::Neg)
    } else if toks[0] == seq!['e', 'q'] {
        Ok(VmInstruction::Eq)
    } else if toks[0] == seq!['g', 't'] {
        Ok(VmInstruction::Gt)
    } else if toks[0] == seq!['l', 't'] {
        Ok(VmInstruction::Lt)
    } else if toks[0] == seq!['a', 'n', 'd'] {
        Ok(VmInstruction::And)
    } else if toks[0] == seq!['o', 'r'] {
        Ok(VmInstruction::Or)
    } else if toks[0] == seq!['n', 'o', 't'] {
        Ok(VmInstruction::Not)
    } else {
        Err(VmErrV::UnknownVmCommand(toks[0]))
    }
}

/// Whether two character vectors hold the same text.
fn vec_eq(a: &Vec<char>, b: &Vec<char>) -> (r: bool)
    ensures
        r == (a@ == b@),
{
    if a.len() != b.len() {
        proof {
            if a@ == b@ {
                assert(a@.len() == b@.len());
            }
        }
        return false;
    }
    let mut i: usize = 0;
    while i < a.len()
        invariant
            a@.len() == b@.len(),
            i <= a.len(),
            forall|j: int| 0 <= j < i ==> a@[j] == b@[j],
        decreases a.len() - i,
    {
        if a[i] != b[i] {
            proof {
                if a@ == b@ {
                    assert(a@[i as int] == b@[i as int]);
                }
            }
            return false;
        }
        i += 1;
    }
    proof {
        assert(a@ =~= b@);
    }
    true
}

/// Whether a parsed operation agrees with its mathematical form.
pub open spec fn vm_line_result_matches(
    r: Result<VmInstruction, VmError>,
    s: Result<VmInstruction, VmErrV>,
) -> bool {
    match (r, s) {
        (Ok(a), Ok(b)) => a == b,
        (Err(e), Err(ev)) => e@ == ev,
        _ => false,
    }
}

/// Prepends already-parsed operations onto the rest of a parse.
pub open spec fn cons_ops(
    prefix: Seq<VmInstruction>,
    rest: Result<Seq<VmInstruction>, VmErrV>,
) -> Result<Seq<VmInstruction>, VmErrV> {
    match rest {
        Ok(r) => Ok(prefix + r),
        Err(e) => Err(e),
    }
}

proof fn lemma_cons_ops_assoc(
    prefix: Seq<VmInstruction>,
    op: VmInstruction,
    rest: Result<Seq<VmInstruction>, VmErrV>,
)
    ensures
        cons_ops(prefix, cons_ops(seq![op], rest)) == cons_ops(prefix.push(op), rest),
{
    match rest {
        Ok(r) => {
            assert(prefix + (seq![op] + r) =~= prefix.push(op) + r);
        },
        Err(_) => {},
    }
}

/// Parses every significant line in order; the first failure aborts.
pub open spec fn parse_vm_lines(ls: Seq<Seq<char>>) -> Result<Seq<VmInstruction>, VmErrV>
    decreases ls.len(),
{
    if ls.len() == 0 {
        Ok(Seq::empty())
    } else {
        match parse_vm_line_spec(ls[0]) {
            Err(e) => Err(e),
            Ok(op) => cons_ops(seq![op], parse_vm_lines(ls.skip(1))),
        }
    }
}

// ---------------------------------------------------------------------------
// Code generation
// ---------------------------------------------------------------------------

/// The stack-pointer symbol as a line view.
pub open spec fn at_sp_line() -> LineV {
    LineV::AVar("SP"@)
}

/// The destination that stores nowhere, as a value.
pub open spec fn dest_none() -> Dest {
    Dest { a: false, m: false, d: false }
}

/// The destination register A alone.
pub open spec fn dest_a() -> Dest {
    Dest { a: true, m: false, d: false }
}

/// The destination memory cell M alone.
pub open spec fn dest_m() -> Dest {
    Dest { a: false, m: true, d: false }
}

/// The destination register D alone.
pub open spec fn dest_d() -> Dest {
    Dest { a: false, m: false, d: true }
}

/// The lines that store a computed value into the next free stack slot
/// and advance the stack pointer: net stack depth +1.
pub open spec fn push_lines(comp: Comp) -> Seq<LineV> {
    seq![
        at_sp_line(),
        LineV::C { comp: Comp::M, dest: dest_a(), jump: Jump::Null },
        LineV::C { comp, dest: dest_m(), jump: Jump::Null },
        at_sp_line(),
        LineV::C { comp: Comp::MPlusOne, dest: dest_m(), jump: Jump::Null },
    ]
}

/// The lines that retreat the stack pointer and load the former top of
/// the stack into a destination: net stack depth -1.
pub open spec fn pop_lines(dest: Dest) -> Seq<LineV> {
    seq![
        at_sp_line(),
        LineV::C { comp: Comp::MMinusOne, dest: dest_m(), jump: Jump::Null },
        at_sp_line(),
        LineV::C { comp: Comp::M, dest: dest_a(), jump: Jump::Null },
        LineV::C { comp: Comp::M, dest, jump: Jump::Null },
    ]
}

/// Pop one operand into D, compute on it, push the result.
pub open spec fn unary_lines(comp: Comp) -> Seq<LineV> {
    pop_lines(dest_d()) + seq![LineV::C { comp, dest: dest_d(), jump: Jump::Null }] + push_lines(
        Comp::D,
    )
}

/// Pop the right operand into D and the left into A, compute on both,
/// push the result.
pub open spec fn binary_lines(comp: Comp) -> Seq<LineV> {
    pop_lines(dest_d()) + pop_lines(dest_a()) + seq![
        LineV::C { comp, dest: dest_d(), jump: Jump::Null },
    ] + push_lines(Comp::D)
}

/// The name of a generated branch label.
pub open spec fn label_chars(n: int) -> Seq<char> {
    "LABEL"@ + dec_digits(n)
}

/// The comparison protocol: pop the right operand into D and the left
/// into A, set D to their difference, jump to a fresh true-label when
/// the difference satisfies the condition; otherwise write 0 (false) to
/// the stack top and jump to a fresh join-label; the true branch writes
/// -1 (true); the join advances the stack pointer.  Uses the labels
/// numbered `n` and `n + 1`.
pub open spec fn comparison_lines(jump: Jump, n: int) -> Seq<LineV> {
    pop_lines(dest_d()) + pop_lines(dest_a()) + seq![
        LineV::C { comp: Comp::AMinusD, dest: dest_d(), jump: Jump::Null },
        LineV::AVar(label_chars(n)),
        LineV::C { comp: Comp::D, dest: dest_none(), jump },
        at_sp_line(),
        LineV::C { comp: Comp::M, dest: dest_a(), jump: Jump::Null },
        LineV::C { comp: Comp::Zero, dest: dest_m(), jump: Jump::Null },
        LineV::AVar(label_chars(n + 1)),
        LineV::C { comp: Comp::Zero, dest: dest_none(), jump: Jump::JMP },
        LineV::Label(label_chars(n)),
        at_sp_line(),
        LineV::C { comp: Comp::M, dest: dest_a(), jump: Jump::Null },
        LineV::C { comp: Comp::NegOne, dest: dest_m(), jump: Jump::Null },
        LineV::Label(label_chars(n + 1)),
        at_sp_line(),
        LineV::C { comp: Comp::MPlusOne, dest: dest_m(), jump: Jump::Null },
    ]
}

/// Whether an operation consumes two fresh branch labels.
pub open spec fn is_comparison(op: VmInstruction) -> bool {
    op is Eq || op is Gt || op is Lt
}

/// The assembly lines one operation expands to, with the label counter
/// at `n`.
pub open spec fn gen_lines(op: VmInstruction, n: int) -> Seq<LineV> {
    match op {
        VmInstruction::Push { segment, index } => seq![
            LineV::AVal(index),
            LineV::C { comp: Comp::A, dest: dest_d(), jump: Jump::Null },
        ] + push_lines(Comp::D),
        VmInstruction::Add => binary_lines(Comp::DPlusA),
        VmInstruction::Sub => binary_lines(Comp::AMinusD),
        VmInstruction::Neg => unary_lines(Comp::NegD),
        VmInstruction::Eq => comparison_lines(Jump::JEQ, n),
        VmInstruction::Gt => comparison_lines(Jump::JGT, n),
        VmInstruction::Lt => comparison_lines(Jump::JLT, n),
        VmInstruction::And => binary_lines(Comp::DAndA),
        VmInstruction::Or => binary_lines(Comp::DOrA),
        VmInstruction::Not => unary_lines(Comp::NotD),
    }
}

/// The label counter after one operation: comparisons advance it by
/// two, everything else leaves it.
pub open spec fn next_counter(op: VmInstruction, n: int) -> int {
    if is_comparison(op) {
        n + 2
    } else {
        n
    }
}

/// The lines of a whole operation sequence and the final counter; a
/// counter that would leave the 16-bit range is a fatal error.
pub open spec fn gen_all(ops: Seq<VmInstruction>, n: int) -> Result<(Seq<LineV>, int), VmErrV>
    decreases ops.len(),
{
    if ops.len() == 0 {
        Ok((Seq::empty(), n))
    } else if is_comparison(ops[0]) && n + 2 > u16::MAX {
        Err(VmErrV::TooManyLabels)
    } else {
        match gen_all(ops.skip(1), next_counter(ops[0], n)) {
            Err(e) => Err(e),
            Ok((rest, nf)) => Ok((gen_lines(ops[0], n) + rest, nf)),
        }
    }
}

/// The text of each line, in order.
pub open spec fn render_lines(ls: Seq<LineV>) -> Seq<Seq<char>> {
    ls.map_values(|l: LineV| line_text(l))
}

/// What translating a source text returns: the text of every generated
/// line, in program order, and the final label counter.
pub open spec fn translate_spec(text: Seq<char>, n: int) -> Result<(Seq<Seq<char>>, int), VmErrV> {
    match parse_vm_lines(clean_lines(text)) {
        Err(e) => Err(e),
        Ok(ops) => match gen_all(ops, n) {
            Err(e) => Err(e),
            Ok((ls, nf)) => Ok((render_lines(ls), nf)),
        },
    }
}

// ---------------------------------------------------------------------------
// Generator helpers
// ---------------------------------------------------------------------------

/// The line referencing the stack pointer.
fn at_sp() -> (r: CodeLine)
    ensures
        r@ == at_sp_line(),
{
    CodeLine::A(Address::Variable(String::from_str("SP")))
}

/// The generated code that pushes a computed value: see `push_lines`.
pub fn push(comp: Comp) -> (r: Vec<CodeLine>)
    ensures
        code_line_views(r@) == push_lines(comp),
{
    let mut v: Vec<CodeLine> = Vec::new();
    v.push(at_sp());
    v.push(CodeLine::assign(Dest { a: true, m: false, d: false }, Comp::M));
    v.push(CodeLine::assign(Dest { a: false, m: true, d: false }, comp));
    v.push(at_sp());
    v.push(CodeLine::assign(Dest { a: false, m: true, d: false }, Comp::MPlusOne));
    proof {
        assert(code_line_views(v@) =~= push_lines(comp));
    }
    v
}

/// The generated code that pops the stack top: see `pop_lines`.
pub fn pop(dest: Dest) -> (r: Vec<CodeLine>)
    ensures
        code_line_views(r@) == pop_lines(dest),
{
    let mut v: Vec<CodeLine> = Vec::new();
    v.push(at_sp());
    v.push(CodeLine::assign(Dest { a: false, m: true, d: false }, Comp::MMinusOne));
    v.push(at_sp());
    v.push(CodeLine::assign(Dest { a: true, m: false, d: false }, Comp::M));
    v.push(CodeLine::assign(dest, Comp::M));
    proof {
        assert(code_line_views(v@) =~= pop_lines(dest));
    }
    v
}

/// The expansion of a unary operation: see `unary_lines`.
pub fn unary(comp: Comp) -> (r: Vec<CodeLine>)
    ensures
        code_line_views(r@) == unary_lines(comp),
{
    let mut v = pop(Dest { a: false, m: false, d: true });
    v.push(CodeLine::assign(Dest { a: false, m: false, d: true }, comp));
    let mut tail = push(Comp::D);
    v.append(&mut tail);
    proof {
        assert(code_line_views(v@) =~= unary_lines(comp));
    }
    v
}

/// The expansion of a binary operation: see `binary_lines`.
pub fn binary(comp: Comp) -> (r: Vec<CodeLine>)
    ensures
        code_line_views(r@) == binary_lines(comp),
{
    let mut v = pop(Dest { a: false, m: false, d: true });
    let mut second = pop(Dest { a: true, m: false, d: false });
    v.append(&mut second);
    v.push(CodeLine::assign(Dest { a: false, m: false, d: true }, comp));
    let mut tail = push(Comp::D);
    v.append(&mut tail);
    proof {
        assert(code_line_views(v@) =~= binary_lines(comp));
    }
    v
}

/// The name of a generated branch label, as a value.
fn label_string(n: u16) -> (r: String)
    ensures
        r@ == label_chars(n as int),
{
    let mut chars = str_to_chars("LABEL");
    let mut digits = u16_dec_chars(n);
    chars.append(&mut digits);
    chars_to_string(&chars)
}

/// The expansion of a comparison: see `comparison_lines`.  Consumes the
/// two labels numbered by the counter and advances it by two.
pub fn comparison(jump: Jump, label_index: &mut u16) -> (r: Vec<CodeLine>)
    requires
        *old(label_index) + 2 <= u16::MAX,
    ensures
        code_line_views(r@) == comparison_lines(jump, *old(label_index) as int),
        *final(label_index) == *old(label_index) + 2,
{
    let label1 = label_string(*label_index);
    let label2 = label_string(*label_index + 1);
    *label_index = *label_index + 2;

    let mut v = pop(Dest { a: false, m: false, d: true });
    let mut second = pop(Dest { a: true, m: false, d: false });
    v.append(&mut second);
    v.push(CodeLine::assign(Dest { a: false, m: false, d: true }, Comp::AMinusD));
    v.push(CodeLine::variable(label1.clone()));
    v.push(CodeLine::test(Dest { a: false, m: false, d: false }, Comp::D, jump));
    v.push(at_sp());
    v.push(CodeLine::assign(Dest { a: true, m: false, d: false }, Comp::M));
    v.push(CodeLine::assign(Dest { a: false, m: true, d: false }, Comp::Zero));
    v.push(CodeLine::variable(label2.clone()));
    v.push(CodeLine::goto());
    v.push(CodeLine::Label(label1));
    v.push(at_sp());
    v.push(CodeLine::assign(Dest { a: true, m: false, d: false }, Comp::M));
    v.push(CodeLine::assign(Dest { a: false, m: true, d: false }, Comp::NegOne));
    v.push(CodeLine::Label(label2));
    v.push(at_sp());
    v.push(CodeLine::assign(Dest { a: false, m: true, d: false }, Comp::MPlusOne));
    proof {
        assert(code_line_views(v@) =~= comparison_lines(jump, *old(label_index) as int));
    }
    v
}

// ---------------------------------------------------------------------------
// The translator
// ---------------------------------------------------------------------------

/// One translation run: the branch-label counter it advances.
#[derive(Debug)]
pub struct Context {
    pub label_index: u16,
}

impl Default for Context {
    /// A fresh run: label numbering starts at one.
    fn default() -> (r: Context)
        ensures
            r.label_index == 1,
    {
        Context { label_index: 1 }
    }
}

/// Whether parsed operations agree with their mathematical form.
pub open spec fn ops_result_matches(
    r: Result<Vec<VmInstruction>, VmError>,
    s: Result<Seq<VmInstruction>, VmErrV>,
) -> bool {
    match (r, s) {
        (Ok(v), Ok(ops)) => v@ == ops,
        (Err(e), Err(ev)) => e@ == ev,
        _ => false,
    }
}

/// Whether translated text lines agree with their mathematical form,
/// the final counter included.
pub open spec fn translate_result_matches(
    r: Result<Vec<String>, VmError>,
    s: Result<(Seq<Seq<char>>, int), VmErrV>,
    counter: int,
) -> bool {
    match (r, s) {
        (Ok(v), Ok((ls, nf))) => str_views(v@) == ls && counter == nf,
        (Err(e), Err(ev)) => e@ == ev,
        _ => false,
    }
}

impl Context {
    /// Parses one significant line of VM text.
    pub fn parse_line(line: &str) -> (r: Result<VmInstruction, VmError>)
        ensures
            vm_line_result_matches(r, parse_vm_line_spec(line@)),
    {
        let v = str_to_chars(line);
        let toks = split_tokens_exec(&v);
        proof {
            reveal_strlit("push");
            reveal_strlit("constant");
            reveal_strlit("add");
            reveal_strlit("sub");
            reveal_strlit("neg");
            reveal_strlit("eq");
            reveal_strlit("gt");
            reveal_strlit("lt");
            reveal_strlit("and");
            reveal_strlit("or");
            reveal_strlit("not");
            assert("push"@ =~= seq!['p', 'u', 's', 'h']);
            assert("constant"@ =~= seq!['c', 'o', 'n', 's', 't', 'a', 'n', 't']);
            assert("add"@ =~= seq!['a', 'd', 'd']);
            assert("sub"@ =~= seq!['s', 'u', 'b']);
            assert("neg"@ =~= seq!['n', 'e', 'g']);
            assert("eq"@ =~= seq!['e', 'q']);
            assert("gt"@ =~= seq!['g', 't']);
            assert("lt"@ =~= seq!['l', 't']);
            assert("and"@ =~= seq!['a', 'n', 'd']);
            assert("or"@ =~= seq!['o', 'r']);
            assert("not"@ =~= seq!['n', 'o', 't']);
        }
        if toks.len() == 0 {
            return Err(VmError::UnknownVmCommand(String::new()));
        }
        proof {
            assert(line_views(toks@)[0] == toks@[0]@);
        }
        let push_kw = str_to_chars("push");
        if vec_eq(&toks[0], &push_kw) {
            if toks.len() < 2 {
                return Err(VmError::UnsupportedSegment(String::new()));
            }
            proof {
                assert(line_views(toks@)[1] == toks@[1]@);
            }
            let constant_kw = str_to_chars("constant");
            if !vec_eq(&toks[1], &constant_kw) {
                return Err(VmError::UnsupportedSegment(chars_to_string(&toks[1])));
            }
            if toks.len() < 3 {
                return Err(VmError::InvalidIndex(String::new()));
            }
            proof {
                assert(line_views(toks@)[2] == toks@[2]@);
            }
            match parse_u16(&toks[2]) {
                Some(index) => Ok(VmInstruction::Push { segment: Segment::Constant, index }),
                None => Err(VmError::InvalidIndex(chars_to_string(&toks[2]))),
            }
        } else if vec_eq(&toks[0], &str_to_chars("add")) {
            Ok(VmInstruction::Add)
        } else if vec_eq(&toks[0], &str_to_chars("sub")) {
            Ok(VmInstruction::Sub)
        } else if vec_eq(&toks[0], &str_to_chars("neg")) {
            Ok(VmInstruction::Neg)
        } else if vec_eq(&toks[0], &str_to_chars("eq")) {
            Ok(VmInstruction::Eq)
        } else if vec_eq(&toks[0], &str_to_chars("gt")) {
            Ok(VmInstruction::Gt)
        } else if vec_eq(&toks[0], &str_to_chars("lt")) {
            Ok(VmInstruction::Lt)
        } else if vec_eq(&toks[0], &str_to_chars("and")) {
            Ok(VmInstruction::And)
        } else if vec_eq(&toks[0], &str_to_chars("or")) {
            Ok(VmInstruction::Or)
        } else if vec_eq(&toks[0], &str_to_chars("not")) {
            Ok(VmInstruction::Not)
        } else {
            Err(VmError::UnknownVmCommand(chars_to_string(&toks[0])))
        }
    }

    /// Parses a whole VM source text into its operations, in order.
    /// The first unrecognised command, unsupported segment or malformed
    /// index aborts the run with its classified error.
    #[verifier::loop_isolation(false)]
    pub fn parse(&self, code: &str) -> (r: Result<Vec<VmInstruction>, VmError>)
        ensures
            ops_result_matches(r, parse_vm_lines(clean_lines(code@))),
    {
        let text = str_to_chars(code);
        let clean = clean_lines_exec(&text);
        let mut ops: Vec<VmInstruction> = Vec::new();
        let mut k: usize = 0;
        proof {
            assert(line_views(clean@).skip(0) =~= line_views(clean@));
            match parse_vm_lines(line_views(clean@)) {
                Ok(os) => {
                    assert(Seq::<VmInstruction>::empty() + os =~= os);
                },
                Err(_) => {},
            }
        }
        while k < clean.len()
            invariant
                k <= clean.len(),
                parse_vm_lines(line_views(clean@)) == cons_ops(
                    ops@,
                    parse_vm_lines(line_views(clean@).skip(k as int)),
                ),
            decreases clean.len() - k,
        {
            proof {
                assert(line_views(clean@).skip(k as int)[0] == clean@[k as int]@);
                assert(line_views(clean@).skip(k as int).skip(1) =~= line_views(clean@).skip(
                    k as int + 1,
                ));
            }
            let line = chars_to_string(&clean[k]);
            match Self::parse_line(line.as_str()) {
                Err(e) => {
                    return Err(e);
                },
                Ok(op) => {
                    proof {
                        lemma_cons_ops_assoc(
                            ops@,
                            op,
                            parse_vm_lines(line_views(clean@).skip(k as int + 1)),
                        );
                    }
                    ops.push(op);
                },
            }
            k += 1;
        }
        proof {
            assert(line_views(clean@).skip(k as int) =~= Seq::<Seq<char>>::empty());
            assert(ops@ + Seq::<VmInstruction>::empty() =~= ops@);
        }
        Ok(ops)
    }

    /// Expands one operation into its assembly lines, advancing the
    /// label counter on comparisons.
    pub fn translate_instruction(&mut self, instruction: VmInstruction) -> (r: Vec<CodeLine>)
        requires
            is_comparison(instruction) ==> old(self).label_index + 2 <= u16::MAX,
        ensures
            code_line_views(r@) == gen_lines(instruction, old(self).label_index as int),
            final(self).label_index as int == next_counter(
                instruction,
                old(self).label_index as int,
            ),
    {
        match instruction {
            VmInstruction::Push { segment, index } => {
                match segment {
                    Segment::Constant => {
                        let mut v: Vec<CodeLine> = Vec::new();
                        v.push(CodeLine::constant(index));
                        v.push(CodeLine::assign(Dest { a: false, m: false, d: true }, Comp::A));
                        let mut tail = push(Comp::D);
                        v.append(&mut tail);
                        proof {
                            assert(code_line_views(v@) =~= gen_lines(
                                instruction,
                                old(self).label_index as int,
                            ));
                        }
                        v
                    },
                }
            },
            VmInstruction::Add => binary(Comp::DPlusA),
            VmInstruction::Sub => binary(Comp::AMinusD),
            VmInstruction::Neg => unary(Comp::NegD),
            VmInstruction::Eq => comparison(Jump::JEQ, &mut self.label_index),
            VmInstruction::Gt => comparison(Jump::JGT, &mut self.label_index),
            VmInstruction::Lt => comparison(Jump::JLT, &mut self.label_index),
            VmInstruction::And => binary(Comp::DAndA),
            VmInstruction::Or => binary(Comp::DOrA),
            VmInstruction::Not => unary(Comp::NotD),
        }
    }

    /// Translates a whole VM source text into assembly text lines, in
    /// program order.  Branch labels never collide across the unit: the
    /// counter only grows.  The first malformed command aborts the run
    /// with its classified error.
    #[verifier::loop_isolation(false)]
    pub fn translate(&mut self, code: &str) -> (r: Result<Vec<String>, VmError>)
        ensures
            translate_result_matches(
                r,
                translate_spec(code@, old(self).label_index as int),
                final(self).label_index as int,
            ),
    {
        let ops = match self.parse(code) {
            Ok(v) => v,
            Err(e) => {
                return Err(e);
            },
        };
        let ghost n0 = old(self).label_index as int;
        let mut out: Vec<String> = Vec::new();
        let ghost mut done: Seq<LineV> = Seq::empty();
        let mut i: usize = 0;
        proof {
            assert(ops@.skip(0) =~= ops@);
            assert(str_views(out@) =~= render_lines(done));
            match gen_all(ops@, n0) {
                Ok((ls, nf)) => {
                    assert(Seq::<LineV>::empty() + ls =~= ls);
                },
                Err(_) => {},
            }
        }
        while i < ops.len()
            invariant
                i <= ops.len(),
                str_views(out@) == render_lines(done),
                match gen_all(ops@.skip(i as int), self.label_index as int) {
                    Ok((rest, nf)) => gen_all(ops@, n0) == Ok::<_, VmErrV>((done + rest, nf)),
                    Err(e) => gen_all(ops@, n0) == Err::<(Seq<LineV>, int), _>(e),
                },
            decreases ops.len() - i,
        {
            proof {
                assert(ops@.skip(i as int)[0] == ops@[i as int]);
                assert(ops@.skip(i as int).skip(1) =~= ops@.skip(i as int + 1));
            }
            let op = ops[i];
            let comparison_op = match op {
                VmInstruction::Eq => true,
                VmInstruction::Gt => true,
                VmInstruction::Lt => true,
                _ => false,
            };
            if comparison_op && self.label_index > 65533 {
                return Err(VmError::TooManyLabels);
            }
            let ghost n_before = self.label_index as int;
            let lines = self.translate_instruction(op);
            let mut j: usize = 0;
            while j < lines.len()
                invariant
                    j <= lines.len(),
                    code_line_views(lines@) == gen_lines(ops@[i as int], n_before),
                    str_views(out@) == render_lines(done + code_line_views(lines@).take(j as int)),
                decreases lines.len() - j,
            {
                let text = lines[j].to_text();
                let ghost prev_out = out@;
                out.push(text);
                proof {
                    assert(str_views(out@) =~= str_views(prev_out).push(text@));
                    assert((done + code_line_views(lines@).take(j as int)).push(
                        code_line_views(lines@)[j as int],
                    ) =~= done + code_line_views(lines@).take(j as int + 1));
                    assert(render_lines(
                        (done + code_line_views(lines@).take(j as int)).push(
                            code_line_views(lines@)[j as int],
                        ),
                    ) =~= render_lines(done + code_line_views(lines@).take(j as int)).push(
                        line_text(code_line_views(lines@)[j as int]),
                    ));
                    assert(code_line_views(lines@)[j as int] == lines@[j as int]@);
                }
                j += 1;
            }
            proof {
                assert(code_line_views(lines@).take(lines@.len() as int) =~= code_line_views(
                    lines@,
                ));
                let gen = gen_lines(ops@[i as int], n_before);
                match gen_all(ops@.skip(i as int + 1), self.label_index as int) {
                    Ok((rest2, nf2)) => {
                        assert(done + (gen + rest2) =~= (done + gen) + rest2);
                    },
                    Err(_) => {},
                }
            }
            proof {
                done = done + code_line_views(lines@);
            }
            i += 1;
        }
        proof {
            assert(ops@.skip(i as int) =~= Seq::<VmInstruction>::empty());
            assert(done + Seq::<LineV>::empty() =~= done);
        }
        Ok(out)
    }
}

// ---------------------------------------------------------------------------
// Stack-depth law
// ---------------------------------------------------------------------------

/// The stack-pointer movement of one line.  The generated code touches
/// the stack pointer only through the shapes `M=M+1` (advance) and
/// `M=M-1` (retreat) addressed at the stack-pointer cell, so counting
/// those shapes gives the net stack-depth change.
pub open spec fn sp_delta_line(l: LineV) -> int {
    match l {
        LineV::C { comp, dest, jump } => if dest.m && comp is MPlusOne {
            1
        } else if dest.m && comp is MMinusOne {
            -1
        } else {
            0
        },
        _ => 0,
    }
}

/// The net stack-pointer movement of a line sequence.
pub open spec fn sp_delta(ls: Seq<LineV>) -> int
    decreases ls.len(),
{
    if ls.len() == 0 {
        0
    } else {
        sp_delta_line(ls[0]) + sp_delta(ls.skip(1))
    }
}

proof fn lemma_sp_delta_concat(a: Seq<LineV>, b: Seq<LineV>)
    ensures
        sp_delta(a + b) == sp_delta(a) + sp_delta(b),
    decreases a.len(),
{
    if a.len() == 0 {
        assert(a + b =~= b);
    } else {
        assert((a + b)[0] == a[0]);
        assert((a + b).skip(1) =~= a.skip(1) + b);
        lemma_sp_delta_concat(a.skip(1), b);
    }
}

proof fn lemma_sp_delta_push(comp: Comp)
    requires
        !(comp is MPlusOne),
        !(comp is MMinusOne),
    ensures
        sp_delta(push_lines(comp)) == 1,
{
    reveal_with_fuel(sp_delta, 7);
}

proof fn lemma_sp_delta_pop(dest: Dest)
    ensures
        sp_delta(pop_lines(dest)) == -1,
{
    reveal_with_fuel(sp_delta, 7);
}

/// Law: the net stack-depth change of the code generated for one
/// operation is +1 for a constant push, -1 for the two-operand
/// operations and the comparisons, and 0 for the one-operand
/// operations.
pub proof fn lemma_stack_depth_delta(op: VmInstruction, n: int)
    ensures
        sp_delta(gen_lines(op, n)) == (match op {
            VmInstruction::Push { .. } => 1int,
            VmInstruction::Add => -1int,
            VmInstruction::Sub => -1int,
            VmInstruction::And => -1int,
            VmInstruction::Or => -1int,
            VmInstruction::Neg => 0int,
            VmInstruction::Not => 0int,
            VmInstruction::Eq => -1int,
            VmInstruction::Gt => -1int,
            VmInstruction::Lt => -1int,
        }),
{
    let d = Dest { a: false, m: false, d: true };
    let a = Dest { a: true, m: false, d: false };
    lemma_sp_delta_push(Comp::D);
    lemma_sp_delta_pop(d);
    lemma_sp_delta_pop(a);
    match op {
        VmInstruction::Push { segment, index } => {
            let head = seq![
                LineV::AVal(index),
                LineV::C { comp: Comp::A, dest: dest_d(), jump: Jump::Null },
            ];
            lemma_sp_delta_concat(head, push_lines(Comp::D));
            assert(sp_delta(head) == 0) by {
                reveal_with_fuel(sp_delta, 4);
            }
        },
        VmInstruction::Neg => {
            lemma_unary_delta(Comp::NegD);
        },
        VmInstruction::Not => {
            lemma_unary_delta(Comp::NotD);
        },
        VmInstruction::Add => {
            lemma_binary_delta(Comp::DPlusA);
        },
        VmInstruction::Sub => {
            lemma_binary_delta(Comp::AMinusD);
        },
        VmInstruction::And => {
            lemma_binary_delta(Comp::DAndA);
        },
        VmInstruction::Or => {
            lemma_binary_delta(Comp::DOrA);
        },
        VmInstruction::Eq => {
            lemma_comparison_delta(Jump::JEQ, n);
        },
        VmInstruction::Gt => {
            lemma_comparison_delta(Jump::JGT, n);
        },
        VmInstruction::Lt => {
            lemma_comparison_delta(Jump::JLT, n);
        },
    }
}

proof fn lemma_unary_delta(comp: Comp)
    ensures
        sp_delta(unary_lines(comp)) == 0,
{
    let d = Dest { a: false, m: false, d: true };
    let mid = seq![LineV::C { comp, dest: dest_d(), jump: Jump::Null }];
    lemma_sp_delta_pop(d);
    lemma_sp_delta_push(Comp::D);
    lemma_sp_delta_concat(pop_lines(dest_d()), mid);
    lemma_sp_delta_concat(pop_lines(dest_d()) + mid, push_lines(Comp::D));
    assert(sp_delta(mid) == 0) by {
        reveal_with_fuel(sp_delta, 3);
    }
}

proof fn lemma_binary_delta(comp: Comp)
    ensures
        sp_delta(binary_lines(comp)) == -1,
{
    let mid = seq![LineV::C { comp, dest: dest_d(), jump: Jump::Null }];
    lemma_sp_delta_pop(dest_d());
    lemma_sp_delta_pop(dest_a());
    lemma_sp_delta_push(Comp::D);
    lemma_sp_delta_concat(pop_lines(dest_d()), pop_lines(dest_a()));
    lemma_sp_delta_concat(pop_lines(dest_d()) + pop_lines(dest_a()), mid);
    lemma_sp_delta_concat(pop_lines(dest_d()) + pop_lines(dest_a()) + mid, push_lines(Comp::D));
    assert(sp_delta(mid) == 0) by {
        reveal_with_fuel(sp_delta, 3);
    }
}

proof fn lemma_comparison_delta(jump: Jump, n: int)
    ensures
        sp_delta(comparison_lines(jump, n)) == -1,
{
    let tail = seq![
        LineV::C { comp: Comp::AMinusD, dest: dest_d(), jump: Jump::Null },
        LineV::AVar(label_chars(n)),
        LineV::C { comp: Comp::D, dest: dest_none(), jump },
        at_sp_line(),
        LineV::C { comp: Comp::M, dest: dest_a(), jump: Jump::Null },
        LineV::C { comp: Comp::Zero, dest: dest_m(), jump: Jump::Null },
        LineV::AVar(label_chars(n + 1)),
        LineV::C { comp: Comp::Zero, dest: dest_none(), jump: Jump::JMP },
        LineV::Label(label_chars(n)),
        at_sp_line(),
        LineV::C { comp: Comp::M, dest: dest_a(), jump: Jump::Null },
        LineV::C { comp: Comp::NegOne, dest: dest_m(), jump: Jump::Null },
        LineV::Label(label_chars(n + 1)),
        at_sp_line(),
        LineV::C { comp: Comp::MPlusOne, dest: dest_m(), jump: Jump::Null },
    ];
    lemma_sp_delta_pop(dest_d());
    lemma_sp_delta_pop(dest_a());
    lemma_sp_delta_concat(pop_lines(dest_d()), pop_lines(dest_a()));
    lemma_sp_delta_concat(pop_lines(dest_d()) + pop_lines(dest_a()), tail);
    assert(sp_delta(tail) == 1) by {
        reveal_with_fuel(sp_delta, 17);
    }
}

} // verus!
