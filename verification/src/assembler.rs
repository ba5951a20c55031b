//! The assembler: parses a source text into code lines, resolves labels
//! and variables in two passes over one symbol table, and encodes the
//! resolved commands as machine words.

use vstd::prelude::*;
use crate::encode::{Command, Instruction, encode_spec};
use crate::errors::{AsmErrV, AsmError};
use crate::ir::{Address, CodeLine, LineV, code_line_views};
use crate::parse::{parse_asm_line, parse_code_line};
use crate::symbols::{SymbolTable, lookup, predefined_entries};
use crate::text::{clean_lines, clean_lines_exec, line_views, str_to_chars};

verus! {

// ---------------------------------------------------------------------------
// The specification pipeline
// ---------------------------------------------------------------------------

/// Prepends already-parsed lines onto the rest of a parse.
pub open spec fn cons_lines(prefix: Seq<LineV>, rest: Result<Seq<LineV>, AsmErrV>) -> Result<
    Seq<LineV>,
    AsmErrV,
> {
    match rest {
        Ok(r) => Ok(prefix + r),
        Err(e) => Err(e),
    }
}

proof fn lemma_cons_lines_assoc(prefix: Seq<LineV>, l: LineV, rest: Result<Seq<LineV>, AsmErrV>)
    ensures
        cons_lines(prefix, cons_lines(seq![l], rest)) == cons_lines(prefix.push(l), rest),
{
    match rest {
        Ok(r) => {
            assert(prefix + (seq![l] + r) =~= prefix.push(l) + r);
        },
        Err(_) => {},
    }
}

/// Parses every significant line in order; the first failure aborts.
pub open spec fn parse_lines_spec(ls: Seq<Seq<char>>) -> Result<Seq<LineV>, AsmErrV>
    decreases ls.len(),
{
    if ls.len() == 0 {
        Ok(Seq::empty())
    } else {
        match parse_asm_line(ls[0]) {
            Err(e) => Err(e),
            Ok(l) => cons_lines(seq![l], parse_lines_spec(ls.skip(1))),
        }
    }
}

/// The name a label declares; meaningful only for labels.
pub open spec fn label_name(l: LineV) -> Seq<char> {
    match l {
        LineV::Label(n) => n,
        _ => Seq::empty(),
    }
}

/// The name an address instruction references; meaningful only for
/// symbolic address instructions.
pub open spec fn var_name(l: LineV) -> Seq<char> {
    match l {
        LineV::AVar(n) => n,
        _ => Seq::empty(),
    }
}

/// The number of instructions among the lines: every line but a label
/// declaration occupies one instruction slot.
pub open spec fn instr_count(lines: Seq<LineV>) -> int
    decreases lines.len(),
{
    if lines.len() == 0 {
        0
    } else {
        (if lines[0] is Label {
            0int
        } else {
            1int
        }) + instr_count(lines.skip(1))
    }
}

/// The first pass: walks the lines with an instruction counter that
/// starts at zero, binds each label to the counter, and leaves the
/// counter unchanged on label lines.  Rebinding any symbol is a fatal
/// duplicate-symbol error; a label index beyond the 16-bit range is a
/// fatal size error.
pub open spec fn pass1(lines: Seq<LineV>, t: Seq<(Seq<char>, u16)>, n: int) -> Result<
    Seq<(Seq<char>, u16)>,
    AsmErrV,
>
    decreases lines.len(),
{
    if lines.len() == 0 {
        Ok(t)
    } else if lines[0] is Label {
        let name = label_name(lines[0]);
        match lookup(t, name) {
            Some(v) => Err(AsmErrV::DuplicateSymbol(name, v)),
            None => if n > u16::MAX {
                Err(AsmErrV::ProgramTooLarge)
            } else {
                pass1(lines.skip(1), t.push((name, n as u16)), n)
            },
        }
    } else {
        pass1(lines.skip(1), t, n + 1)
    }
}

/// Prepends already-resolved commands onto the rest of a resolution.
pub open spec fn cons_cmds(prefix: Seq<Command>, rest: Result<Seq<Command>, AsmErrV>) -> Result<
    Seq<Command>,
    AsmErrV,
> {
    match rest {
        Ok(r) => Ok(prefix + r),
        Err(e) => Err(e),
    }
}

proof fn lemma_cons_cmds_assoc(prefix: Seq<Command>, c: Command, rest: Result<Seq<Command>, AsmErrV>)
    ensures
        cons_cmds(prefix, cons_cmds(seq![c], rest)) == cons_cmds(prefix.push(c), rest),
{
    match rest {
        Ok(r) => {
            assert(prefix + (seq![c] + r) =~= prefix.push(c) + r);
        },
        Err(_) => {},
    }
}

/// The second pass: walks the lines again with the completed table,
/// drops label declarations, passes literal addresses and compute lines
/// through, and resolves each symbolic address to its binding — or, for
/// a name the table does not hold, to the next free variable address,
/// binding the name to it.
pub open spec fn pass2(lines: Seq<LineV>, t: Seq<(Seq<char>, u16)>, next: u16) -> Result<
    Seq<Command>,
    AsmErrV,
>
    decreases lines.len(),
{
    if lines.len() == 0 {
        Ok(Seq::empty())
    } else {
        match lines[0] {
            LineV::Label(_) => pass2(lines.skip(1), t, next),
            LineV::AVal(v) => cons_cmds(seq![Command::A(v)], pass2(lines.skip(1), t, next)),
            LineV::AVar(name) => match lookup(t, name) {
                Some(v) => cons_cmds(seq![Command::A(v)], pass2(lines.skip(1), t, next)),
                None => if next == u16::MAX {
                    Err(AsmErrV::ProgramTooLarge)
                } else {
                    cons_cmds(
                        seq![Command::A(next)],
                        pass2(lines.skip(1), t.push((name, next)), (next + 1) as u16),
                    )
                },
            },
            LineV::C { comp, dest, jump } => cons_cmds(
                seq![Command::C { comp, dest, jump }],
                pass2(lines.skip(1), t, next),
            ),
        }
    }
}

/// The resolved commands of a source text, run against a table state:
/// clean, parse, collect labels, resolve.
pub open spec fn file_commands(text: Seq<char>, t: Seq<(Seq<char>, u16)>, next: u16) -> Result<
    Seq<Command>,
    AsmErrV,
> {
    match parse_lines_spec(clean_lines(text)) {
        Err(e) => Err(e),
        Ok(lines) => match pass1(lines, t, 0) {
            Err(e) => Err(e),
            Ok(t1) => pass2(lines, t1, next),
        },
    }
}

/// The machine words of a source text, run against a table state.
pub open spec fn assemble_from(text: Seq<char>, t: Seq<(Seq<char>, u16)>, next: u16) -> Result<
    Seq<u16>,
    AsmErrV,
> {
    match file_commands(text, t, next) {
        Err(e) => Err(e),
        Ok(cmds) => Ok(cmds.map_values(|c: Command| encode_spec(c))),
    }
}

/// The machine words of a fresh assembly run: the table starts with the
/// predefined symbols, and variables are allocated from 16 up.
pub open spec fn assemble_spec(text: Seq<char>) -> Result<Seq<u16>, AsmErrV> {
    assemble_from(text, predefined_entries(), 16)
}

/// Whether resolved commands agree with their mathematical form.
pub open spec fn commands_result_matches(
    r: Result<Vec<Command>, AsmError>,
    s: Result<Seq<Command>, AsmErrV>,
) -> bool {
    match (r, s) {
        (Ok(v), Ok(cs)) => v@ == cs,
        (Err(e), Err(ev)) => e@ == ev,
        _ => false,
    }
}

/// Whether encoded words agree with their mathematical form.
pub open spec fn words_result_matches(
    r: Result<Vec<Instruction>, AsmError>,
    s: Result<Seq<u16>, AsmErrV>,
) -> bool {
    match (r, s) {
        (Ok(v), Ok(ws)) => v@.map_values(|ins: Instruction| ins.0) == ws,
        (Err(e), Err(ev)) => e@ == ev,
        _ => false,
    }
}

// ---------------------------------------------------------------------------
// The stages
// ---------------------------------------------------------------------------

/// Parses every cleaned line into a code line.
#[verifier::loop_isolation(false)]
fn parse_stage(clean: &Vec<Vec<char>>) -> (r: Result<Vec<CodeLine>, AsmError>)
    ensures
        match (r, parse_lines_spec(line_views(clean@))) {
            (Ok(v), Ok(ls)) => code_line_views(v@) == ls,
            (Err(e), Err(ev)) => e@ == ev,
            _ => false,
        },
{
    let mut lines: Vec<CodeLine> = Vec::new();
    let mut k: usize = 0;
    proof {
        assert(line_views(clean@).skip(0) =~= line_views(clean@));
        assert(code_line_views(lines@) =~= Seq::<LineV>::empty());
        match parse_lines_spec(line_views(clean@)) {
            Ok(ls) => {
                assert(Seq::<LineV>::empty() + ls =~= ls);
            },
            Err(_) => {},
        }
    }
    while k < clean.len()
        invariant
            k <= clean.len(),
            parse_lines_spec(line_views(clean@)) == cons_lines(
                code_line_views(lines@),
                parse_lines_spec(line_views(clean@).skip(k as int)),
            ),
        decreases clean.len() - k,
    {
        proof {
            assert(line_views(clean@).skip(k as int)[0] == clean@[k as int]@);
            assert(line_views(clean@).skip(k as int).skip(1) =~= line_views(clean@).skip(
                k as int + 1,
            ));
        }
        match parse_code_line(&clean[k]) {
            Err(e) => {
                return Err(e);
            },
            Ok(l) => {
                proof {
                    lemma_cons_lines_assoc(
                        code_line_views(lines@),
                        l@,
                        parse_lines_spec(line_views(clean@).skip(k as int + 1)),
                    );
                }
                let ghost prev = code_line_views(lines@);
                lines.push(l);
                proof {
                    assert(code_line_views(lines@) =~= prev.push(l@));
                }
            },
        }
        k += 1;
    }
    proof {
        assert(line_views(clean@).skip(k as int) =~= Seq::<Seq<char>>::empty());
        assert(code_line_views(lines@) + Seq::<LineV>::empty() =~= code_line_views(lines@));
    }
    Ok(lines)
}

/// The first pass over the parsed lines: binds labels.
#[verifier::loop_isolation(false)]
fn pass1_stage(table: &mut SymbolTable, lines: &Vec<CodeLine>) -> (r: Result<(), AsmError>)
    ensures
        match (r, pass1(code_line_views(lines@), old(table).entries(), 0)) {
            (Ok(()), Ok(t1)) => final(table).entries() == t1 && final(table).next() == old(
                table,
            ).next(),
            (Err(e), Err(ev)) => e@ == ev,
            _ => false,
        },
{
    let ghost lv = code_line_views(lines@);
    let mut counter: usize = 0;
    let mut k: usize = 0;
    proof {
        assert(lv.skip(0) =~= lv);
    }
    while k < lines.len()
        invariant
            k <= lines.len(),
            counter <= k,
            table.next() == old(table).next(),
            pass1(lv, old(table).entries(), 0) == pass1(
                lv.skip(k as int),
                table.entries(),
                counter as int,
            ),
        decreases lines.len() - k,
    {
        proof {
            assert(lv.skip(k as int)[0] == lines@[k as int]@);
            assert(lv.skip(k as int).skip(1) =~= lv.skip(k as int + 1));
        }
        match &lines[k] {
            CodeLine::Label(name) => {
                match table.lookup_addr(name) {
                    Some(v) => {
                        return Err(AsmError::DuplicateSymbol(name.clone(), v));
                    },
                    None => {
                        if counter > 65535 {
                            return Err(AsmError::ProgramTooLarge);
                        }
                        match table.insert(name.clone(), counter as u16) {
                            Ok(()) => {},
                            Err(e) => {
                                return Err(e);
                            },
                        }
                    },
                }
            },
            _ => {
                counter += 1;
            },
        }
        k += 1;
    }
    proof {
        assert(lv.skip(k as int) =~= Seq::<LineV>::empty());
    }
    Ok(())
}

/// The second pass over the parsed lines: resolves symbols, elides
/// labels, and gives the commands in source order.
#[verifier::loop_isolation(false)]
fn pass2_stage(table: &mut SymbolTable, lines: &Vec<CodeLine>) -> (r: Result<Vec<Command>, AsmError>)
    ensures
        match (r, pass2(code_line_views(lines@), old(table).entries(), old(table).next())) {
            (Ok(v), Ok(cs)) => v@ == cs,
            (Err(e), Err(ev)) => e@ == ev,
            _ => false,
        },
{
    let ghost lv = code_line_views(lines@);
    let ghost t1 = table.entries();
    let ghost n1 = table.next();
    let mut out: Vec<Command> = Vec::new();
    let mut k: usize = 0;
    proof {
        assert(lv.skip(0) =~= lv);
        match pass2(lv, t1, n1) {
            Ok(cs) => {
                assert(Seq::<Command>::empty() + cs =~= cs);
            },
            Err(_) => {},
        }
    }
    while k < lines.len()
        invariant
            k <= lines.len(),
            pass2(lv, t1, n1) == cons_cmds(
                out@,
                pass2(lv.skip(k as int), table.entries(), table.next()),
            ),
        decreases lines.len() - k,
    {
        proof {
            assert(lv.skip(k as int)[0] == lines@[k as int]@);
            assert(lv.skip(k as int).skip(1) =~= lv.skip(k as int + 1));
        }
        match &lines[k] {
            CodeLine::Label(_) => {},
            CodeLine::A(Address::Value(v)) => {
                proof {
                    lemma_cons_cmds_assoc(
                        out@,
                        Command::A(*v),
                        pass2(lv.skip(k as int + 1), table.entries(), table.next()),
                    );
                }
                out.push(Command::A(*v));
            },
            CodeLine::A(Address::Variable(name)) => {
                let found = table.lookup_addr(name);
                if found.is_none() && table.next_free() == 65535 {
                    return Err(AsmError::ProgramTooLarge);
                }
                let a = table.get_or_insert(name.clone());
                proof {
                    lemma_cons_cmds_assoc(
                        out@,
                        Command::A(a),
                        pass2(lv.skip(k as int + 1), table.entries(), table.next()),
                    );
                }
                out.push(Command::A(a));
            },
            CodeLine::C { comp, dest, jump } => {
                proof {
                    lemma_cons_cmds_assoc(
                        out@,
                        Command::C { comp: *comp, dest: *dest, jump: *jump },
                        pass2(lv.skip(k as int + 1), table.entries(), table.next()),
                    );
                }
                out.push(Command::C { comp: *comp, dest: *dest, jump: *jump });
            },
        }
        k += 1;
    }
    proof {
        assert(lv.skip(k as int) =~= Seq::<LineV>::empty());
        assert(out@ + Seq::<Command>::empty() =~= out@);
    }
    Ok(out)
}

// ---------------------------------------------------------------------------
// The assembler
// ---------------------------------------------------------------------------

/// One assembly run: the symbol table it builds and consults.
#[derive(Debug)]
pub struct Context {
    pub symbol_table: SymbolTable,
}

impl Default for Context {
    /// A fresh run over the predefined symbols.
    fn default() -> (r: Context)
        ensures
            r.symbol_table.entries() == predefined_entries(),
            r.symbol_table.next() == 16,
    {
        Context { symbol_table: SymbolTable::default() }
    }
}

impl Context {
    /// Parses one significant line of assembly text.
    pub fn parse_line(line: &str) -> (r: Result<CodeLine, AsmError>)
        ensures
            crate::parse::line_result_matches(r, parse_asm_line(line@)),
    {
        CodeLine::from_str(line)
    }

    /// Parses a whole source text and resolves every symbol, giving the
    /// command sequence in source order with label lines elided.  The
    /// first malformed line, duplicate symbol or range overflow aborts
    /// the run with its classified error and produces nothing.
    pub fn parse_file(&mut self, content: &str) -> (r: Result<Vec<Command>, AsmError>)
        ensures
            commands_result_matches(
                r,
                file_commands(
                    content@,
                    old(self).symbol_table.entries(),
                    old(self).symbol_table.next(),
                ),
            ),
    {
        let text = str_to_chars(content);
        let clean = clean_lines_exec(&text);
        let lines = match parse_stage(&clean) {
            Ok(v) => v,
            Err(e) => {
                return Err(e);
            },
        };
        match pass1_stage(&mut self.symbol_table, &lines) {
            Ok(()) => {},
            Err(e) => {
                return Err(e);
            },
        }
        pass2_stage(&mut self.symbol_table, &lines)
    }

    /// Assembles a whole source text into machine words, in source
    /// order.  The first malformed line, duplicate symbol or range
    /// overflow aborts the run with its classified error and produces
    /// nothing.
    pub fn assemble(&mut self, content: &str) -> (r: Result<Vec<Instruction>, AsmError>)
        ensures
            words_result_matches(
                r,
                assemble_from(
                    content@,
                    old(self).symbol_table.entries(),
                    old(self).symbol_table.next(),
                ),
            ),
    {
        let cmds = match self.parse_file(content) {
            Ok(c) => c,
            Err(e) => {
                return Err(e);
            },
        };
        let mut out: Vec<Instruction> = Vec::new();
        let mut i: usize = 0;
        while i < cmds.len()
            invariant
                i <= cmds.len(),
                out@.len() == i,
                forall|j: int| 0 <= j < i ==> (#[trigger] out@[j]).0 == encode_spec(cmds@[j]),
            decreases cmds.len() - i,
        {
            out.push(Instruction::from_command(&cmds[i]));
            i += 1;
        }
        proof {
            assert(out@.map_values(|ins: Instruction| ins.0) =~= cmds@.map_values(
                |c: Command| encode_spec(c),
            ));
        }
        Ok(out)
    }
}


// ---------------------------------------------------------------------------
// Resolution laws
// ---------------------------------------------------------------------------

proof fn lemma_instr_count_nonneg(lines: Seq<LineV>)
    ensures
        instr_count(lines) >= 0,
    decreases lines.len(),
{
    if lines.len() > 0 {
        lemma_instr_count_nonneg(lines.skip(1));
    }
}

proof fn lemma_instr_count_take_step(lines: Seq<LineV>, i: int)
    requires
        1 <= i <= lines.len(),
    ensures
        instr_count(lines.take(i)) == (if lines[0] is Label {
            0int
        } else {
            1int
        }) + instr_count(lines.skip(1).take(i - 1)),
{
    assert(lines.take(i)[0] == lines[0]);
    assert(lines.take(i).skip(1) =~= lines.skip(1).take(i - 1));
}

/// A successful first pass never unbinds a name: a binding the table
/// already holds survives unchanged.
proof fn lemma_pass1_preserves(
    lines: Seq<LineV>,
    t: Seq<(Seq<char>, u16)>,
    n: int,
    name: Seq<char>,
)
    requires
        pass1(lines, t, n) is Ok,
        lookup(t, name) is Some,
    ensures
        lookup(pass1(lines, t, n)->Ok_0, name) == lookup(t, name),
    decreases lines.len(),
{
    if lines.len() == 0 {
    } else if lines[0] is Label {
        let nm = label_name(lines[0]);
        crate::symbols::lemma_lookup_push(t, name, (nm, n as u16));
        lemma_pass1_preserves(lines.skip(1), t.push((nm, n as u16)), n, name);
    } else {
        lemma_pass1_preserves(lines.skip(1), t, n + 1, name);
    }
}

/// A successful first pass begun at counter `n` binds the label at
/// position `i` to `n` plus the instructions before it.
proof fn lemma_pass1_label_lookup(lines: Seq<LineV>, t: Seq<(Seq<char>, u16)>, n: int, i: int)
    requires
        pass1(lines, t, n) is Ok,
        0 <= i < lines.len(),
        lines[i] is Label,
        n >= 0,
    ensures
        n + instr_count(lines.take(i)) <= u16::MAX,
        instr_count(lines.take(i)) >= 0,
        lookup(pass1(lines, t, n)->Ok_0, label_name(lines[i])) == Some(
            (n + instr_count(lines.take(i))) as u16,
        ),
    decreases lines.len(),
{
    lemma_instr_count_nonneg(lines.take(i));
    if i == 0 {
        assert(lines.take(0) =~= Seq::<LineV>::empty());
        let nm = label_name(lines[0]);
        let t2 = t.push((nm, n as u16));
        crate::symbols::lemma_lookup_push(t, nm, (nm, n as u16));
        lemma_pass1_preserves(lines.skip(1), t2, n, nm);
    } else {
        lemma_instr_count_take_step(lines, i);
        assert(lines.skip(1)[i - 1] == lines[i]);
        if lines[0] is Label {
            let nm = label_name(lines[0]);
            let t2 = t.push((nm, n as u16));
            lemma_pass1_label_lookup(lines.skip(1), t2, n, i - 1);
        } else {
            lemma_pass1_label_lookup(lines.skip(1), t, n + 1, i - 1);
        }
    }
}

/// Law: after a successful first pass begun at counter zero, every
/// label is bound to the count of non-label instructions preceding it.
/// Comments and blank lines were dropped before the lines were parsed
/// and counted, so they never shift an address.
pub proof fn lemma_label_addresses(lines: Seq<LineV>, t: Seq<(Seq<char>, u16)>, i: int)
    requires
        pass1(lines, t, 0) is Ok,
        0 <= i < lines.len(),
        lines[i] is Label,
    ensures
        0 <= instr_count(lines.take(i)) <= u16::MAX,
        lookup(pass1(lines, t, 0)->Ok_0, label_name(lines[i])) == Some(
            instr_count(lines.take(i)) as u16,
        ),
{
    lemma_pass1_label_lookup(lines, t, 0, i);
}

/// Whether some label redefines a symbol the table already holds.
pub open spec fn redefines_table(lines: Seq<LineV>, t: Seq<(Seq<char>, u16)>) -> bool {
    exists|i: int|
        0 <= i < lines.len() && (#[trigger] lines[i]) is Label && lookup(
            t,
            label_name(lines[i]),
        ) is Some
}

/// Whether two labels declare the same name.
pub open spec fn repeats_label(lines: Seq<LineV>) -> bool {
    exists|i: int, j: int|
        #![trigger lines[i], lines[j]]
        0 <= i < j < lines.len() && lines[i] is Label && lines[j] is Label && label_name(lines[i])
            == label_name(lines[j])
}

/// Whether the lines redefine any symbol, predefined or user-made.
pub open spec fn redefines(lines: Seq<LineV>, t: Seq<(Seq<char>, u16)>) -> bool {
    redefines_table(lines, t) || repeats_label(lines)
}

/// Law: redefining any symbol — a predefined name or an earlier user
/// label — makes the first pass fail, whatever the counter.
pub proof fn lemma_duplicate_symbol_rejected(lines: Seq<LineV>, t: Seq<(Seq<char>, u16)>, n: int)
    requires
        redefines(lines, t),
    ensures
        pass1(lines, t, n) is Err,
    decreases lines.len(),
{
    if lines.len() == 0 {
        if redefines_table(lines, t) {
            let i = choose|i: int|
                0 <= i < lines.len() && (#[trigger] lines[i]) is Label && lookup(
                    t,
                    label_name(lines[i]),
                ) is Some;
            assert(false);
        } else {
            let (i, j) = choose|i: int, j: int|
                #![trigger lines[i], lines[j]]
                0 <= i < j < lines.len() && lines[i] is Label && lines[j] is Label && label_name(
                    lines[i],
                ) == label_name(lines[j]);
            assert(false);
        }
    } else if lines[0] is Label {
        let nm = label_name(lines[0]);
        match lookup(t, nm) {
            Some(_) => {},
            None => {
                if n > u16::MAX {
                } else {
                    let t2 = t.push((nm, n as u16));
                    if redefines_table(lines, t) {
                        let i = choose|i: int|
                            0 <= i < lines.len() && (#[trigger] lines[i]) is Label && lookup(
                                t,
                                label_name(lines[i]),
                            ) is Some;
                        assert(i >= 1);
                        crate::symbols::lemma_lookup_push(t, label_name(lines[i]), (nm, n as u16));
                        assert(lines.skip(1)[i - 1] == lines[i]);
                        assert(redefines_table(lines.skip(1), t2));
                    } else {
                        let (i, j) = choose|i: int, j: int|
                            #![trigger lines[i], lines[j]]
                            0 <= i < j < lines.len() && lines[i] is Label && lines[j] is Label
                                && label_name(lines[i]) == label_name(lines[j]);
                        if i == 0 {
                            crate::symbols::lemma_lookup_push(t, nm, (nm, n as u16));
                            assert(lines.skip(1)[j - 1] == lines[j]);
                            assert(lookup(t2, label_name(lines.skip(1)[j - 1])) is Some);
                            assert(redefines_table(lines.skip(1), t2));
                        } else {
                            assert(lines.skip(1)[i - 1] == lines[i]);
                            assert(lines.skip(1)[j - 1] == lines[j]);
                            assert(repeats_label(lines.skip(1)));
                        }
                    }
                    lemma_duplicate_symbol_rejected(lines.skip(1), t2, n);
                }
            },
        }
    } else {
        if redefines_table(lines, t) {
            let i = choose|i: int|
                0 <= i < lines.len() && (#[trigger] lines[i]) is Label && lookup(
                    t,
                    label_name(lines[i]),
                ) is Some;
            assert(i >= 1);
            assert(lines.skip(1)[i - 1] == lines[i]);
            assert(redefines_table(lines.skip(1), t));
        } else {
            let (i, j) = choose|i: int, j: int|
                #![trigger lines[i], lines[j]]
                0 <= i < j < lines.len() && lines[i] is Label && lines[j] is Label && label_name(
                    lines[i],
                ) == label_name(lines[j]);
            assert(i >= 1);
            assert(lines.skip(1)[i - 1] == lines[i]);
            assert(lines.skip(1)[j - 1] == lines[j]);
            assert(repeats_label(lines.skip(1)));
        }
        lemma_duplicate_symbol_rejected(lines.skip(1), t, n + 1);
    }
}

/// Law: a source whose parsed lines redefine any symbol assembles to an
/// error, whatever the table state: the run is rejected and no words
/// are produced.
pub proof fn lemma_duplicate_symbol_no_output(
    text: Seq<char>,
    t: Seq<(Seq<char>, u16)>,
    next: u16,
)
    requires
        parse_lines_spec(clean_lines(text)) is Ok,
        redefines(parse_lines_spec(clean_lines(text))->Ok_0, t),
    ensures
        assemble_from(text, t, next) is Err,
{
    lemma_duplicate_symbol_rejected(parse_lines_spec(clean_lines(text))->Ok_0, t, 0);
}

/// Whether an earlier line references the same variable name.
pub open spec fn seen_before(lines: Seq<LineV>, i: int) -> bool {
    exists|j: int| 0 <= j < i && var_name(#[trigger] lines[j]) == var_name(lines[i])
}

/// How many of the first `i` lines allocate a fresh variable address:
/// those whose name the table does not hold and no earlier line
/// references.
pub open spec fn fresh_count(lines: Seq<LineV>, t: Seq<(Seq<char>, u16)>, i: int) -> int
    decreases i,
{
    if i <= 0 {
        0
    } else {
        fresh_count(lines, t, i - 1) + (if lookup(t, var_name(lines[i - 1])) is None
            && !seen_before(lines, i - 1) {
            1int
        } else {
            0int
        })
    }
}

proof fn lemma_fresh_count_mono(lines: Seq<LineV>, t: Seq<(Seq<char>, u16)>, i: int, j: int)
    requires
        0 <= i <= j,
    ensures
        0 <= fresh_count(lines, t, i) <= fresh_count(lines, t, j),
    decreases j,
{
    if i == j {
        if i > 0 {
            lemma_fresh_count_mono(lines, t, i - 1, i - 1);
        }
    } else {
        lemma_fresh_count_mono(lines, t, i, j - 1);
    }
}

/// A line after the first references a seen name exactly when it
/// repeats the head's name or repeats within the tail.
proof fn lemma_seen_before_shift(lines: Seq<LineV>, i: int)
    requires
        1 <= i < lines.len(),
    ensures
        seen_before(lines, i) <==> (var_name(lines[0]) == var_name(lines[i]) || seen_before(
            lines.skip(1),
            i - 1,
        )),
{
    assert(lines.skip(1)[i - 1] == lines[i]);
    if seen_before(lines, i) {
        let j = choose|j: int| 0 <= j < i && var_name(#[trigger] lines[j]) == var_name(lines[i]);
        if j >= 1 {
            assert(lines.skip(1)[j - 1] == lines[j]);
            assert(var_name(lines.skip(1)[j - 1]) == var_name(lines.skip(1)[i - 1]));
            assert(seen_before(lines.skip(1), i - 1));
        }
    }
    if var_name(lines[0]) == var_name(lines[i]) {
        assert(0 <= 0 < i && var_name(lines[0]) == var_name(lines[i]));
        assert(seen_before(lines, i));
    }
    if seen_before(lines.skip(1), i - 1) {
        let j = choose|j: int|
            0 <= j < i - 1 && var_name(#[trigger] lines.skip(1)[j]) == var_name(
                lines.skip(1)[i - 1],
            );
        assert(lines.skip(1)[j] == lines[j + 1]);
        assert(var_name(lines[j + 1]) == var_name(lines[i]));
        assert(seen_before(lines, i));
    }
}

/// The table state after the head line is resolved: its name freshly
/// bound to `next` where the table did not hold it.
pub open spec fn head_table(
    lines: Seq<LineV>,
    t: Seq<(Seq<char>, u16)>,
    next: u16,
) -> Seq<(Seq<char>, u16)> {
    if lookup(t, var_name(lines[0])) is None {
        t.push((var_name(lines[0]), next))
    } else {
        t
    }
}

/// After the head line is handled, the remaining lines allocate fresh
/// addresses exactly as the whole program did from position one on.
proof fn lemma_fresh_count_shift(lines: Seq<LineV>, t: Seq<(Seq<char>, u16)>, next: u16, i: int)
    requires
        1 <= i <= lines.len(),
    ensures
        fresh_count(lines, t, i) == (if lookup(t, var_name(lines[0])) is None {
            1int
        } else {
            0int
        }) + fresh_count(lines.skip(1), head_table(lines, t, next), i - 1),
    decreases i,
{
    let nm0 = var_name(lines[0]);
    let t2 = head_table(lines, t, next);
    assert(!seen_before(lines, 0));
    if i == 1 {
        assert(fresh_count(lines, t, 0) == 0);
        assert(fresh_count(lines.skip(1), t2, 0) == 0);
    } else {
        lemma_fresh_count_shift(lines, t, next, i - 1);
        let k = i - 1;
        assert(lines.skip(1)[k - 1] == lines[k]);
        let nmk = var_name(lines[k]);
        lemma_seen_before_shift(lines, k);
        if nmk == nm0 {
            assert(seen_before(lines, k));
            if lookup(t, nm0) is None {
                crate::symbols::lemma_lookup_push(t, nmk, (nm0, next));
                assert(lookup(t2, nmk) is Some);
            }
        } else {
            if lookup(t, nm0) is None {
                crate::symbols::lemma_lookup_push(t, nmk, (nm0, next));
            }
            assert(lookup(t2, nmk) == lookup(t, nmk));
        }
    }
}

/// Law: resolution numbers the fresh variables in first-reference
/// order.  A name the table holds resolves to its binding; the line
/// that first references a name the table does not hold receives the
/// next free address after all earlier fresh names.
pub proof fn lemma_variable_numbering(
    lines: Seq<LineV>,
    t: Seq<(Seq<char>, u16)>,
    next: u16,
    i: int,
)
    requires
        forall|k: int| 0 <= k < lines.len() ==> (#[trigger] lines[k]) is AVar,
        next + fresh_count(lines, t, lines.len() as int) <= u16::MAX,
    ensures
        pass2(lines, t, next) is Ok,
        pass2(lines, t, next)->Ok_0.len() == lines.len(),
        (0 <= i < lines.len()) ==> match lookup(t, var_name(lines[i])) {
            Some(v) => pass2(lines, t, next)->Ok_0[i] == Command::A(v),
            None => !seen_before(lines, i) ==> pass2(lines, t, next)->Ok_0[i] == Command::A(
                (next + fresh_count(lines, t, i)) as u16,
            ),
        },
    decreases lines.len(),
{
    if lines.len() == 0 {
    } else {
        let nm0 = var_name(lines[0]);
        assert(lines[0] is AVar);
        assert(!seen_before(lines, 0));
        lemma_fresh_count_shift(lines, t, next, lines.len() as int);
        assert forall|k: int| 0 <= k < lines.skip(1).len() implies (#[trigger] lines.skip(
            1,
        )[k]) is AVar by {
            assert(lines.skip(1)[k] == lines[k + 1]);
        }
        let i2 = if 1 <= i < lines.len() {
            i - 1
        } else {
            0
        };
        match lookup(t, nm0) {
            Some(v0) => {
                lemma_variable_numbering(lines.skip(1), t, next, i2);
                if 1 <= i < lines.len() {
                    lemma_fresh_count_shift(lines, t, next, i);
                    assert(lines.skip(1)[i - 1] == lines[i]);
                    let nmi = var_name(lines[i]);
                    if lookup(t, nmi) is None && !seen_before(lines, i) {
                        lemma_seen_before_shift(lines, i);
                        lemma_fresh_count_mono(lines, t, i, lines.len() as int);
                    }
                }
            },
            None => {
                lemma_fresh_count_mono(lines, t, 1, lines.len() as int);
                assert(fresh_count(lines, t, 0) == 0);
                assert(fresh_count(lines, t, 1) == 1);
                let t2 = t.push((nm0, next));
                assert(t2 == head_table(lines, t, next));
                let next2 = (next + 1) as u16;
                lemma_variable_numbering(lines.skip(1), t2, next2, i2);
                if i == 0 {
                    assert(fresh_count(lines, t, 0) == 0);
                } else if 1 <= i < lines.len() {
                    lemma_fresh_count_shift(lines, t, next, i);
                    assert(lines.skip(1)[i - 1] == lines[i]);
                    let nmi = var_name(lines[i]);
                    crate::symbols::lemma_lookup_push(t, nmi, (nm0, next));
                    if lookup(t, nmi) is None && !seen_before(lines, i) {
                        assert(nmi != nm0) by {
                            if nmi == nm0 {
                                assert(0 <= 0 < i && var_name(lines[0]) == var_name(lines[i]));
                                assert(seen_before(lines, i));
                            }
                        }
                        assert(lookup(t2, nmi) is None);
                        lemma_seen_before_shift(lines, i);
                        lemma_fresh_count_mono(lines, t, i, lines.len() as int);
                    }
                }
            },
        }
    }
}

/// Law: from a fresh assembly run — the table holding only the
/// predefined symbols, the cursor at 16 — a program of forward
/// references alone gives the Nth newly seen variable name address
/// 16 + N - 1: the line first referencing it sees N - 1 earlier fresh
/// names.
pub proof fn lemma_forward_variables_from_sixteen(lines: Seq<LineV>, i: int)
    requires
        forall|k: int| 0 <= k < lines.len() ==> (#[trigger] lines[k]) is AVar,
        16 + fresh_count(lines, predefined_entries(), lines.len() as int) <= u16::MAX,
        0 <= i < lines.len(),
        lookup(predefined_entries(), var_name(lines[i])) is None,
        !seen_before(lines, i),
    ensures
        pass2(lines, predefined_entries(), 16) is Ok,
        pass2(lines, predefined_entries(), 16)->Ok_0[i] == Command::A(
            (16 + fresh_count(lines, predefined_entries(), i)) as u16,
        ),
{
    lemma_variable_numbering(lines, predefined_entries(), 16, i);
}

} // verus!
