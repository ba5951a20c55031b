//! Character-level utilities shared by the assembler and the VM
//! translator: decimal numerals, whitespace trimming, comment
//! stripping, line splitting and whitespace tokenisation.

use vstd::prelude::*;
use vstd::string::StrSliceExecFns;

verus! {

// ---------------------------------------------------------------------------
// Character classes
// ---------------------------------------------------------------------------

/// The whitespace characters of the ASCII range.
pub open spec fn is_space_char(c: char) -> bool {
    c == ' ' || c == '\t' || c == '\n' || c == '\r' || c == '\u{b}' || c == '\u{c}'
}

pub fn is_space(c: char) -> (r: bool)
    ensures
        r == is_space_char(c),
{
    c == ' ' || c == '\t' || c == '\n' || c == '\r' || c == '\u{b}' || c == '\u{c}'
}

pub open spec fn is_digit_char(c: char) -> bool {
    48 <= c as u32 && c as u32 <= 57
}

pub fn is_digit(c: char) -> (r: bool)
    ensures
        r == is_digit_char(c),
{
    let x = c as u32;
    48 <= x && x <= 57
}

/// Numeric value of a decimal digit character.
pub open spec fn digit_val(c: char) -> int {
    c as u32 - 48
}

/// The character for a decimal digit value.
pub open spec fn digit_char(d: int) -> char {
    if d == 0 {
        '0'
    } else if d == 1 {
        '1'
    } else if d == 2 {
        '2'
    } else if d == 3 {
        '3'
    } else if d == 4 {
        '4'
    } else if d == 5 {
        '5'
    } else if d == 6 {
        '6'
    } else if d == 7 {
        '7'
    } else if d == 8 {
        '8'
    } else {
        '9'
    }
}

fn digit_exec(d: u16) -> (r: char)
    requires
        d < 10,
    ensures
        r == digit_char(d as int),
{
    if d == 0 {
        '0'
    } else if d == 1 {
        '1'
    } else if d == 2 {
        '2'
    } else if d == 3 {
        '3'
    } else if d == 4 {
        '4'
    } else if d == 5 {
        '5'
    } else if d == 6 {
        '6'
    } else if d == 7 {
        '7'
    } else if d == 8 {
        '8'
    } else {
        '9'
    }
}

// ---------------------------------------------------------------------------
// Decimal numerals
// ---------------------------------------------------------------------------

/// The decimal numeral of a non-negative integer, most significant
/// digit first, without leading zeros (except for zero itself).
pub open spec fn dec_digits(n: int) -> Seq<char>
    decreases n,
{
    if n < 10 {
        seq![digit_char(n)]
    } else {
        dec_digits(n / 10).push(digit_char(n % 10))
    }
}

pub fn u16_dec_chars(n: u16) -> (r: Vec<char>)
    ensures
        r@ == dec_digits(n as int),
    decreases n,
{
    if n < 10 {
        let mut v: Vec<char> = Vec::new();
        v.push(digit_exec(n));
        assert(v@ =~= seq![digit_char(n as int)]);
        v
    } else {
        let mut v = u16_dec_chars(n / 10);
        v.push(digit_exec(n % 10));
        v
    }
}

/// The value of a digit string read as a decimal number.
pub open spec fn dec_val(s: Seq<char>) -> int
    decreases s.len(),
{
    if s.len() == 0 {
        0
    } else {
        dec_val(s.drop_last()) * 10 + digit_val(s.last())
    }
}

pub open spec fn all_digits(s: Seq<char>) -> bool {
    forall|i: int| 0 <= i < s.len() ==> is_digit_char(#[trigger] s[i])
}

/// Whether a token is a decimal numeral whose value fits in 16 bits.
pub open spec fn is_u16_numeral(s: Seq<char>) -> bool {
    s.len() > 0 && all_digits(s) && dec_val(s) <= u16::MAX
}

proof fn lemma_dec_val_nonneg(s: Seq<char>)
    requires
        all_digits(s),
    ensures
        dec_val(s) >= 0,
    decreases s.len(),
{
    if s.len() > 0 {
        assert(all_digits(s.drop_last())) by {
            assert(forall|i: int|
                0 <= i < s.len() - 1 ==> s.drop_last()[i] == #[trigger] s[i]);
        }
        lemma_dec_val_nonneg(s.drop_last());
    }
}

/// Parses a digit-only token as a 16-bit value; `None` when the token
/// is empty, holds a non-digit, or exceeds `u16::MAX`.
pub fn parse_u16(v: &Vec<char>) -> (r: Option<u16>)
    ensures
        match r {
            Some(n) => is_u16_numeral(v@) && n as int == dec_val(v@),
            None => !is_u16_numeral(v@),
        },
{
    if v.len() == 0 {
        return None;
    }
    let mut acc: u32 = 0;
    let mut over: bool = false;
    let mut i: usize = 0;
    while i < v.len()
        invariant
            i <= v.len(),
            all_digits(v@.take(i as int)),
            !over ==> acc <= u16::MAX && acc as int == dec_val(v@.take(i as int)),
            over ==> dec_val(v@.take(i as int)) > u16::MAX,
        decreases v.len() - i,
    {
        let c = v[i];
        if !is_digit(c) {
            return None;
        }
        let d: u32 = (c as u32) - 48;
        proof {
            assert(v@.take(i as int + 1).drop_last() =~= v@.take(i as int));
            assert(v@.take(i as int + 1).last() == v@[i as int]);
            assert(forall|j: int|
                0 <= j < i + 1 ==> v@.take(i as int + 1)[j] == #[trigger] v@.take(
                    i as int + 1,
                )[j]);
            assert(all_digits(v@.take(i as int + 1))) by {
                assert(forall|j: int|
                    0 <= j < i ==> #[trigger] v@.take(i as int + 1)[j] == v@.take(i as int)[j]);
            }
        }
        if over {
            proof {
                lemma_dec_val_nonneg(v@.take(i as int));
            }
            i += 1;
            continue;
        }
        let next: u32 = acc * 10 + d;
        if next > 65535 {
            over = true;
        } else {
            acc = next;
        }
        i += 1;
    }
    proof {
        assert(v@.take(v@.len() as int) =~= v@);
    }
    if over {
        None
    } else {
        Some(acc as u16)
    }
}

// ---------------------------------------------------------------------------
// Strings and character vectors
// ---------------------------------------------------------------------------

/// Relies on `String::push`: appends exactly the one character.
#[verifier::external_body]
fn push_char(s: &mut String, c: char)
    ensures
        final(s)@ == old(s)@.push(c),
{
    s.push(c);
}

pub fn chars_to_string(v: &Vec<char>) -> (r: String)
    ensures
        r@ == v@,
{
    let mut s = String::new();
    let mut i: usize = 0;
    while i < v.len()
        invariant
            i <= v.len(),
            s@ == v@.take(i as int),
        decreases v.len() - i,
    {
        push_char(&mut s, v[i]);
        proof {
            assert(v@.take(i as int).push(v@[i as int]) =~= v@.take(i as int + 1));
        }
        i += 1;
    }
    proof {
        assert(v@.take(v@.len() as int) =~= v@);
    }
    s
}

pub fn str_to_chars(s: &str) -> (r: Vec<char>)
    ensures
        r@ == s@,
{
    let n = s.unicode_len();
    let mut v: Vec<char> = Vec::new();
    let mut i: usize = 0;
    while i < n
        invariant
            n == s@.len(),
            i <= n,
            v@ == s@.take(i as int),
        decreases n - i,
    {
        let c = s.get_char(i);
        v.push(c);
        proof {
            assert(s@.take(i as int).push(s@[i as int]) =~= s@.take(i as int + 1));
        }
        i += 1;
    }
    proof {
        assert(s@.take(s@.len() as int) =~= s@);
    }
    v
}

/// Copies the characters of `v` between `from` and `to`.
pub fn subvec(v: &Vec<char>, from: usize, to: usize) -> (r: Vec<char>)
    requires
        from <= to,
        to <= v.len(),
    ensures
        r@ == v@.subrange(from as int, to as int),
{
    let mut r: Vec<char> = Vec::new();
    let mut i: usize = from;
    while i < to
        invariant
            from <= i <= to,
            to <= v.len(),
            r@ == v@.subrange(from as int, i as int),
        decreases to - i,
    {
        r.push(v[i]);
        proof {
            assert(v@.subrange(from as int, i as int).push(v@[i as int]) =~= v@.subrange(
                from as int,
                i as int + 1,
            ));
        }
        i += 1;
    }
    r
}

// ---------------------------------------------------------------------------
// Comment stripping
// ---------------------------------------------------------------------------

/// Index of the first `//` at or after position `i`, if any.
pub open spec fn comment_start_from(s: Seq<char>, i: int) -> Option<int>
    decreases s.len() - i,
{
    if i < 0 || i + 2 > s.len() {
        None
    } else if s[i] == '/' && s[i + 1] == '/' {
        Some(i)
    } else {
        comment_start_from(s, i + 1)
    }
}

/// Everything before the first line-comment marker.
pub open spec fn strip_comment(s: Seq<char>) -> Seq<char> {
    match comment_start_from(s, 0) {
        Some(i) => s.take(i),
        None => s,
    }
}

pub fn strip_comment_exec(v: &Vec<char>) -> (r: Vec<char>)
    ensures
        r@ == strip_comment(v@),
{
    let mut i: usize = 0;
    while v.len() > 0 && i < v.len() - 1
        invariant
            i <= v.len(),
            comment_start_from(v@, 0) == comment_start_from(v@, i as int),
        decreases v.len() - i,
    {
        if v[i] == '/' && v[i + 1] == '/' {
            let r = subvec(v, 0, i);
            proof {
                assert(comment_start_from(v@, i as int) == Some(i as int));
                assert(v@.subrange(0, i as int) =~= v@.take(i as int));
            }
            return r;
        }
        i += 1;
    }
    proof {
        assert(comment_start_from(v@, i as int) is None);
    }
    let r = subvec(v, 0, v.len());
    proof {
        assert(v@.subrange(0, v@.len() as int) =~= v@);
    }
    r
}

// ---------------------------------------------------------------------------
// Trimming
// ---------------------------------------------------------------------------

/// First index at or after `i` holding a non-space character, or the length.
pub open spec fn trim_start_idx(s: Seq<char>, i: int) -> int
    decreases s.len() - i,
{
    if i < 0 || i >= s.len() {
        s.len() as int
    } else if is_space_char(s[i]) {
        trim_start_idx(s, i + 1)
    } else {
        i
    }
}

/// End of the last non-space character at or before position `i`, or zero.
pub open spec fn trim_end_idx(s: Seq<char>, i: int) -> int
    decreases i,
{
    if i <= 0 || i > s.len() {
        0
    } else if is_space_char(s[i - 1]) {
        trim_end_idx(s, i - 1)
    } else {
        i
    }
}

/// The input without leading and trailing whitespace.
pub open spec fn trim(s: Seq<char>) -> Seq<char> {
    let a = trim_start_idx(s, 0);
    let b = trim_end_idx(s, s.len() as int);
    if a <= b {
        s.subrange(a, b)
    } else {
        Seq::empty()
    }
}

proof fn lemma_trim_start_bounds(s: Seq<char>, i: int)
    requires
        0 <= i <= s.len(),
    ensures
        i <= trim_start_idx(s, i) <= s.len(),
    decreases s.len() - i,
{
    if i < s.len() && is_space_char(s[i]) {
        lemma_trim_start_bounds(s, i + 1);
    }
}

proof fn lemma_trim_end_bounds(s: Seq<char>, i: int)
    requires
        0 <= i <= s.len(),
    ensures
        0 <= trim_end_idx(s, i) <= i,
    decreases i,
{
    if 0 < i && is_space_char(s[i - 1]) {
        lemma_trim_end_bounds(s, i - 1);
    }
}

pub fn trim_exec(v: &Vec<char>) -> (r: Vec<char>)
    ensures
        r@ == trim(v@),
{
    let mut a: usize = 0;
    while a < v.len() && is_space(v[a])
        invariant
            a <= v.len(),
            trim_start_idx(v@, 0) == trim_start_idx(v@, a as int),
        decreases v.len() - a,
    {
        a += 1;
    }
    assert(trim_start_idx(v@, 0) == a as int);
    let mut b: usize = v.len();
    while b > 0 && is_space(v[b - 1])
        invariant
            b <= v.len(),
            trim_end_idx(v@, v@.len() as int) == trim_end_idx(v@, b as int),
        decreases b,
    {
        b -= 1;
    }
    assert(trim_end_idx(v@, v@.len() as int) == b as int);
    if a <= b {
        subvec(v, a, b)
    } else {
        let r: Vec<char> = Vec::new();
        proof {
            assert(r@ =~= trim(v@));
        }
        r
    }
}

// ---------------------------------------------------------------------------
// Splitting a text into lines
// ---------------------------------------------------------------------------

/// The parts of a text separated by newline characters.  A text with n
/// newlines has n + 1 parts; the parts keep no separator.
pub open spec fn split_lines(s: Seq<char>) -> Seq<Seq<char>>
    decreases s.len(),
{
    if s.len() == 0 {
        seq![Seq::<char>::empty()]
    } else if s[0] == '\n' {
        seq![Seq::<char>::empty()] + split_lines(s.skip(1))
    } else {
        let rest = split_lines(s.skip(1));
        seq![seq![s[0]] + rest[0]] + rest.skip(1)
    }
}

pub proof fn lemma_split_lines_len(s: Seq<char>)
    ensures
        split_lines(s).len() >= 1,
    decreases s.len(),
{
    if s.len() > 0 {
        lemma_split_lines_len(s.skip(1));
    }
}

/// Prepends pending characters onto the first part of a split.
spec fn glue(cur: Seq<char>, parts: Seq<Seq<char>>) -> Seq<Seq<char>> {
    seq![cur + parts[0]] + parts.skip(1)
}

/// Views of a vector of character vectors.
pub open spec fn line_views(s: Seq<Vec<char>>) -> Seq<Seq<char>> {
    s.map_values(|v: Vec<char>| v@)
}

/// Views of a vector of strings.
pub open spec fn str_views(s: Seq<String>) -> Seq<Seq<char>> {
    s.map_values(|x: String| x@)
}

pub fn split_lines_exec(v: &Vec<char>) -> (r: Vec<Vec<char>>)
    ensures
        line_views(r@) == split_lines(v@),
{
    let mut out: Vec<Vec<char>> = Vec::new();
    let mut cur: Vec<char> = Vec::new();
    let mut i: usize = 0;
    proof {
        assert(v@.skip(0) =~= v@);
        lemma_split_lines_len(v@);
        assert(line_views(out@) =~= Seq::<Seq<char>>::empty());
        assert(glue(cur@, split_lines(v@)) =~= split_lines(v@)) by {
            assert(cur@ + split_lines(v@)[0] =~= split_lines(v@)[0]);
        };
        assert(line_views(out@) + glue(cur@, split_lines(v@)) =~= split_lines(v@));
    }
    while i < v.len()
        invariant
            i <= v.len(),
            split_lines(v@) == line_views(out@) + glue(cur@, split_lines(v@.skip(i as int))),
        decreases v.len() - i,
    {
        let c = v[i];
        proof {
            assert(v@.skip(i as int).len() > 0);
            assert(v@.skip(i as int)[0] == v@[i as int]);
            assert(v@.skip(i as int).skip(1) =~= v@.skip(i as int + 1));
            lemma_split_lines_len(v@.skip(i as int + 1));
        }
        if c == '\n' {
            proof {
                let rest = split_lines(v@.skip(i as int + 1));
                assert(glue(cur@, split_lines(v@.skip(i as int))) =~= seq![cur@] + glue(
                    Seq::<char>::empty(),
                    rest,
                )) by {
                    assert(split_lines(v@.skip(i as int)) == seq![Seq::<char>::empty()] + rest);
                    assert((seq![Seq::<char>::empty()] + rest)[0] =~= Seq::<char>::empty());
                    assert((seq![Seq::<char>::empty()] + rest).skip(1) =~= rest);
                    assert(cur@ + Seq::<char>::empty() =~= cur@);
                    assert(rest[0] =~= Seq::<char>::empty() + rest[0]);
                };
            }
            out.push(cur);
            cur = Vec::new();
            proof {
                assert(line_views(out@) =~= line_views(out@.drop_last()) + seq![
                    out@.last()@,
                ]);
                assert(line_views(out@.drop_last()) + seq![out@.last()@] + glue(
                    cur@,
                    split_lines(v@.skip(i as int + 1)),
                ) =~= line_views(out@.drop_last()) + (seq![out@.last()@] + glue(
                    cur@,
                    split_lines(v@.skip(i as int + 1)),
                )));
            }
        } else {
            proof {
                let rest = split_lines(v@.skip(i as int + 1));
                assert(split_lines(v@.skip(i as int)) == seq![seq![v@[i as int]] + rest[0]]
                    + rest.skip(1));
                assert(glue(cur@, split_lines(v@.skip(i as int))) =~= glue(
                    cur@.push(v@[i as int]),
                    rest,
                )) by {
                    assert((seq![seq![v@[i as int]] + rest[0]] + rest.skip(1))[0] == seq![
                        v@[i as int],
                    ] + rest[0]);
                    assert((seq![seq![v@[i as int]] + rest[0]] + rest.skip(1)).skip(1) =~= rest.skip(
                        1,
                    ));
                    assert(cur@ + (seq![v@[i as int]] + rest[0]) =~= cur@.push(v@[i as int])
                        + rest[0]);
                };
            }
            cur.push(c);
        }
        i += 1;
    }
    proof {
        assert(v@.skip(v@.len() as int) =~= Seq::<char>::empty());
        assert(split_lines(v@.skip(i as int)) == seq![Seq::<char>::empty()]);
        assert(glue(cur@, split_lines(v@.skip(i as int))) =~= seq![cur@]) by {
            assert(seq![Seq::<char>::empty()][0] =~= Seq::<char>::empty());
            assert(cur@ + Seq::<char>::empty() =~= cur@);
            assert(seq![Seq::<char>::empty()].skip(1) =~= Seq::<Seq<char>>::empty());
        };
    }
    out.push(cur);
    proof {
        assert(line_views(out@) =~= line_views(out@.drop_last()) + seq![out@.last()@]);
    }
    out
}

// ---------------------------------------------------------------------------
// Cleaning: comment stripping, trimming, dropping empty lines
// ---------------------------------------------------------------------------

/// A raw line after comment stripping and trimming.
pub open spec fn clean_line(s: Seq<char>) -> Seq<char> {
    trim(strip_comment(s))
}

/// The cleaned, non-empty lines among the raw parts.
pub open spec fn clean_all(parts: Seq<Seq<char>>) -> Seq<Seq<char>>
    decreases parts.len(),
{
    if parts.len() == 0 {
        Seq::empty()
    } else {
        let c = clean_line(parts[0]);
        if c.len() == 0 {
            clean_all(parts.skip(1))
        } else {
            seq![c] + clean_all(parts.skip(1))
        }
    }
}

/// The significant lines of a source text: split on newlines, comments
/// stripped, whitespace trimmed, blank lines dropped.
pub open spec fn clean_lines(text: Seq<char>) -> Seq<Seq<char>> {
    clean_all(split_lines(text))
}

pub fn clean_lines_exec(text: &Vec<char>) -> (r: Vec<Vec<char>>)
    ensures
        line_views(r@) == clean_lines(text@),
{
    let raw = split_lines_exec(text);
    let mut out: Vec<Vec<char>> = Vec::new();
    let mut i: usize = 0;
    proof {
        assert(line_views(raw@).skip(0) =~= line_views(raw@));
        assert(line_views(out@) =~= Seq::<Seq<char>>::empty());
        assert(line_views(out@) + clean_all(line_views(raw@)) =~= clean_all(line_views(raw@)));
    }
    while i < raw.len()
        invariant
            i <= raw.len(),
            line_views(raw@) == split_lines(text@),
            clean_all(split_lines(text@)) == line_views(out@) + clean_all(
                line_views(raw@).skip(i as int),
            ),
        decreases raw.len() - i,
    {
        let stripped = strip_comment_exec(&raw[i]);
        let trimmed = trim_exec(&stripped);
        proof {
            assert(line_views(raw@).skip(i as int).len() > 0);
            assert(line_views(raw@).skip(i as int)[0] == raw@[i as int]@);
            assert(line_views(raw@).skip(i as int).skip(1) =~= line_views(raw@).skip(
                i as int + 1,
            ));
            assert(trimmed@ == clean_line(raw@[i as int]@));
        }
        if trimmed.len() > 0 {
            out.push(trimmed);
            proof {
                assert(line_views(out@) =~= line_views(out@.drop_last()) + seq![out@.last()@]);
                assert(line_views(out@.drop_last()) + seq![out@.last()@] + clean_all(
                    line_views(raw@).skip(i as int + 1),
                ) =~= line_views(out@.drop_last()) + (seq![out@.last()@] + clean_all(
                    line_views(raw@).skip(i as int + 1),
                )));
            }
        }
        i += 1;
    }
    proof {
        assert(line_views(raw@).skip(i as int) =~= Seq::<Seq<char>>::empty());
        assert(clean_all(line_views(raw@).skip(i as int)) =~= Seq::<Seq<char>>::empty());
    }
    out
}

// ---------------------------------------------------------------------------
// Whitespace tokenisation
// ---------------------------------------------------------------------------

/// The maximal runs of non-space characters, in order.
pub open spec fn split_tokens(s: Seq<char>) -> Seq<Seq<char>>
    decreases s.len(),
{
    if s.len() == 0 {
        Seq::empty()
    } else if is_space_char(s[0]) {
        split_tokens(s.skip(1))
    } else {
        let rest = split_tokens(s.skip(1));
        if s.len() >= 2 && !is_space_char(s[1]) {
            seq![seq![s[0]] + rest[0]] + rest.skip(1)
        } else {
            seq![seq![s[0]]] + rest
        }
    }
}

/// A maximal non-space run `[i, k)` is the first token of the suffix at `i`.
proof fn lemma_token_run(s: Seq<char>, i: int, k: int)
    requires
        0 <= i < k <= s.len(),
        forall|j: int| i <= j < k ==> !is_space_char(#[trigger] s[j]),
        k == s.len() || is_space_char(s[k]),
    ensures
        split_tokens(s.skip(i)) == seq![s.subrange(i, k)] + split_tokens(s.skip(k)),
    decreases k - i,
{
    assert(s.skip(i)[0] == s[i]);
    assert(s.skip(i).skip(1) =~= s.skip(i + 1));
    if i + 1 == k {
        if k == s.len() {
            assert(s.skip(i).len() == 1);
            assert(split_tokens(s.skip(i)) == seq![seq![s[i]]] + split_tokens(s.skip(k)));
        } else {
            assert(s.skip(i)[1] == s[k]);
            assert(is_space_char(s.skip(i)[1]));
            assert(split_tokens(s.skip(i)) == seq![seq![s[i]]] + split_tokens(s.skip(i + 1)));
            assert(s.skip(i + 1)[0] == s[k]);
            assert(split_tokens(s.skip(i + 1)) == split_tokens(s.skip(i + 1).skip(1)));
            assert(s.skip(i + 1).skip(1) =~= s.skip(k + 1));
            assert(split_tokens(s.skip(k)) == split_tokens(s.skip(k).skip(1)));
            assert(s.skip(k).skip(1) =~= s.skip(k + 1));
        }
        assert(s.subrange(i, k) =~= seq![s[i]]);
    } else {
        lemma_token_run(s, i + 1, k);
        assert(s.skip(i)[1] == s[i + 1]);
        assert(!is_space_char(s.skip(i)[1]));
        let rest = split_tokens(s.skip(i + 1));
        assert(split_tokens(s.skip(i)) == seq![seq![s[i]] + rest[0]] + rest.skip(1));
        assert(rest == seq![s.subrange(i + 1, k)] + split_tokens(s.skip(k)));
        assert(rest[0] == s.subrange(i + 1, k));
        assert(seq![s[i]] + s.subrange(i + 1, k) =~= s.subrange(i, k));
        assert(rest.skip(1) =~= split_tokens(s.skip(k)));
        assert(seq![seq![s[i]] + rest[0]] + rest.skip(1) =~= seq![s.subrange(i, k)]
            + split_tokens(s.skip(k)));
    }
}

pub fn split_tokens_exec(v: &Vec<char>) -> (r: Vec<Vec<char>>)
    ensures
        line_views(r@) == split_tokens(v@),
{
    let mut out: Vec<Vec<char>> = Vec::new();
    let mut i: usize = 0;
    proof {
        assert(v@.skip(0) =~= v@);
        assert(line_views(out@) =~= Seq::<Seq<char>>::empty());
        assert(line_views(out@) + split_tokens(v@) =~= split_tokens(v@));
    }
    while i < v.len()
        invariant
            i <= v.len(),
            split_tokens(v@) == line_views(out@) + split_tokens(v@.skip(i as int)),
        decreases v.len() - i,
    {
        if is_space(v[i]) {
            proof {
                assert(v@.skip(i as int)[0] == v@[i as int]);
                assert(v@.skip(i as int).skip(1) =~= v@.skip(i as int + 1));
            }
            i += 1;
        } else {
            let start = i;
            let mut k: usize = i;
            while k < v.len() && !is_space(v[k])
                invariant
                    start <= k <= v.len(),
                    forall|j: int| start <= j < k ==> !is_space_char(#[trigger] v@[j]),
                decreases v.len() - k,
            {
                k += 1;
            }
            let tok = subvec(v, start, k);
            proof {
                lemma_token_run(v@, start as int, k as int);
            }
            out.push(tok);
            proof {
                assert(line_views(out@) =~= line_views(out@.drop_last()) + seq![out@.last()@]);
                assert(line_views(out@.drop_last()) + seq![out@.last()@] + split_tokens(
                    v@.skip(k as int),
                ) =~= line_views(out@.drop_last()) + (seq![out@.last()@] + split_tokens(
                    v@.skip(k as int),
                )));
            }
            i = k;
        }
    }
    proof {
        assert(v@.skip(i as int) =~= Seq::<char>::empty());
        assert(split_tokens(v@.skip(i as int)) =~= Seq::<Seq<char>>::empty());
    }
    out
}

} // verus!
