use vstd::prelude::*;

use crate::op::{OpKind, Word};
use crate::text::{alphabetic, digit_value, digits_value, is_alphabetic, is_digit, to_uppercase, uppercase};

verus! {

/// Why assembly source was refused. Each error holds the span of characters,
/// start and end, that it is about.
#[derive(Debug, Clone, Copy, PartialEq, Eq, Structural)]
pub enum AsmError {
    /// A name in instruction position that is no mnemonic.
    UnknownMnemonic(usize, usize),
    /// A `PUSH` operand that is not a word in decimal.
    MalformedNumber(usize, usize),
    /// A second definition of a label.
    DuplicateLabel(usize, usize),
    /// A jump to a label that is never defined.
    UnrecognizedLabel(usize, usize),
    /// An instruction would end past the last offset a word can hold.
    ProgramTooLarge,
}

/// The operand written after a mnemonic.
#[derive(Debug, Clone, Copy, PartialEq, Eq, Structural)]
pub enum Operand {
    Absent,
    Number(Word),
    /// The span of a label name.
    Target(usize, usize),
}

/// One element of assembly source: a label definition, by the span of its
/// name, or an instruction.
#[derive(Debug, Clone, Copy, PartialEq, Eq, Structural)]
pub enum Token {
    Label(usize, usize),
    Instr(OpKind, Operand),
}

pub open spec fn spec_is_space(c: char) -> bool {
    c == ' ' || c == '\t'
}

/// Characters that only separate: spaces, tabs and line breaks.
pub open spec fn is_blank(c: char) -> bool {
    spec_is_space(c) || c == '\n'
}

pub open spec fn is_number_char(c: char) -> bool {
    is_digit(c) || c == '.'
}

/// The end of the run of alphabetic characters that starts at `i`.
pub open spec fn ident_end(s: Seq<char>, i: int) -> int
    decreases s.len() - i,
{
    if 0 <= i < s.len() && alphabetic(s[i]) {
        ident_end(s, i + 1)
    } else {
        i
    }
}

/// The end of the run of digits and points that starts at `i`.
pub open spec fn number_end(s: Seq<char>, i: int) -> int
    decreases s.len() - i,
{
    if 0 <= i < s.len() && is_number_char(s[i]) {
        number_end(s, i + 1)
    } else {
        i
    }
}

/// The end of the run of spaces and tabs that starts at `i`.
pub open spec fn space_end(s: Seq<char>, i: int) -> int
    decreases s.len() - i,
{
    if 0 <= i < s.len() && spec_is_space(s[i]) {
        space_end(s, i + 1)
    } else {
        i
    }
}

/// The offset of the first line break at or after `i`, or the end of `s`.
pub open spec fn line_end(s: Seq<char>, i: int) -> int
    decreases s.len() - i,
{
    if 0 <= i < s.len() && s[i] != '\n' {
        line_end(s, i + 1)
    } else {
        i
    }
}

pub proof fn lemma_ends(s: Seq<char>, i: int)
    requires
        0 <= i <= s.len(),
    ensures
        i <= ident_end(s, i) <= s.len(),
        i <= number_end(s, i) <= s.len(),
        i <= space_end(s, i) <= s.len(),
        i <= line_end(s, i) <= s.len(),
    decreases s.len() - i,
{
    if i < s.len() {
        lemma_ends(s, i + 1);
    }
}

/// The word a decimal literal denotes: one or more digits, at most `i16::MAX`.
pub open spec fn word_literal(t: Seq<char>) -> Option<Word> {
    if t.len() > 0 && (forall|k: int| 0 <= k < t.len() ==> is_digit(#[trigger] t[k]))
        && digits_value(t) <= i16::MAX {
        Some(digits_value(t) as Word)
    } else {
        None
    }
}

/// The instruction whose mnemonic starts at `i`, with the offset after it.
pub open spec fn scan_instr(s: Seq<char>, i: int) -> Result<Option<(Token, int)>, AsmError> {
    let e = ident_end(s, i);
    if e == i {
        Err(AsmError::UnknownMnemonic(i as usize, e as usize))
    } else {
        match OpKind::parse_mnemonic(uppercase(s.subrange(i, e))) {
            None => Err(AsmError::UnknownMnemonic(i as usize, e as usize)),
            Some(k) => {
                let j = space_end(s, e);
                if k is Goto || k is Goif {
                    let t = ident_end(s, j);
                    Ok(Some((Token::Instr(k, Operand::Target(j as usize, t as usize)), t)))
                } else if k is Push {
                    let t = number_end(s, j);
                    match word_literal(s.subrange(j, t)) {
                        None => Err(AsmError::MalformedNumber(j as usize, t as usize)),
                        Some(w) => Ok(Some((Token::Instr(k, Operand::Number(w)), t))),
                    }
                } else {
                    Ok(Some((Token::Instr(k, Operand::Absent), j)))
                }
            },
        }
    }
}

/// The next token at or after `i`, with the offset after it; `None` at the end
/// of the source. Blanks and comments, from `|` to the end of the line, are
/// skipped.
pub open spec fn scan(s: Seq<char>, i: int) -> Result<Option<(Token, int)>, AsmError>
    decreases s.len() - i,
{
    if i < 0 || i >= s.len() {
        Ok(None)
    } else if is_blank(s[i]) {
        scan(s, i + 1)
    } else if s[i] == '|' {
        proof {
            lemma_ends(s, i + 1);
        }
        scan(s, line_end(s, i + 1))
    } else if s[i] == '@' {
        let e = ident_end(s, i + 1);
        Ok(Some((Token::Label((i + 1) as usize, e as usize), e)))
    } else {
        scan_instr(s, i)
    }
}

/// The spans a token holds lie within a source of `len` characters, and an
/// instruction has the operand its kind takes: a number for `Push`, a label
/// for `Goto` and `Goif`, none for the rest.
pub open spec fn spans_within(tok: Token, len: int) -> bool {
    match tok {
        Token::Label(a, b) => a <= b <= len,
        Token::Instr(k, Operand::Target(a, b)) => a <= b <= len && (k is Goto || k is Goif),
        Token::Instr(k, Operand::Number(_)) => k is Push,
        Token::Instr(k, Operand::Absent) => !k.spec_has_operand(),
    }
}

/// Where a token ends, it lies past the offset the scan began at, and its
/// spans lie within the source.
pub proof fn lemma_scan_advances(s: Seq<char>, i: int)
    requires
        0 <= i <= s.len(),
        s.len() <= usize::MAX,
    ensures
        scan(s, i) matches Ok(Some((tok, next))) ==> i < next <= s.len() && spans_within(tok, s.len() as int),
    decreases s.len() - i,
{
    if i < s.len() {
        lemma_ends(s, i + 1);
        if is_blank(s[i]) {
            lemma_scan_advances(s, i + 1);
        } else if s[i] == '|' {
            lemma_scan_advances(s, line_end(s, i + 1));
        } else if s[i] != '@' {
            let e = ident_end(s, i);
            lemma_ends(s, i);
            lemma_ends(s, e);
            let j = space_end(s, e);
            lemma_ends(s, j);
        }
    }
}

pub fn is_space(c: char) -> (r: bool)
    ensures
        r == spec_is_space(c),
{
    c == ' ' || c == '\t'
}

fn ident_end_at(s: &Vec<char>, i: usize) -> (r: usize)
    requires
        i <= s.len(),
    ensures
        r == ident_end(s@, i as int),
{
    let mut j = i;
    while j < s.len() && is_alphabetic(s[j])
        invariant
            i <= j <= s.len(),
            ident_end(s@, j as int) == ident_end(s@, i as int),
        decreases s.len() - j,
    {
        j = j + 1;
    }
    j
}

fn number_end_at(s: &Vec<char>, i: usize) -> (r: usize)
    requires
        i <= s.len(),
    ensures
        r == number_end(s@, i as int),
{
    let mut j = i;
    while j < s.len() && (('0' <= s[j] && s[j] <= '9') || s[j] == '.')
        invariant
            i <= j <= s.len(),
            number_end(s@, j as int) == number_end(s@, i as int),
        decreases s.len() - j,
    {
        j = j + 1;
    }
    j
}

fn space_end_at(s: &Vec<char>, i: usize) -> (r: usize)
    requires
        i <= s.len(),
    ensures
        r == space_end(s@, i as int),
{
    let mut j = i;
    while j < s.len() && is_space(s[j])
        invariant
            i <= j <= s.len(),
            space_end(s@, j as int) == space_end(s@, i as int),
        decreases s.len() - j,
    {
        j = j + 1;
    }
    j
}

fn line_end_at(s: &Vec<char>, i: usize) -> (r: usize)
    requires
        i <= s.len(),
    ensures
        r == line_end(s@, i as int),
{
    let mut j = i;
    while j < s.len() && s[j] != '\n'
        invariant
            i <= j <= s.len(),
            line_end(s@, j as int) == line_end(s@, i as int),
        decreases s.len() - j,
    {
        j = j + 1;
    }
    j
}

/// A value of all-digit text is at least that of each of its prefixes.
proof fn lemma_digits_value_grows(t: Seq<char>, k: int)
    requires
        0 <= k <= t.len(),
        forall|m: int| 0 <= m < t.len() ==> is_digit(#[trigger] t[m]),
    ensures
        digits_value(t.take(k)) <= digits_value(t),
        digits_value(t.take(k)) >= 0,
    decreases t.len(),
{
    if k < t.len() {
        let u = t.drop_last();
        assert forall|m: int| 0 <= m < u.len() implies is_digit(#[trigger] u[m]) by {
            assert(u[m] == t[m]);
        }
        lemma_digits_value_grows(u, k);
        assert(u.take(k) =~= t.take(k));
        lemma_digits_value_grows(u, u.len() as int);
        assert(u.take(u.len() as int) =~= u);
    } else {
        assert(t.take(k) =~= t);
        if t.len() > 0 {
            let u = t.drop_last();
            assert forall|m: int| 0 <= m < u.len() implies is_digit(#[trigger] u[m]) by {
                assert(u[m] == t[m]);
            }
            lemma_digits_value_grows(u, u.len() as int);
            assert(u.take(u.len() as int) =~= u);
        }
    }
}

/// Reads the decimal literal `s[a..b]` as a word.
fn parse_word(s: &Vec<char>, a: usize, b: usize) -> (r: Option<Word>)
    requires
        a <= b <= s.len(),
    ensures
        r == word_literal(s@.subrange(a as int, b as int)),
{
    let ghost t = s@.subrange(a as int, b as int);
    if a == b {
        return None;
    }
    let mut value: u32 = 0;
    let mut j = a;
    while j < b
        invariant
            a <= j <= b <= s.len(),
            t == s@.subrange(a as int, b as int),
            forall|m: int| 0 <= m < j - a ==> is_digit(#[trigger] t[m]),
            value as int == digits_value(t.take(j - a)),
            value <= i16::MAX,
        decreases b - j,
    {
        let c = s[j];
        if !('0' <= c && c <= '9') {
            assert(!is_digit(t[j - a]));
            return None;
        }
        let ghost before = t.take(j - a);
        assert(t.take(j - a + 1).drop_last() =~= before);
        value = value * 10 + (c as u32 - '0' as u32);
        j = j + 1;
        assert(digit_value(c) == c as u32 - '0' as u32);
        if value > 32767 {
            proof {
                if forall|m: int| 0 <= m < t.len() ==> is_digit(#[trigger] t[m]) {
                    lemma_digits_value_grows(t, j - a);
                }
            }
            return None;
        }
    }
    assert(t.take(b - a) =~= t);
    Some(value as Word)
}

/// Scans the instruction whose mnemonic starts at `i`.
fn scan_instr_at(s: &Vec<char>, i: usize) -> (r: Result<Option<(Token, usize)>, AsmError>)
    requires
        i < s.len(),
    ensures
        match scan_instr(s@, i as int) {
            Ok(Some((t, n))) => r == Ok::<Option<(Token, usize)>, AsmError>(Some((t, n as usize))),
            Ok(None) => r == Ok::<Option<(Token, usize)>, AsmError>(None),
            Err(e) => r == Err::<Option<(Token, usize)>, AsmError>(e),
        },
{
    let e = ident_end_at(s, i);
    proof {
        lemma_ends(s@, i as int);
    }
    if e == i {
        return Err(AsmError::UnknownMnemonic(i, e));
    }
    let name = to_uppercase(s, i, e);
    let kind = match OpKind::from_mnemonic(&name) {
        Some(k) => k,
        None => return Err(AsmError::UnknownMnemonic(i, e)),
    };
    let j = space_end_at(s, e);
    proof {
        lemma_ends(s@, e as int);
        lemma_ends(s@, j as int);
    }
    if kind == OpKind::Goto || kind == OpKind::Goif {
        let t = ident_end_at(s, j);
        Ok(Some((Token::Instr(kind, Operand::Target(j, t)), t)))
    } else if kind == OpKind::Push {
        let t = number_end_at(s, j);
        match parse_word(s, j, t) {
            None => Err(AsmError::MalformedNumber(j, t)),
            Some(w) => Ok(Some((Token::Instr(kind, Operand::Number(w)), t))),
        }
    } else {
        Ok(Some((Token::Instr(kind, Operand::Absent), j)))
    }
}

/// Scans the next token at or after `i`.
pub fn next_token(s: &Vec<char>, i: usize) -> (r: Result<Option<(Token, usize)>, AsmError>)
    requires
        i <= s.len(),
    ensures
        match scan(s@, i as int) {
            Ok(Some((t, n))) => r == Ok::<Option<(Token, usize)>, AsmError>(Some((t, n as usize)))
                && i < n <= s.len() && spans_within(t, s.len() as int),
            Ok(None) => r == Ok::<Option<(Token, usize)>, AsmError>(None),
            Err(e) => r == Err::<Option<(Token, usize)>, AsmError>(e),
        },
{
    proof {
        lemma_scan_advances(s@, i as int);
    }
    let mut j = i;
    while j < s.len() && (is_blank_char(s[j]) || s[j] == '|')
        invariant
            i <= j <= s.len(),
            scan(s@, j as int) == scan(s@, i as int),
        decreases s.len() - j,
    {
        if s[j] == '|' {
            proof {
                lemma_ends(s@, j + 1);
            }
            j = line_end_at(s, j + 1);
        } else {
            j = j + 1;
        }
    }
    if j >= s.len() {
        return Ok(None);
    }
    if s[j] == '@' {
        let e = ident_end_at(s, j + 1);
        return Ok(Some((Token::Label(j + 1, e), e)));
    }
    scan_instr_at(s, j)
}

fn is_blank_char(c: char) -> (r: bool)
    ensures
        r == is_blank(c),
{
    is_space(c) || c == '\n'
}

} // verus!
