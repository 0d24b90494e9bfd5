//! The mathematical model of the scanner.
//!
//! Scanning is specified here as a pure function over a sequence of
//! characters: [`spec_lex`] consumes the whole text one lexeme at a time
//! ([`spec_step`]) and yields the emitted tokens, the final line count and
//! the error, if any.  The executable scanner in [`crate::lexer`] is proved
//! to agree with this model exactly.

use vstd::prelude::*;

use crate::builtins::Builtin;
use crate::text::char_is_numeric;
use crate::token::LexError;

verus! {

/// A token as the model sees it: payloads are mathematical values
/// (character sequences and unbounded integers).
pub enum SpecTok {
    LParen,
    RParen,
    LBracket,
    RBracket,
    Times,
    Plus,
    Minus,
    Div,
    Modulo,
    Defun,
    VecKw,
    Tup,
    While,
    If,
    Else,
    Let,
    Ident(Seq<char>),
    Str(Seq<char>),
    Integer(int),
    Real(Seq<char>),
    Builtin(Builtin),
}

/// The whole observable state of a scan: the cursor, the 1-based line
/// count, the tokens emitted so far, and the error that stopped the scan,
/// if one did.
pub struct LexState {
    pub i: nat,
    pub line: nat,
    pub toks: Seq<SpecTok>,
    pub err: Option<LexError>,
}

/// The state a freshly constructed scanner is in.
pub open spec fn initial_state() -> LexState {
    LexState { i: 0, line: 1, toks: Seq::empty(), err: None }
}

/// The characters that end a numeric lexeme.  Note the set is narrower
/// than [`is_ident_stop`]: an opening parenthesis or a quote runs into the
/// numeric lexeme (and then fails to parse); this boundary is kept as is.
pub open spec fn is_num_stop(c: char) -> bool {
    c == ')' || c == '\n' || c == ' '
}

/// The characters that end an identifier lexeme.
pub open spec fn is_ident_stop(c: char) -> bool {
    c == '(' || c == ')' || c == '\n' || c == ' ' || c == '"'
}

/// The first position at or after `i` holding a double quote, or the end
/// of the text if there is none.
pub open spec fn quote_end(s: Seq<char>, i: nat) -> nat
    decreases s.len() - i
        when i <= s.len()
{
    if i >= s.len() {
        i
    } else if s[i as int] == '"' {
        i
    } else {
        quote_end(s, i + 1)
    }
}

/// The first position at or after `i` holding a numeric-lexeme stop
/// character, or the end of the text if there is none.
pub open spec fn num_end(s: Seq<char>, i: nat) -> nat
    decreases s.len() - i
        when i <= s.len()
{
    if i >= s.len() {
        i
    } else if is_num_stop(s[i as int]) {
        i
    } else {
        num_end(s, i + 1)
    }
}

/// The first position at or after `i` holding an identifier stop
/// character, or the end of the text if there is none.
pub open spec fn ident_end(s: Seq<char>, i: nat) -> nat
    decreases s.len() - i
        when i <= s.len()
{
    if i >= s.len() {
        i
    } else if is_ident_stop(s[i as int]) {
        i
    } else {
        ident_end(s, i + 1)
    }
}

/// How many newline characters `s` holds in the half-open range `[i, j)`.
pub open spec fn count_newlines(s: Seq<char>, i: nat, j: nat) -> nat
    decreases j - i
        when i <= j
{
    if i >= j {
        0
    } else if s[i as int] == '\n' {
        1 + count_newlines(s, i + 1, j)
    } else {
        count_newlines(s, i + 1, j)
    }
}

pub proof fn lemma_quote_end_bounds(s: Seq<char>, i: nat)
    requires
        i <= s.len(),
    ensures
        i <= quote_end(s, i) <= s.len(),
        quote_end(s, i) < s.len() ==> s[quote_end(s, i) as int] == '"',
    decreases s.len() - i,
{
    if i < s.len() && s[i as int] != '"' {
        lemma_quote_end_bounds(s, i + 1);
    }
}

pub proof fn lemma_num_end_bounds(s: Seq<char>, i: nat)
    requires
        i <= s.len(),
    ensures
        i <= num_end(s, i) <= s.len(),
        num_end(s, i) < s.len() ==> is_num_stop(s[num_end(s, i) as int]),
    decreases s.len() - i,
{
    if i < s.len() && !is_num_stop(s[i as int]) {
        lemma_num_end_bounds(s, i + 1);
    }
}

pub proof fn lemma_ident_end_bounds(s: Seq<char>, i: nat)
    requires
        i <= s.len(),
    ensures
        i <= ident_end(s, i) <= s.len(),
        ident_end(s, i) < s.len() ==> is_ident_stop(s[ident_end(s, i) as int]),
    decreases s.len() - i,
{
    if i < s.len() && !is_ident_stop(s[i as int]) {
        lemma_ident_end_bounds(s, i + 1);
    }
}

/// Counting newlines over `[i, j + 1)` adds one exactly when `s[j]` is a
/// newline: the incremental step a scanning loop takes.
pub proof fn lemma_count_newlines_snoc(s: Seq<char>, i: nat, j: nat)
    requires
        i <= j < s.len(),
    ensures
        count_newlines(s, i, j + 1) == count_newlines(s, i, j) + (if s[j as int] == '\n' {
            1nat
        } else {
            0nat
        }),
    decreases j - i,
{
    if i < j {
        lemma_count_newlines_snoc(s, i + 1, j);
    } else {
        assert(count_newlines(s, (j + 1) as nat, (j + 1) as nat) == 0);
    }
}

/// An ASCII decimal digit.
pub open spec fn is_digit_char(c: char) -> bool {
    48 <= c as u32 <= 57
}

/// The numeric value of an ASCII decimal digit.
pub open spec fn digit_val(c: char) -> int {
    c as u32 - 48
}

/// Every character of `w` is an ASCII decimal digit.
pub open spec fn all_digits(w: Seq<char>) -> bool {
    forall|k: int| 0 <= k < w.len() ==> is_digit_char(#[trigger] w[k])
}

/// The value of `w` read as a decimal numeral, most significant digit
/// first.
pub open spec fn digits_value(w: Seq<char>) -> int
    decreases w.len(),
{
    if w.len() == 0 {
        0
    } else {
        10 * digits_value(w.drop_last()) + digit_val(w.last())
    }
}

/// What parsing `w` as a 64-bit signed integer yields: the decimal value
/// when `w` is a nonempty run of ASCII digits whose value fits, and
/// nothing otherwise.  (A numeric lexeme never carries a sign of its own:
/// a preceding minus is a lexeme of its own, retracted later.)
pub open spec fn int_lexeme_value(w: Seq<char>) -> Option<int> {
    if w.len() > 0 && all_digits(w) && digits_value(w) <= i64::MAX {
        Some(digits_value(w))
    } else {
        None
    }
}

/// The first position at or after `i` holding a character that is not an
/// ASCII digit, or the end of `w`.
pub open spec fn digit_run_end(w: Seq<char>, i: nat) -> nat
    decreases w.len() - i
        when i <= w.len()
{
    if i >= w.len() {
        i
    } else if !is_digit_char(w[i as int]) {
        i
    } else {
        digit_run_end(w, i + 1)
    }
}

/// Whether `w[q..]` is a well-formed exponent suffix: `e` or `E`, an
/// optional sign, then at least one digit running to the end.
pub open spec fn is_exp_suffix(w: Seq<char>, q: nat) -> bool
    recommends
        q < w.len(),
{
    &&& (w[q as int] == 'e' || w[q as int] == 'E')
    &&& {
        let r = if q + 1 < w.len() && (w[(q + 1) as int] == '+' || w[(q + 1) as int] == '-') {
            q + 2
        } else {
            q + 1
        };
        &&& r < w.len()
        &&& digit_run_end(w, r as nat) == w.len()
    }
}

/// Whether `w` is a well-formed real-number lexeme: one or more digits,
/// an optional fraction introduced by a dot, and an optional exponent.
/// This is the shape that a standard decimal floating-point parse accepts
/// for a lexeme that begins with a digit.
pub open spec fn is_real_lexeme(w: Seq<char>) -> bool {
    let p = digit_run_end(w, 0);
    &&& p > 0
    &&& {
        let q = if p < w.len() && w[p as int] == '.' {
            digit_run_end(w, p + 1)
        } else {
            p
        };
        q >= w.len() || is_exp_suffix(w, q)
    }
}

/// Classify a finished identifier lexeme: language keywords first, then
/// the builtin-function table, then a plain identifier carrying the text.
pub open spec fn classify_word(w: Seq<char>) -> SpecTok {
    if w == "defun"@ {
        SpecTok::Defun
    } else if w == "vec"@ {
        SpecTok::VecKw
    } else if w == "tup"@ {
        SpecTok::Tup
    } else if w == "if"@ {
        SpecTok::If
    } else if w == "else"@ {
        SpecTok::Else
    } else if w == "while"@ {
        SpecTok::While
    } else if w == "let"@ {
        SpecTok::Let
    } else if w == "put"@ {
        SpecTok::Builtin(Builtin::Put)
    } else if w == "get"@ {
        SpecTok::Builtin(Builtin::Get)
    } else if w == "type"@ {
        SpecTok::Builtin(Builtin::Type)
    } else if w == "len"@ {
        SpecTok::Builtin(Builtin::Len)
    } else if w == "panic"@ {
        SpecTok::Builtin(Builtin::Panic)
    } else if w == "push"@ {
        SpecTok::Builtin(Builtin::Push)
    } else if w == "pop"@ {
        SpecTok::Builtin(Builtin::Pop)
    } else {
        SpecTok::Ident(w)
    }
}

/// Emit one single-character token and move past it.
pub open spec fn push1(st: LexState, t: SpecTok) -> LexState {
    LexState { i: st.i + 1, line: st.line, toks: st.toks.push(t), err: st.err }
}

/// One string lexeme: the opening quote at `st.i` is already consumed;
/// the text runs to the next quote, newlines inside count toward the line
/// number, and a missing closing quote is fatal.
pub open spec fn step_string(s: Seq<char>, st: LexState) -> LexState
    recommends
        st.i < s.len(),
{
    let j = quote_end(s, st.i + 1);
    let line = st.line + count_newlines(s, st.i + 1, j);
    if j >= s.len() {
        LexState { i: j, line, toks: st.toks, err: Some(LexError::UnterminatedString) }
    } else {
        LexState {
            i: j + 1,
            line,
            toks: st.toks.push(SpecTok::Str(s.subrange((st.i + 1) as int, j as int))),
            err: st.err,
        }
    }
}

/// One numeric lexeme, beginning at `st.i`.  A trailing dot is fatal; a
/// plain digit run that fits becomes an integer token; any other
/// well-formed real shape keeps its text; everything else is fatal.  When
/// the character just before the lexeme is a minus and the last token
/// emitted is the speculative Minus, that token is retracted and the
/// value negated.
pub open spec fn step_number(s: Seq<char>, st: LexState) -> LexState
    recommends
        st.i < s.len(),
{
    let j = num_end(s, st.i + 1);
    let w = s.subrange(st.i as int, j as int);
    if w.last() == '.' {
        LexState { i: j, line: st.line, toks: st.toks, err: Some(LexError::MalformedNumber) }
    } else {
        let neg = st.i > 0 && s[st.i - 1] == '-' && st.toks.len() > 0 && st.toks.last()
            == SpecTok::Minus;
        let base = if neg {
            st.toks.drop_last()
        } else {
            st.toks
        };
        match int_lexeme_value(w) {
            Some(v) => LexState {
                i: j,
                line: st.line,
                toks: base.push(SpecTok::Integer(if neg { -v } else { v })),
                err: st.err,
            },
            None => if is_real_lexeme(w) {
                let text = if neg { seq!['-'] + w } else { w };
                LexState { i: j, line: st.line, toks: base.push(SpecTok::Real(text)), err: st.err }
            } else {
                LexState {
                    i: j,
                    line: st.line,
                    toks: st.toks,
                    err: Some(LexError::MalformedNumber),
                }
            },
        }
    }
}

/// One identifier lexeme, beginning at `st.i`.
pub open spec fn step_ident(s: Seq<char>, st: LexState) -> LexState
    recommends
        st.i < s.len(),
{
    let j = ident_end(s, st.i + 1);
    LexState {
        i: j,
        line: st.line,
        toks: st.toks.push(classify_word(s.subrange(st.i as int, j as int))),
        err: st.err,
    }
}

/// One scanning step: the character at the cursor picks the branch.
pub open spec fn spec_step(s: Seq<char>, st: LexState) -> LexState
    recommends
        st.i < s.len(),
        st.err is None,
{
    let c = s[st.i as int];
    if c == ' ' {
        LexState { i: st.i + 1, line: st.line, toks: st.toks, err: st.err }
    } else if c == '\n' {
        LexState { i: st.i + 1, line: st.line + 1, toks: st.toks, err: st.err }
    } else if c == '>' {
        push1(st, SpecTok::RBracket)
    } else if c == '<' {
        push1(st, SpecTok::LBracket)
    } else if c == '(' {
        push1(st, SpecTok::LParen)
    } else if c == ')' {
        push1(st, SpecTok::RParen)
    } else if c == '"' {
        step_string(s, st)
    } else if c == '-' {
        push1(st, SpecTok::Minus)
    } else if c == '+' {
        push1(st, SpecTok::Plus)
    } else if c == '*' {
        push1(st, SpecTok::Times)
    } else if c == '/' {
        push1(st, SpecTok::Div)
    } else if c == '%' {
        push1(st, SpecTok::Modulo)
    } else if char_is_numeric(c) {
        step_number(s, st)
    } else {
        step_ident(s, st)
    }
}

/// Every step moves the cursor strictly forward and never past the end of
/// the text: the scanner's progress invariant.
pub proof fn lemma_step_in_bounds(s: Seq<char>, st: LexState)
    requires
        st.i < s.len(),
    ensures
        st.i < spec_step(s, st).i <= s.len(),
{
    lemma_quote_end_bounds(s, st.i + 1);
    lemma_num_end_bounds(s, st.i + 1);
    lemma_ident_end_bounds(s, st.i + 1);
}

/// Run the scan to completion from an arbitrary state: step until the
/// cursor reaches the end of the text or an error stops the scan.
pub open spec fn spec_lex_from(s: Seq<char>, st: LexState) -> LexState
    decreases s.len() - st.i
        when st.i <= s.len()
        via spec_lex_from_decreases
{
    if st.err is Some || st.i >= s.len() {
        st
    } else {
        spec_lex_from(s, spec_step(s, st))
    }
}

#[via_fn]
proof fn spec_lex_from_decreases(s: Seq<char>, st: LexState) {
    if st.err is None && st.i < s.len() {
        lemma_step_in_bounds(s, st);
    }
}

/// The complete scan of a source text, from the state a fresh scanner
/// starts in.
pub open spec fn spec_lex(s: Seq<char>) -> LexState {
    spec_lex_from(s, initial_state())
}

} // verus!
