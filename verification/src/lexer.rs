//! The scanner itself: a forward-moving cursor over the decoded
//! characters of one source text, producing the token sequence that the
//! model in [`crate::model`] prescribes.

use vstd::prelude::*;
use vstd::string::StrSliceExecFns;
use vstd::string::StringExecFns;

use crate::builtins::Builtin;
use crate::model::LexState;
use crate::model::SpecTok;
use crate::model::classify_word;
use crate::model::count_newlines;
use crate::model::initial_state;
use crate::model::lemma_count_newlines_snoc;
use crate::model::lemma_step_in_bounds;
use crate::model::num_end;
use crate::model::ident_end;
use crate::model::quote_end;
use crate::model::spec_lex;
use crate::model::spec_lex_from;
use crate::model::spec_step;
use crate::model::step_number;
use crate::numerals::check_real_lexeme;
use crate::numerals::dec_digits;
use crate::numerals::lemma_digits_value_nonneg;
use crate::numerals::parse_int_digits;
use crate::numerals::push_decimal;
use crate::text::chars_of;
use crate::text::is_numeric_char;
use crate::text::str_eq;
use crate::token::LType;
use crate::token::LexError;
use crate::token::Token;
use crate::token::lemma_toks_of_last;
use crate::token::lemma_toks_of_push;
use crate::token::toks_of;

verus! {

/// The scanner: one pass over one source text.  A fresh scanner is
/// constructed per text and discarded after the scan.
pub struct Lexer {
    /// The source text being scanned.
    pub input: String,
    /// The characters of `input`, decoded once so that every position is
    /// a character index, not a byte index.
    pub chars: Vec<char>,
    /// The tokens emitted so far, in lexical order.
    pub output: Vec<Token>,
    /// The 1-based line number, incremented on each newline consumed.
    pub line: usize,
    /// Where the lexeme currently being scanned begins.
    pub start: usize,
    /// The cursor: the next character to consume.  Never decreases.
    pub current: usize,
}

impl Lexer {
    /// The scanner's invariant: the decoded characters mirror the text,
    /// the lexeme start never passes the cursor, the cursor never passes
    /// the end, and the line count never exceeds one more than the
    /// number of characters consumed.
    pub open spec fn wf(self) -> bool {
        &&& self.chars@ == self.input@
        &&& self.start <= self.current <= self.chars@.len()
        &&& self.chars@.len() < usize::MAX
        &&& 1 <= self.line
        &&& self.line <= self.current + 1
    }

    /// The scanner's state as the model sees it, keyed at the cursor.
    pub open spec fn st(self) -> LexState {
        LexState {
            i: self.current as nat,
            line: self.line as nat,
            toks: toks_of(self.output@),
            err: None,
        }
    }

    /// The model state keyed at the start of the current lexeme.
    pub open spec fn lexeme_st(self) -> LexState {
        LexState {
            i: self.start as nat,
            line: self.line as nat,
            toks: toks_of(self.output@),
            err: None,
        }
    }

    /// Everything but the token output, cursor and line is fixed for the
    /// scan's duration.
    pub open spec fn same_text(self, other: Lexer) -> bool {
        self.input == other.input && self.chars == other.chars
    }

    /// Build a scanner over a complete source text.
    pub fn new(input: String) -> (r: Lexer)
        requires
            input@.len() < usize::MAX,
        ensures
            r.wf(),
            r.input@ == input@,
            r.start == 0,
            r.st() == initial_state(),
    {
        let chars = chars_of(input.as_str());
        let l = Lexer { input, chars, output: Vec::new(), line: 1, start: 0, current: 0 };
        proof {
            assert(toks_of(l.output@) =~= Seq::<SpecTok>::empty());
        }
        l
    }

    /// What [`Lexer::debug`] writes: the scanner's position state, each
    /// number written in decimal.
    pub open spec fn debug_view(self) -> Seq<char> {
        "line: "@ + dec_digits(self.line as nat) + ", start: "@ + dec_digits(self.start as nat)
            + ", current: "@ + dec_digits(self.current as nat) + ", tokens: "@ + dec_digits(
            self.output@.len() as nat,
        )
    }

    /// A one-line description of the scanner's position state, for
    /// diagnostics.
    pub fn debug(&self) -> (r: String)
        ensures
            r@ == self.debug_view(),
    {
        let mut out = "line: ".to_owned();
        push_decimal(&mut out, self.line);
        out.append(", start: ");
        push_decimal(&mut out, self.start);
        out.append(", current: ");
        push_decimal(&mut out, self.current);
        out.append(", tokens: ");
        push_decimal(&mut out, self.output.len());
        proof {
            assert(out@ =~= self.debug_view());
        }
        out
    }

    /// Whether the cursor has reached the end of the input.
    pub fn is_eof(&self) -> (r: bool)
        requires
            self.wf(),
        ensures
            r == (self.current >= self.input@.len()),
    {
        self.current >= self.chars.len()
    }

    /// The character at the cursor, which must not be at the end.
    pub fn peek(&self) -> (c: char)
        requires
            self.wf(),
            self.current < self.input@.len(),
        ensures
            c == self.input@[self.current as int],
    {
        self.chars[self.current]
    }

    /// Consume and return the character at the cursor.
    pub fn advance(&mut self) -> (c: char)
        requires
            old(self).wf(),
            old(self).current < old(self).input@.len(),
        ensures
            final(self).wf(),
            final(self).current == old(self).current + 1,
            final(self).input == old(self).input,
            final(self).chars == old(self).chars,
            final(self).output == old(self).output,
            final(self).line == old(self).line,
            final(self).start == old(self).start,
            c == old(self).input@[old(self).current as int],
    {
        let c = self.chars[self.current];
        self.current = self.current + 1;
        c
    }

    /// Append one token to the output.
    pub fn add_token(&mut self, ltype: LType)
        ensures
            final(self).output@ == old(self).output@.push(Token(ltype)),
            toks_of(final(self).output@) == toks_of(old(self).output@).push(ltype@),
            final(self).input == old(self).input,
            final(self).chars == old(self).chars,
            final(self).line == old(self).line,
            final(self).start == old(self).start,
            final(self).current == old(self).current,
    {
        proof {
            lemma_toks_of_push(self.output@, Token(ltype));
        }
        self.output.push(Token(ltype));
    }

    /// Scan the rest of a string literal.  The opening quote is already
    /// consumed and the lexeme start moved past it; the text runs to the
    /// next quote, and newlines inside it count toward the line number.
    /// Reaching the end of the input first is fatal.
    pub fn string(&mut self) -> (r: Result<(), LexError>)
        requires
            old(self).wf(),
            old(self).start == old(self).current,
        ensures
            final(self).wf(),
            old(self).same_text(*final(self)),
            ({
                let s = old(self).chars@;
                let j = quote_end(s, old(self).current as nat);
                let nl = count_newlines(s, old(self).current as nat, j);
                if j >= s.len() {
                    &&& r == Err::<(), LexError>(LexError::UnterminatedString)
                    &&& final(self).current == j
                    &&& final(self).line == old(self).line + nl
                    &&& final(self).output == old(self).output
                } else {
                    &&& r == Ok::<(), LexError>(())
                    &&& final(self).current == j + 1
                    &&& final(self).line == old(self).line + nl
                    &&& toks_of(final(self).output@) == toks_of(old(self).output@).push(
                        SpecTok::Str(s.subrange(old(self).current as int, j as int)),
                    )
                }
            }),
    {
        let ghost s = old(self).chars@;
        let ghost c0 = old(self).current as nat;
        let n = self.chars.len();
        while self.current < n && self.chars[self.current] != '"'
            invariant
                self.wf(),
                n == self.chars@.len(),
                s == self.chars@,
                self.chars == old(self).chars,
                self.input == old(self).input,
                self.output == old(self).output,
                self.start == old(self).start,
                c0 == old(self).current as nat,
                old(self).current <= self.current <= n,
                quote_end(s, self.current as nat) == quote_end(s, c0),
                self.line == old(self).line + count_newlines(s, c0, self.current as nat),
            decreases n - self.current,
        {
            proof {
                lemma_count_newlines_snoc(s, c0, self.current as nat);
            }
            if self.chars[self.current] == '\n' {
                self.line = self.line + 1;
            }
            self.current = self.current + 1;
        }
        proof {
            assert(quote_end(s, self.current as nat) == self.current);
        }
        if self.current >= n {
            return Err(LexError::UnterminatedString);
        }
        let text = self.input.as_str().substring_char(self.start, self.current).to_owned();
        self.current = self.current + 1;
        self.add_token(LType::Str(text));
        Ok(())
    }

    /// Scan the rest of a numeric lexeme, whose first character is
    /// already consumed, and emit an integer or real token, retracting a
    /// speculative Minus just before the lexeme.  A trailing dot or an
    /// unparsable lexeme is fatal.
    pub fn number(&mut self) -> (r: Result<(), LexError>)
        requires
            old(self).wf(),
            old(self).current == old(self).start + 1,
        ensures
            final(self).wf(),
            old(self).same_text(*final(self)),
            final(self).start == old(self).start,
            ({
                let next = step_number(old(self).chars@, old(self).lexeme_st());
                &&& final(self).current == next.i
                &&& final(self).line == next.line
                &&& toks_of(final(self).output@) == next.toks
                &&& r == (match next.err {
                    None => Ok::<(), LexError>(()),
                    Some(e) => Err::<(), LexError>(e),
                })
            }),
    {
        let ghost s = old(self).chars@;
        let ghost c1 = old(self).current as nat;
        let n = self.chars.len();
        while self.current < n && self.chars[self.current] != ')' && self.chars[self.current]
            != '\n' && self.chars[self.current] != ' '
            invariant
                self.wf(),
                n == self.chars@.len(),
                s == self.chars@,
                self.chars == old(self).chars,
                self.input == old(self).input,
                self.output == old(self).output,
                self.start == old(self).start,
                self.line == old(self).line,
                old(self).current <= self.current <= n,
                num_end(s, self.current as nat) == num_end(s, c1),
            decreases n - self.current,
        {
            self.current = self.current + 1;
        }
        proof {
            assert(num_end(s, self.current as nat) == self.current);
        }
        let j = self.current;
        let mut w: Vec<char> = Vec::new();
        let mut k = self.start;
        while k < j
            invariant
                self.start <= k <= j <= self.chars@.len(),
                s == self.chars@,
                w@ == s.subrange(self.start as int, k as int),
            decreases j - k,
        {
            let c = self.chars[k];
            w.push(c);
            k += 1;
            proof {
                assert(s.subrange(self.start as int, k as int) =~= s.subrange(
                    self.start as int,
                    k as int - 1,
                ).push(s[k as int - 1]));
            }
        }
        if w[w.len() - 1] == '.' {
            return Err(LexError::MalformedNumber);
        }

        let mut neg = false;
        if self.start > 0 {
            if self.chars[self.start - 1] == '-' {
                if self.output.len() > 0 {
                    proof {
                        lemma_toks_of_last(self.output@);
                    }
                    let lt = &self.output[self.output.len() - 1];
                    if is_minus(lt) {
                        neg = true;
                    }
                }
            }
        }
        proof {
            let st0 = old(self).lexeme_st();
            assert(neg == (st0.i > 0 && s[st0.i - 1] == '-' && st0.toks.len() > 0 && st0.toks.last()
                == SpecTok::Minus));
        }

        match parse_int_digits(&w) {
            Some(v) => {
                proof {
                    lemma_digits_value_nonneg(w@);
                }
                if neg {
                    proof {
                        lemma_toks_of_last(self.output@);
                    }
                    self.output.pop();
                    self.add_token(LType::Integer(-v));
                } else {
                    self.add_token(LType::Integer(v));
                }
                Ok(())
            },
            None => {
                if check_real_lexeme(&w) {
                    let body = self.input.as_str().substring_char(self.start, j);
                    let text = if neg {
                        proof {
                            reveal_strlit("-");
                            assert("-"@ =~= seq!['-']);
                        }
                        let mut t = "-".to_owned();
                        t.append(body);
                        t
                    } else {
                        body.to_owned()
                    };
                    if neg {
                        proof {
                            lemma_toks_of_last(self.output@);
                        }
                        self.output.pop();
                    }
                    self.add_token(LType::Real(text));
                    Ok(())
                } else {
                    Err(LexError::MalformedNumber)
                }
            },
        }
    }

    /// Scan the rest of an identifier lexeme, whose first character is
    /// already consumed, and emit the keyword, builtin or identifier
    /// token it spells.
    pub fn identifier(&mut self)
        requires
            old(self).wf(),
            old(self).current == old(self).start + 1,
        ensures
            final(self).wf(),
            old(self).same_text(*final(self)),
            final(self).start == old(self).start,
            final(self).line == old(self).line,
            ({
                let s = old(self).chars@;
                let j = ident_end(s, old(self).current as nat);
                &&& final(self).current == j
                &&& toks_of(final(self).output@) == toks_of(old(self).output@).push(
                    classify_word(s.subrange(old(self).start as int, j as int)),
                )
            }),
    {
        let ghost s = old(self).chars@;
        let ghost c1 = old(self).current as nat;
        let n = self.chars.len();
        while self.current < n && self.chars[self.current] != '(' && self.chars[self.current]
            != ')' && self.chars[self.current] != '\n' && self.chars[self.current] != ' '
            && self.chars[self.current] != '"'
            invariant
                self.wf(),
                n == self.chars@.len(),
                s == self.chars@,
                self.chars == old(self).chars,
                self.input == old(self).input,
                self.output == old(self).output,
                self.start == old(self).start,
                self.line == old(self).line,
                old(self).current <= self.current <= n,
                ident_end(s, self.current as nat) == ident_end(s, c1),
            decreases n - self.current,
        {
            self.current = self.current + 1;
        }
        proof {
            assert(ident_end(s, self.current as nat) == self.current);
        }
        let word = self.input.as_str().substring_char(self.start, self.current);
        let t = classify_ident(word);
        self.add_token(t);
    }

    /// Scan one lexeme: consume its first character, dispatch on it, and
    /// emit at most one token.  The step taken is exactly
    /// [`spec_step`].
    pub fn lex_one(&mut self) -> (r: Result<(), LexError>)
        requires
            old(self).wf(),
            old(self).start == old(self).current,
            old(self).current < old(self).input@.len(),
        ensures
            final(self).wf(),
            old(self).same_text(*final(self)),
            ({
                let next = spec_step(old(self).chars@, old(self).st());
                &&& final(self).current == next.i
                &&& final(self).line == next.line
                &&& toks_of(final(self).output@) == next.toks
                &&& r == (match next.err {
                    None => Ok::<(), LexError>(()),
                    Some(e) => Err::<(), LexError>(e),
                })
            }),
    {
        let cc = self.advance();
        if cc == ' ' {
            Ok(())
        } else if cc == '\n' {
            self.line = self.line + 1;
            Ok(())
        } else if cc == '>' {
            self.add_token(LType::RBracket);
            Ok(())
        } else if cc == '<' {
            self.add_token(LType::LBracket);
            Ok(())
        } else if cc == '(' {
            self.add_token(LType::LParen);
            Ok(())
        } else if cc == ')' {
            self.add_token(LType::RParen);
            Ok(())
        } else if cc == '"' {
            self.start = self.start + 1;
            self.string()
        } else if cc == '-' {
            self.add_token(LType::Minus);
            Ok(())
        } else if cc == '+' {
            self.add_token(LType::Plus);
            Ok(())
        } else if cc == '*' {
            self.add_token(LType::Times);
            Ok(())
        } else if cc == '/' {
            self.add_token(LType::Div);
            Ok(())
        } else if cc == '%' {
            self.add_token(LType::Modulo);
            Ok(())
        } else if is_numeric_char(cc) {
            self.number()
        } else {
            self.identifier();
            Ok(())
        }
    }

    /// Scan the whole text: one lexeme at a time until the end of the
    /// input or a fatal error, resetting the lexeme start after each.
    /// The final state is exactly the model's [`spec_lex_from`] of the
    /// starting state.
    pub fn lex(&mut self) -> (r: Result<(), LexError>)
        requires
            old(self).wf(),
            old(self).start == old(self).current,
        ensures
            final(self).wf(),
            old(self).same_text(*final(self)),
            ({
                let end = spec_lex_from(old(self).chars@, old(self).st());
                &&& final(self).current == end.i
                &&& final(self).line == end.line
                &&& toks_of(final(self).output@) == end.toks
                &&& r == (match end.err {
                    None => Ok::<(), LexError>(()),
                    Some(e) => Err::<(), LexError>(e),
                })
            }),
    {
        let ghost s = old(self).chars@;
        let ghost st_init = old(self).st();
        let n = self.chars.len();
        while self.current < n
            invariant
                self.wf(),
                self.start == self.current,
                n == self.chars@.len(),
                s == self.chars@,
                self.chars == old(self).chars,
                self.input == old(self).input,
                st_init == old(self).st(),
                spec_lex_from(s, self.st()) == spec_lex_from(s, st_init),
            decreases n - self.current,
        {
            let ghost pre = self.st();
            proof {
                lemma_step_in_bounds(s, pre);
            }
            match self.lex_one() {
                Ok(()) => {
                    self.start = self.current;
                },
                Err(e) => {
                    proof {
                        assert(spec_lex_from(s, pre) == spec_lex_from(s, spec_step(s, pre)));
                        assert(spec_lex_from(s, spec_step(s, pre)) == spec_step(s, pre));
                    }
                    return Err(e);
                },
            }
            proof {
                assert(spec_lex_from(s, pre) == spec_lex_from(s, spec_step(s, pre)));
            }
        }
        proof {
            assert(spec_lex_from(s, self.st()) == self.st());
        }
        Ok(())
    }
}

/// Whether a token is the Minus operator.
fn is_minus(t: &Token) -> (r: bool)
    ensures
        r == (t@ == SpecTok::Minus),
{
    match &t.0 {
        LType::Minus => true,
        _ => false,
    }
}

/// Classify a finished identifier lexeme: keywords first, then the
/// builtin table, then a plain identifier.
fn classify_ident(word: &str) -> (r: LType)
    ensures
        r@ == classify_word(word@),
{
    if str_eq(word, "defun") {
        LType::Defun
    } else if str_eq(word, "vec") {
        LType::VecKw
    } else if str_eq(word, "tup") {
        LType::Tup
    } else if str_eq(word, "if") {
        LType::If
    } else if str_eq(word, "else") {
        LType::Else
    } else if str_eq(word, "while") {
        LType::While
    } else if str_eq(word, "let") {
        LType::Let
    } else if str_eq(word, "put") {
        LType::Builtin(Builtin::Put)
    } else if str_eq(word, "get") {
        LType::Builtin(Builtin::Get)
    } else if str_eq(word, "type") {
        LType::Builtin(Builtin::Type)
    } else if str_eq(word, "len") {
        LType::Builtin(Builtin::Len)
    } else if str_eq(word, "panic") {
        LType::Builtin(Builtin::Panic)
    } else if str_eq(word, "push") {
        LType::Builtin(Builtin::Push)
    } else if str_eq(word, "pop") {
        LType::Builtin(Builtin::Pop)
    } else {
        LType::Ident(word.to_owned())
    }
}

/// Scan a complete source text: the token sequence the model prescribes,
/// or the error that stopped the scan.
pub fn scan(source: String) -> (r: Result<Vec<Token>, LexError>)
    requires
        source@.len() < usize::MAX,
    ensures
        ({
            let end = spec_lex(source@);
            match r {
                Ok(toks) => end.err is None && toks_of(toks@) == end.toks,
                Err(e) => end.err == Some(e),
            }
        }),
{
    let mut lx = Lexer::new(source);
    match lx.lex() {
        Ok(()) => Ok(lx.output),
        Err(e) => Err(e),
    }
}

} // verus!
