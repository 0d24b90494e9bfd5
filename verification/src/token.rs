//! Token and error types produced by the scanner.

use vstd::prelude::*;

use crate::builtins::Builtin;
use crate::model::SpecTok;

verus! {

/// Why a scan stopped.  Every lexical error is fatal: the scan aborts at
/// once, with no resynchronization and no partial result.
#[derive(Debug, Clone, Copy, PartialEq, Eq, Structural)]
pub enum LexError {
    /// The text ended inside a string literal.
    UnterminatedString,
    /// A numeric lexeme ended in a dot, or parsed neither as an integer
    /// nor as a real.
    MalformedNumber,
    /// The cursor was asked to read past the end of the input.  The
    /// scanning loop never does; the variant exists as a defensive part
    /// of the error taxonomy.
    UnexpectedEndOfInput,
}

/// The classification of one lexeme, carrying at most one payload.
///
/// `Real` carries the literal's text rather than a decoded value: the
/// text is guaranteed well formed (see
/// [`crate::model::is_real_lexeme`]), and decoding it is floating-point
/// work left to the caller.
#[derive(Debug, PartialEq)]
pub enum LType {
    LParen,
    RParen,
    LBracket,
    RBracket,
    Times,
    Plus,
    Minus,
    Div,
    Modulo,
    Defun,
    VecKw,
    Tup,
    While,
    If,
    Else,
    Let,
    Ident(String),
    Str(String),
    Integer(i64),
    Real(String),
    Builtin(Builtin),
}

impl View for LType {
    type V = SpecTok;

    open spec fn view(&self) -> SpecTok {
        match self {
            LType::LParen => SpecTok::LParen,
            LType::RParen => SpecTok::RParen,
            LType::LBracket => SpecTok::LBracket,
            LType::RBracket => SpecTok::RBracket,
            LType::Times => SpecTok::Times,
            LType::Plus => SpecTok::Plus,
            LType::Minus => SpecTok::Minus,
            LType::Div => SpecTok::Div,
            LType::Modulo => SpecTok::Modulo,
            LType::Defun => SpecTok::Defun,
            LType::VecKw => SpecTok::VecKw,
            LType::Tup => SpecTok::Tup,
            LType::While => SpecTok::While,
            LType::If => SpecTok::If,
            LType::Else => SpecTok::Else,
            LType::Let => SpecTok::Let,
            LType::Ident(s) => SpecTok::Ident(s@),
            LType::Str(s) => SpecTok::Str(s@),
            LType::Integer(v) => SpecTok::Integer(*v as int),
            LType::Real(s) => SpecTok::Real(s@),
            LType::Builtin(b) => SpecTok::Builtin(*b),
        }
    }
}

/// The user-facing name of a token's category.
pub open spec fn category_name(t: SpecTok) -> Seq<char> {
    match t {
        SpecTok::LParen => "Opening Parenthese"@,
        SpecTok::RParen => "Closing Parenthese"@,
        SpecTok::LBracket => "Opening Chevron"@,
        SpecTok::RBracket => "Closing Chevron"@,
        SpecTok::Times => "Mathematical operator"@,
        SpecTok::Plus => "Mathematical operator"@,
        SpecTok::Minus => "Mathematical operator"@,
        SpecTok::Div => "Mathematical operator"@,
        SpecTok::Modulo => "Mathematical operator"@,
        SpecTok::Ident(_) => "Identifier"@,
        SpecTok::Str(_) => "String"@,
        SpecTok::Integer(_) => "Integer"@,
        SpecTok::Real(_) => "Real"@,
        _ => "Keyword"@,
    }
}

impl LType {
    /// The name of this token's category, for diagnostics.
    pub fn get_type(&self) -> (r: String)
        ensures
            r@ == category_name(self@),
    {
        match self {
            LType::LParen => "Opening Parenthese".to_owned(),
            LType::RParen => "Closing Parenthese".to_owned(),
            LType::LBracket => "Opening Chevron".to_owned(),
            LType::RBracket => "Closing Chevron".to_owned(),
            LType::Times | LType::Plus | LType::Minus | LType::Div | LType::Modulo => {
                "Mathematical operator".to_owned()
            },
            LType::Ident(_) => "Identifier".to_owned(),
            LType::Str(_) => "String".to_owned(),
            LType::Integer(_) => "Integer".to_owned(),
            LType::Real(_) => "Real".to_owned(),
            _ => "Keyword".to_owned(),
        }
    }
}

/// One token of the output sequence.
#[derive(Debug, PartialEq)]
pub struct Token(pub LType);

impl View for Token {
    type V = SpecTok;

    open spec fn view(&self) -> SpecTok {
        self.0@
    }
}

impl Token {
    pub fn new(ltype: LType) -> (r: Self)
        ensures
            r@ == ltype@,
    {
        Token(ltype)
    }
}

/// The token sequence as the model sees it.
pub open spec fn toks_of(ts: Seq<Token>) -> Seq<SpecTok> {
    ts.map_values(|t: Token| t@)
}

pub proof fn lemma_toks_of_push(ts: Seq<Token>, t: Token)
    ensures
        toks_of(ts.push(t)) == toks_of(ts).push(t@),
{
    assert(toks_of(ts.push(t)) =~= toks_of(ts).push(t@));
}

pub proof fn lemma_toks_of_last(ts: Seq<Token>)
    requires
        ts.len() > 0,
    ensures
        toks_of(ts).last() == ts.last()@,
        toks_of(ts.drop_last()) == toks_of(ts).drop_last(),
{
    assert(toks_of(ts.drop_last()) =~= toks_of(ts).drop_last());
}

} // verus!
