use vstd::prelude::*;
use crate::text::{
    chars_equal, chars_of, decimal, push_char, push_i64, push_str, push_usize, signed_decimal,
    string_from_chars, string_of,
};

verus! {

/// The tokens of Track source text.
#[derive(Debug)]
pub enum Token {
    Import,
    Let,
    Mut,
    With,
    Fn,
    Return,
    If,
    Else,
    While,
    For,
    In,
    True,
    False,
    Struct,
    Enum,
    Union,
    Match,
    As,
    Use,
    TypeDef,
    AtMacro,
    AtUse,
    Const,
    At,
    TyI32,
    TyU32,
    TyI64,
    TyU64,
    TyBool,
    TyVoid,
    TyPtr,
    TyU8,
    TyI8,
    Int(i64),
    Str(String),
    Ident(String),
    Eq,
    EqEq,
    Neq,
    Bang,
    LBrace,
    RBrace,
    LParen,
    RParen,
    LBracket,
    RBracket,
    Comma,
    Colon,
    ColonColon,
    Arrow,
    FatArrow,
    Semicolon,
    Dot,
    DotDot,
    Underscore,
    Amp,
    Pipe,
    Star,
    Plus,
    Minus,
    Slash,
    Percent,
    Lt,
    Gt,
    Lte,
    Gte,
    AmpAmp,
    PipePipe,
    Shl,
    Shr,
}

/// The mathematical value of a token: text payloads as character sequences.
pub enum TokV {
    Import,
    Let,
    Mut,
    With,
    Fn,
    Return,
    If,
    Else,
    While,
    For,
    In,
    True,
    False,
    Struct,
    Enum,
    Union,
    Match,
    As,
    Use,
    TypeDef,
    AtMacro,
    AtUse,
    Const,
    At,
    TyI32,
    TyU32,
    TyI64,
    TyU64,
    TyBool,
    TyVoid,
    TyPtr,
    TyU8,
    TyI8,
    Int(i64),
    Str(Seq<char>),
    Ident(Seq<char>),
    Eq,
    EqEq,
    Neq,
    Bang,
    LBrace,
    RBrace,
    LParen,
    RParen,
    LBracket,
    RBracket,
    Comma,
    Colon,
    ColonColon,
    Arrow,
    FatArrow,
    Semicolon,
    Dot,
    DotDot,
    Underscore,
    Amp,
    Pipe,
    Star,
    Plus,
    Minus,
    Slash,
    Percent,
    Lt,
    Gt,
    Lte,
    Gte,
    AmpAmp,
    PipePipe,
    Shl,
    Shr,
}

impl View for Token {
    type V = TokV;

    open spec fn view(&self) -> TokV {
        match self {
            Token::Import => TokV::Import,
            Token::Let => TokV::Let,
            Token::Mut => TokV::Mut,
            Token::With => TokV::With,
            Token::Fn => TokV::Fn,
            Token::Return => TokV::Return,
            Token::If => TokV::If,
            Token::Else => TokV::Else,
            Token::While => TokV::While,
            Token::For => TokV::For,
            Token::In => TokV::In,
            Token::True => TokV::True,
            Token::False => TokV::False,
            Token::Struct => TokV::Struct,
            Token::Enum => TokV::Enum,
            Token::Union => TokV::Union,
            Token::Match => TokV::Match,
            Token::As => TokV::As,
            Token::Use => TokV::Use,
            Token::TypeDef => TokV::TypeDef,
            Token::AtMacro => TokV::AtMacro,
            Token::AtUse => TokV::AtUse,
            Token::Const => TokV::Const,
            Token::At => TokV::At,
            Token::TyI32 => TokV::TyI32,
            Token::TyU32 => TokV::TyU32,
            Token::TyI64 => TokV::TyI64,
            Token::TyU64 => TokV::TyU64,
            Token::TyBool => TokV::TyBool,
            Token::TyVoid => TokV::TyVoid,
            Token::TyPtr => TokV::TyPtr,
            Token::TyU8 => TokV::TyU8,
            Token::TyI8 => TokV::TyI8,
            Token::Int(v) => TokV::Int(*v),
            Token::Str(s) => TokV::Str(s@),
            Token::Ident(s) => TokV::Ident(s@),
            Token::Eq => TokV::Eq,
            Token::EqEq => TokV::EqEq,
            Token::Neq => TokV::Neq,
            Token::Bang => TokV::Bang,
            Token::LBrace => TokV::LBrace,
            Token::RBrace => TokV::RBrace,
            Token::LParen => TokV::LParen,
            Token::RParen => TokV::RParen,
            Token::LBracket => TokV::LBracket,
            Token::RBracket => TokV::RBracket,
            Token::Comma => TokV::Comma,
            Token::Colon => TokV::Colon,
            Token::ColonColon => TokV::ColonColon,
            Token::Arrow => TokV::Arrow,
            Token::FatArrow => TokV::FatArrow,
            Token::Semicolon => TokV::Semicolon,
            Token::Dot => TokV::Dot,
            Token::DotDot => TokV::DotDot,
            Token::Underscore => TokV::Underscore,
            Token::Amp => TokV::Amp,
            Token::Pipe => TokV::Pipe,
            Token::Star => TokV::Star,
            Token::Plus => TokV::Plus,
            Token::Minus => TokV::Minus,
            Token::Slash => TokV::Slash,
            Token::Percent => TokV::Percent,
            Token::Lt => TokV::Lt,
            Token::Gt => TokV::Gt,
            Token::Lte => TokV::Lte,
            Token::Gte => TokV::Gte,
            Token::AmpAmp => TokV::AmpAmp,
            Token::PipePipe => TokV::PipePipe,
            Token::Shl => TokV::Shl,
            Token::Shr => TokV::Shr,
        }
    }
}

impl Token {
    /// A copy of the token with the same value.
    pub fn copy(&self) -> (r: Token)
        ensures
            r@ == self@,
    {
        match self {
            Token::Import => Token::Import,
            Token::Let => Token::Let,
            Token::Mut => Token::Mut,
            Token::With => Token::With,
            Token::Fn => Token::Fn,
            Token::Return => Token::Return,
            Token::If => Token::If,
            Token::Else => Token::Else,
            Token::While => Token::While,
            Token::For => Token::For,
            Token::In => Token::In,
            Token::True => Token::True,
            Token::False => Token::False,
            Token::Struct => Token::Struct,
            Token::Enum => Token::Enum,
            Token::Union => Token::Union,
            Token::Match => Token::Match,
            Token::As => Token::As,
            Token::Use => Token::Use,
            Token::TypeDef => Token::TypeDef,
            Token::AtMacro => Token::AtMacro,
            Token::AtUse => Token::AtUse,
            Token::Const => Token::Const,
            Token::At => Token::At,
            Token::TyI32 => Token::TyI32,
            Token::TyU32 => Token::TyU32,
            Token::TyI64 => Token::TyI64,
            Token::TyU64 => Token::TyU64,
            Token::TyBool => Token::TyBool,
            Token::TyVoid => Token::TyVoid,
            Token::TyPtr => Token::TyPtr,
            Token::TyU8 => Token::TyU8,
            Token::TyI8 => Token::TyI8,
            Token::Int(v) => Token::Int(*v),
            Token::Str(s) => Token::Str(s.clone()),
            Token::Ident(s) => Token::Ident(s.clone()),
            Token::Eq => Token::Eq,
            Token::EqEq => Token::EqEq,
            Token::Neq => Token::Neq,
            Token::Bang => Token::Bang,
            Token::LBrace => Token::LBrace,
            Token::RBrace => Token::RBrace,
            Token::LParen => Token::LParen,
            Token::RParen => Token::RParen,
            Token::LBracket => Token::LBracket,
            Token::RBracket => Token::RBracket,
            Token::Comma => Token::Comma,
            Token::Colon => Token::Colon,
            Token::ColonColon => Token::ColonColon,
            Token::Arrow => Token::Arrow,
            Token::FatArrow => Token::FatArrow,
            Token::Semicolon => Token::Semicolon,
            Token::Dot => Token::Dot,
            Token::DotDot => Token::DotDot,
            Token::Underscore => Token::Underscore,
            Token::Amp => Token::Amp,
            Token::Pipe => Token::Pipe,
            Token::Star => Token::Star,
            Token::Plus => Token::Plus,
            Token::Minus => Token::Minus,
            Token::Slash => Token::Slash,
            Token::Percent => Token::Percent,
            Token::Lt => Token::Lt,
            Token::Gt => Token::Gt,
            Token::Lte => Token::Lte,
            Token::Gte => Token::Gte,
            Token::AmpAmp => Token::AmpAmp,
            Token::PipePipe => Token::PipePipe,
            Token::Shl => Token::Shl,
            Token::Shr => Token::Shr,
        }
    }

    /// Whether two tokens have the same value.
    pub fn same(&self, other: &Token) -> (r: bool)
        ensures
            r == (self@ == other@),
    {
        match self {
            Token::Import => match other {
                Token::Import => true,
                _ => false,
            },
            Token::Let => match other {
                Token::Let => true,
                _ => false,
            },
            Token::Mut => match other {
                Token::Mut => true,
                _ => false,
            },
            Token::With => match other {
                Token::With => true,
                _ => false,
            },
            Token::Fn => match other {
                Token::Fn => true,
                _ => false,
            },
            Token::Return => match other {
                Token::Return => true,
                _ => false,
            },
            Token::If => match other {
                Token::If => true,
                _ => false,
            },
            Token::Else => match other {
                Token::Else => true,
                _ => false,
            },
            Token::While => match other {
                Token::While => true,
                _ => false,
            },
            Token::For => match other {
                Token::For => true,
                _ => false,
            },
            Token::In => match other {
                Token::In => true,
                _ => false,
            },
            Token::True => match other {
                Token::True => true,
                _ => false,
            },
            Token::False => match other {
                Token::False => true,
                _ => false,
            },
            Token::Struct => match other {
                Token::Struct => true,
                _ => false,
            },
            Token::Enum => match other {
                Token::Enum => true,
                _ => false,
            },
            Token::Union => match other {
                Token::Union => true,
                _ => false,
            },
            Token::Match => match other {
                Token::Match => true,
                _ => false,
            },
            Token::As => match other {
                Token::As => true,
                _ => false,
            },
            Token::Use => match other {
                Token::Use => true,
                _ => false,
            },
            Token::TypeDef => match other {
                Token::TypeDef => true,
                _ => false,
            },
            Token::AtMacro => match other {
                Token::AtMacro => true,
                _ => false,
            },
            Token::AtUse => match other {
                Token::AtUse => true,
                _ => false,
            },
            Token::Const => match other {
                Token::Const => true,
                _ => false,
            },
            Token::At => match other {
                Token::At => true,
                _ => false,
            },
            Token::TyI32 => match other {
                Token::TyI32 => true,
                _ => false,
            },
            Token::TyU32 => match other {
                Token::TyU32 => true,
                _ => false,
            },
            Token::TyI64 => match other {
                Token::TyI64 => true,
                _ => false,
            },
            Token::TyU64 => match other {
                Token::TyU64 => true,
                _ => false,
            },
            Token::TyBool => match other {
                Token::TyBool => true,
                _ => false,
            },
            Token::TyVoid => match other {
                Token::TyVoid => true,
                _ => false,
            },
            Token::TyPtr => match other {
                Token::TyPtr => true,
                _ => false,
            },
            Token::TyU8 => match other {
                Token::TyU8 => true,
                _ => false,
            },
            Token::TyI8 => match other {
                Token::TyI8 => true,
                _ => false,
            },
            Token::Int(a) => match other {
                Token::Int(b) => *a == *b,
                _ => false,
            },
            Token::Str(a) => match other {
                Token::Str(b) => a.eq(b),
                _ => false,
            },
            Token::Ident(a) => match other {
                Token::Ident(b) => a.eq(b),
                _ => false,
            },
            Token::Eq => match other {
                Token::Eq => true,
                _ => false,
            },
            Token::EqEq => match other {
                Token::EqEq => true,
                _ => false,
            },
            Token::Neq => match other {
                Token::Neq => true,
                _ => false,
            },
            Token::Bang => match other {
                Token::Bang => true,
                _ => false,
            },
            Token::LBrace => match other {
                Token::LBrace => true,
                _ => false,
            },
            Token::RBrace => match other {
                Token::RBrace => true,
                _ => false,
            },
            Token::LParen => match other {
                Token::LParen => true,
                _ => false,
            },
            Token::RParen => match other {
                Token::RParen => true,
                _ => false,
            },
            Token::LBracket => match other {
                Token::LBracket => true,
                _ => false,
            },
            Token::RBracket => match other {
                Token::RBracket => true,
                _ => false,
            },
            Token::Comma => match other {
                Token::Comma => true,
                _ => false,
            },
            Token::Colon => match other {
                Token::Colon => true,
                _ => false,
            },
            Token::ColonColon => match other {
                Token::ColonColon => true,
                _ => false,
            },
            Token::Arrow => match other {
                Token::Arrow => true,
                _ => false,
            },
            Token::FatArrow => match other {
                Token::FatArrow => true,
                _ => false,
            },
            Token::Semicolon => match other {
                Token::Semicolon => true,
                _ => false,
            },
            Token::Dot => match other {
                Token::Dot => true,
                _ => false,
            },
            Token::DotDot => match other {
                Token::DotDot => true,
                _ => false,
            },
            Token::Underscore => match other {
                Token::Underscore => true,
                _ => false,
            },
            Token::Amp => match other {
                Token::Amp => true,
                _ => false,
            },
            Token::Pipe => match other {
                Token::Pipe => true,
                _ => false,
            },
            Token::Star => match other {
                Token::Star => true,
                _ => false,
            },
            Token::Plus => match other {
                Token::Plus => true,
                _ => false,
            },
            Token::Minus => match other {
                Token::Minus => true,
                _ => false,
            },
            Token::Slash => match other {
                Token::Slash => true,
                _ => false,
            },
            Token::Percent => match other {
                Token::Percent => true,
                _ => false,
            },
            Token::Lt => match other {
                Token::Lt => true,
                _ => false,
            },
            Token::Gt => match other {
                Token::Gt => true,
                _ => false,
            },
            Token::Lte => match other {
                Token::Lte => true,
                _ => false,
            },
            Token::Gte => match other {
                Token::Gte => true,
                _ => false,
            },
            Token::AmpAmp => match other {
                Token::AmpAmp => true,
                _ => false,
            },
            Token::PipePipe => match other {
                Token::PipePipe => true,
                _ => false,
            },
            Token::Shl => match other {
                Token::Shl => true,
                _ => false,
            },
            Token::Shr => match other {
                Token::Shr => true,
                _ => false,
            },
        }
    }
}

impl Clone for Token {
    fn clone(&self) -> (r: Self)
        ensures
            r@ == self@,
    {
        self.copy()
    }
}

impl PartialEq for Token {
    fn eq(&self, other: &Self) -> (r: bool) {
        self.same(other)
    }
}

impl vstd::std_specs::cmp::PartialEqSpecImpl for Token {
    open spec fn obeys_eq_spec() -> bool {
        true
    }

    open spec fn eq_spec(&self, other: &Token) -> bool {
        self@ == other@
    }
}

/// Whitespace skipped between tokens.
pub open spec fn is_ws(c: char) -> bool {
    c == ' ' || c == '\t' || c == '\r' || c == '\n'
}

/// ASCII letters.
pub open spec fn is_alpha(c: char) -> bool {
    ('a' <= c && c <= 'z') || ('A' <= c && c <= 'Z')
}

/// ASCII decimal digits.
pub open spec fn is_digit(c: char) -> bool {
    '0' <= c && c <= '9'
}

/// Characters that may start an identifier.
pub open spec fn is_ident_start(c: char) -> bool {
    is_alpha(c) || c == '_'
}

/// Characters that may continue an identifier.
pub open spec fn is_ident_char(c: char) -> bool {
    is_ident_start(c) || is_digit(c)
}

/// The index of the first newline at or after `i`, or the length.
pub open spec fn line_end(s: Seq<char>, i: int) -> int
    decreases s.len() - i,
{
    if i >= s.len() {
        s.len() as int
    } else if s[i] == '\n' {
        i
    } else {
        line_end(s, i + 1)
    }
}

/// The end of the run of identifier characters starting at `i`.
pub open spec fn ident_end(s: Seq<char>, i: int) -> int
    decreases s.len() - i,
{
    if i >= s.len() {
        s.len() as int
    } else if is_ident_char(s[i]) {
        ident_end(s, i + 1)
    } else {
        i
    }
}

/// The end of the run of digits starting at `i`.
pub open spec fn digits_end(s: Seq<char>, i: int) -> int
    decreases s.len() - i,
{
    if i >= s.len() {
        s.len() as int
    } else if is_digit(s[i]) {
        digits_end(s, i + 1)
    } else {
        i
    }
}

/// The index of the first `"` at or after `i`, or the length.
pub open spec fn quote_pos(s: Seq<char>, i: int) -> int
    decreases s.len() - i,
{
    if i >= s.len() {
        s.len() as int
    } else if s[i] == '"' {
        i
    } else {
        quote_pos(s, i + 1)
    }
}

/// `line_end`, `ident_end`, `digits_end` and `quote_pos` never move backwards
/// and never pass the end.
pub proof fn lemma_scan_bounds(s: Seq<char>, i: int)
    requires
        0 <= i <= s.len(),
    ensures
        i <= line_end(s, i) <= s.len(),
        i <= ident_end(s, i) <= s.len(),
        i <= digits_end(s, i) <= s.len(),
        i <= quote_pos(s, i) <= s.len(),
    decreases s.len() - i,
{
    if i < s.len() {
        lemma_scan_bounds(s, i + 1);
    }
}

/// The index of the first character at or after `i` that is neither
/// whitespace nor inside a `//` line comment.
pub open spec fn skip_trivia(s: Seq<char>, i: int) -> int
    decreases s.len() - i,
{
    if i < 0 || i >= s.len() {
        i
    } else if is_ws(s[i]) {
        skip_trivia(s, i + 1)
    } else if s[i] == '/' && i + 1 < s.len() && s[i + 1] == '/' {
        let e = line_end(s, i + 2);
        if e > i && e <= s.len() {
            skip_trivia(s, e)
        } else {
            i
        }
    } else {
        i
    }
}

pub proof fn lemma_skip_trivia_bounds(s: Seq<char>, i: int)
    requires
        0 <= i <= s.len(),
    ensures
        i <= skip_trivia(s, i) <= s.len(),
    decreases s.len() - i,
{
    if i < s.len() {
        if is_ws(s[i]) {
            lemma_skip_trivia_bounds(s, i + 1);
        } else if s[i] == '/' && i + 1 < s.len() && s[i + 1] == '/' {
            lemma_scan_bounds(s, i + 2);
            lemma_skip_trivia_bounds(s, line_end(s, i + 2));
        }
    }
}

/// The value of a sequence of decimal digits.
pub open spec fn digits_value(d: Seq<char>) -> nat
    decreases d.len(),
{
    if d.len() == 0 {
        0
    } else {
        digits_value(d.drop_last()) * 10 + ((d.last() as int - '0' as int) as nat)
    }
}

/// Part of the keyword table.
pub open spec fn keyword_a(w: Seq<char>) -> Option<TokV> {
    if w == seq!['i', 'm', 'p', 'o', 'r', 't'] {
        Some(TokV::Import)
    } else if w == seq!['l', 'e', 't'] {
        Some(TokV::Let)
    } else if w == seq!['m', 'u', 't'] {
        Some(TokV::Mut)
    } else if w == seq!['w', 'i', 't', 'h'] {
        Some(TokV::With)
    } else if w == seq!['f', 'n'] {
        Some(TokV::Fn)
    } else if w == seq!['r', 'e', 't', 'u', 'r', 'n'] {
        Some(TokV::Return)
    } else if w == seq!['i', 'f'] {
        Some(TokV::If)
    } else if w == seq!['e', 'l', 's', 'e'] {
        Some(TokV::Else)
    } else {
        None
    }
}

/// Part of the keyword table.
pub open spec fn keyword_b(w: Seq<char>) -> Option<TokV> {
    if w == seq!['w', 'h', 'i', 'l', 'e'] {
        Some(TokV::While)
    } else if w == seq!['f', 'o', 'r'] {
        Some(TokV::For)
    } else if w == seq!['i', 'n'] {
        Some(TokV::In)
    } else if w == seq!['t', 'r', 'u', 'e'] {
        Some(TokV::True)
    } else if w == seq!['f', 'a', 'l', 's', 'e'] {
        Some(TokV::False)
    } else if w == seq!['s', 't', 'r', 'u', 'c', 't'] {
        Some(TokV::Struct)
    } else if w == seq!['e', 'n', 'u', 'm'] {
        Some(TokV::Enum)
    } else if w == seq!['u', 'n', 'i', 'o', 'n'] {
        Some(TokV::Union)
    } else {
        None
    }
}

/// Part of the keyword table.
pub open spec fn keyword_c(w: Seq<char>) -> Option<TokV> {
    if w == seq!['m', 'a', 't', 'c', 'h'] {
        Some(TokV::Match)
    } else if w == seq!['a', 's'] {
        Some(TokV::As)
    } else if w == seq!['u', 's', 'e'] {
        Some(TokV::Use)
    } else if w == seq!['t', 'y', 'p', 'e'] {
        Some(TokV::TypeDef)
    } else if w == seq!['c', 'o', 'n', 's', 't'] {
        Some(TokV::Const)
    } else if w == seq!['i', '3', '2'] {
        Some(TokV::TyI32)
    } else if w == seq!['u', '3', '2'] {
        Some(TokV::TyU32)
    } else if w == seq!['i', '6', '4'] {
        Some(TokV::TyI64)
    } else {
        None
    }
}

/// Part of the keyword table.
pub open spec fn keyword_d(w: Seq<char>) -> Option<TokV> {
    if w == seq!['u', '6', '4'] {
        Some(TokV::TyU64)
    } else if w == seq!['b', 'o', 'o', 'l'] {
        Some(TokV::TyBool)
    } else if w == seq!['v', 'o', 'i', 'd'] {
        Some(TokV::TyVoid)
    } else if w == seq!['p', 't', 'r'] {
        Some(TokV::TyPtr)
    } else if w == seq!['u', '8'] {
        Some(TokV::TyU8)
    } else if w == seq!['i', '8'] {
        Some(TokV::TyI8)
    } else if w == seq!['_'] {
        Some(TokV::Underscore)
    } else {
        None
    }
}

/// The token that a word (a run of identifier characters) stands for:
/// a keyword, a type keyword, `_`, or an identifier.
pub open spec fn word_token(w: Seq<char>) -> TokV {
    match keyword_a(w) {
        Some(t) => t,
        None => match keyword_b(w) {
            Some(t) => t,
            None => match keyword_c(w) {
                Some(t) => t,
                None => match keyword_d(w) {
                    Some(t) => t,
                    None => TokV::Ident(w),
                },
            },
        },
    }
}

/// Whether `w` occurs in `s` at position `i`.
pub open spec fn occurs_at(s: Seq<char>, i: int, w: Seq<char>) -> bool {
    0 <= i && i + w.len() <= s.len() && s.subrange(i, i + w.len()) == w
}

/// The punctuation token at `i` (longest match) and its length.
pub open spec fn symbol_token(s: Seq<char>, i: int) -> Option<(TokV, int)>
    recommends
        0 <= i < s.len(),
{
    let c = s[i];
    let n = if i + 1 < s.len() {
        s[i + 1]
    } else {
        ' '
    };
    if c == '=' {
        if n == '=' {
            Some((TokV::EqEq, 2))
        } else if n == '>' {
            Some((TokV::FatArrow, 2))
        } else {
            Some((TokV::Eq, 1))
        }
    } else if c == '!' {
        if n == '=' {
            Some((TokV::Neq, 2))
        } else {
            Some((TokV::Bang, 1))
        }
    } else if c == '{' {
        Some((TokV::LBrace, 1))
    } else if c == '}' {
        Some((TokV::RBrace, 1))
    } else if c == '(' {
        Some((TokV::LParen, 1))
    } else if c == ')' {
        Some((TokV::RParen, 1))
    } else if c == '[' {
        Some((TokV::LBracket, 1))
    } else if c == ']' {
        Some((TokV::RBracket, 1))
    } else if c == ',' {
        Some((TokV::Comma, 1))
    } else if c == ':' {
        if n == ':' {
            Some((TokV::ColonColon, 2))
        } else {
            Some((TokV::Colon, 1))
        }
    } else if c == '-' {
        if n == '>' {
            Some((TokV::Arrow, 2))
        } else {
            Some((TokV::Minus, 1))
        }
    } else if c == ';' {
        Some((TokV::Semicolon, 1))
    } else if c == '.' {
        if n == '.' {
            Some((TokV::DotDot, 2))
        } else {
            Some((TokV::Dot, 1))
        }
    } else if c == '&' {
        if n == '&' {
            Some((TokV::AmpAmp, 2))
        } else {
            Some((TokV::Amp, 1))
        }
    } else if c == '|' {
        if n == '|' {
            Some((TokV::PipePipe, 2))
        } else {
            Some((TokV::Pipe, 1))
        }
    } else if c == '*' {
        Some((TokV::Star, 1))
    } else if c == '+' {
        Some((TokV::Plus, 1))
    } else if c == '/' {
        Some((TokV::Slash, 1))
    } else if c == '%' {
        Some((TokV::Percent, 1))
    } else if c == '<' {
        if n == '=' {
            Some((TokV::Lte, 2))
        } else if n == '<' {
            Some((TokV::Shl, 2))
        } else {
            Some((TokV::Lt, 1))
        }
    } else if c == '>' {
        if n == '=' {
            Some((TokV::Gte, 2))
        } else if n == '>' {
            Some((TokV::Shr, 2))
        } else {
            Some((TokV::Gt, 1))
        }
    } else if c == '@' {
        if occurs_at(s, i, seq!['@', 'm', 'a', 'c', 'r', 'o']) {
            Some((TokV::AtMacro, 6))
        } else if occurs_at(s, i, seq!['@', 'u', 's', 'e']) {
            Some((TokV::AtUse, 4))
        } else {
            Some((TokV::At, 1))
        }
    } else {
        None
    }
}

/// The outcome of reading one token.
pub enum LexStep {
    /// A token that ends (exclusive) at the given index.
    Tok(TokV, int),
    /// No token matches; the characters up to the given index are refused.
    Fail(int),
}

/// The token that starts at index `i` (which holds no trivia).
pub open spec fn lex_at(s: Seq<char>, i: int) -> LexStep
    recommends
        0 <= i < s.len(),
{
    let c = s[i];
    if is_ident_start(c) {
        let e = ident_end(s, i + 1);
        LexStep::Tok(word_token(s.subrange(i, e)), e)
    } else if is_digit(c) {
        let e = digits_end(s, i + 1);
        let v = digits_value(s.subrange(i, e));
        if v <= i64::MAX {
            LexStep::Tok(TokV::Int(v as i64), e)
        } else {
            LexStep::Fail(e)
        }
    } else if c == '"' {
        let q = quote_pos(s, i + 1);
        if q < s.len() {
            LexStep::Tok(TokV::Str(s.subrange(i + 1, q)), q + 1)
        } else {
            LexStep::Fail(i + 1)
        }
    } else {
        match symbol_token(s, i) {
            Some((t, n)) => LexStep::Tok(t, i + n),
            None => LexStep::Fail(i + 1),
        }
    }
}

pub proof fn lemma_lex_at_progress(s: Seq<char>, i: int)
    requires
        0 <= i < s.len(),
    ensures
        match lex_at(s, i) {
            LexStep::Tok(_, e) => i < e <= s.len(),
            LexStep::Fail(e) => i < e <= s.len(),
        },
{
    lemma_scan_bounds(s, i + 1);
}

/// Tokens with their (start, end) character ranges, or the refused range.
pub type LexResult = Result<Seq<(TokV, int, int)>, (int, int)>;

/// The tokens of `s` from index `i` on.
pub open spec fn lex_from(s: Seq<char>, i: int) -> LexResult
    decreases s.len() - i,
{
    if i < 0 || i > s.len() {
        Ok(Seq::empty())
    } else {
        let j = skip_trivia(s, i);
        if j >= s.len() || j < i {
            Ok(Seq::empty())
        } else {
            match lex_at(s, j) {
                LexStep::Tok(t, e) => {
                    if e <= j || e > s.len() {
                        Ok(Seq::empty())
                    } else {
                        match lex_from(s, e) {
                            Ok(rest) => Ok(seq![(t, j, e)] + rest),
                            Err(x) => Err(x),
                        }
                    }
                },
                LexStep::Fail(e) => Err((j, e)),
            }
        }
    }
}

/// The tokens of a whole source text.
pub open spec fn spec_tokenize(s: Seq<char>) -> LexResult {
    lex_from(s, 0)
}

/// Token spans within `lo..hi`, each nonempty, in order, without overlap.
pub open spec fn spans_ordered(ts: Seq<(TokV, int, int)>, lo: int, hi: int) -> bool {
    &&& forall|k: int| 0 <= k < ts.len() ==> lo <= (#[trigger] ts[k]).1 < ts[k].2 <= hi
    &&& forall|k: int| 0 <= k < ts.len() - 1 ==> (#[trigger] ts[k]).2 <= ts[k + 1].1
}

proof fn lemma_lex_spans(s: Seq<char>, i: int)
    requires
        0 <= i,
    ensures
        lex_from(s, i) matches Ok(ts) ==> spans_ordered(ts, i, s.len() as int),
    decreases s.len() - i,
{
    if i <= s.len() {
        let j = skip_trivia(s, i);
        if !(j >= s.len() || j < i) {
            if let LexStep::Tok(t, e) = lex_at(s, j) {
                if !(e <= j || e > s.len()) {
                    lemma_lex_spans(s, e);
                    if let Ok(rest) = lex_from(s, e) {
                        let ts = seq![(t, j, e)] + rest;
                        assert forall|k: int| 0 <= k < ts.len() implies i <= (#[trigger] ts[k]).1 < ts[k].2 <= s.len() by {
                            if k > 0 {
                                assert(ts[k] == rest[k - 1]);
                            }
                        }
                        assert forall|k: int| 0 <= k < ts.len() - 1 implies (#[trigger] ts[k]).2 <= ts[k + 1].1 by {
                            assert(ts[k + 1] == rest[k]);
                            if k > 0 {
                                assert(ts[k] == rest[k - 1]);
                            }
                        }
                    }
                }
            }
        }
    }
}

/// The number of bytes of the UTF-8 encoding of `c`.
pub open spec fn utf8_width(c: char) -> int {
    let v = c as u32;
    if v <= 0x7F {
        1
    } else if v <= 0x7FF {
        2
    } else if v <= 0xFFFF && !(0xD800 <= v <= 0xDFFF) {
        3
    } else {
        4
    }
}

/// The byte offset, in the UTF-8 encoding of `s`, where the character at
/// position `i` starts.
pub open spec fn byte_offset(s: Seq<char>, i: int) -> int {
    vstd::utf8::encode_utf8(s.take(i)).len() as int
}

/// Token spans given by character positions, turned into byte offsets.
pub open spec fn byte_spans(s: Seq<char>, ts: Seq<(TokV, int, int)>) -> Seq<(TokV, int, int)> {
    Seq::new(ts.len(), |k: int| (ts[k].0, byte_offset(s, ts[k].1), byte_offset(s, ts[k].2)))
}

proof fn lemma_encode_concat(a: Seq<char>, b: Seq<char>)
    ensures
        vstd::utf8::encode_utf8(a + b) == vstd::utf8::encode_utf8(a) + vstd::utf8::encode_utf8(b),
    decreases a.len(),
{
    if a.len() == 0 {
        assert(a + b =~= b);
        assert(vstd::utf8::encode_utf8(a) + vstd::utf8::encode_utf8(b) =~= vstd::utf8::encode_utf8(b));
    } else {
        lemma_encode_concat(a.drop_first(), b);
        assert((a + b).drop_first() =~= a.drop_first() + b);
        assert((a + b)[0] == a[0]);
        assert(vstd::utf8::encode_utf8(a + b) =~= vstd::utf8::encode_scalar(a[0] as u32) + (
        vstd::utf8::encode_utf8(a.drop_first()) + vstd::utf8::encode_utf8(b)));
    }
}

/// Each character adds its width to the byte offset.
pub proof fn lemma_offset_step(s: Seq<char>, i: int)
    requires
        0 <= i < s.len(),
    ensures
        byte_offset(s, i + 1) == byte_offset(s, i) + utf8_width(s[i]),
        1 <= utf8_width(s[i]) <= 4,
{
    assert(s.take(i + 1) =~= s.take(i) + seq![s[i]]);
    lemma_encode_concat(s.take(i), seq![s[i]]);
    let one = seq![s[i]];
    assert(one.drop_first() =~= Seq::<char>::empty());
    assert(one[0] == s[i]);
    assert(vstd::utf8::encode_utf8(Seq::<char>::empty()) =~= Seq::<u8>::empty());
    assert(vstd::utf8::encode_utf8(one) =~= vstd::utf8::encode_scalar(s[i] as u32));
}

/// Byte offsets grow strictly with the character position.
pub proof fn lemma_offset_mono(s: Seq<char>, i: int, j: int)
    requires
        0 <= i <= j <= s.len(),
    ensures
        byte_offset(s, i) + (j - i) <= byte_offset(s, j),
        byte_offset(s, 0) == 0,
    decreases j - i,
{
    assert(s.take(0) =~= Seq::<char>::empty());
    if i < j {
        lemma_offset_mono(s, i, j - 1);
        lemma_offset_step(s, j - 1);
    }
}

/// The tokens of a text lie within its UTF-8 bytes, in order, each over at
/// least one byte and none overlapping the next.
pub proof fn law_token_spans(s: Seq<char>)
    ensures
        spec_tokenize(s) matches Ok(ts) ==> spans_ordered(
            byte_spans(s, ts),
            0,
            vstd::utf8::encode_utf8(s).len() as int,
        ),
{
    lemma_lex_spans(s, 0);
    if let Ok(ts) = spec_tokenize(s) {
        let bs = byte_spans(s, ts);
        assert(s.take(s.len() as int) =~= s);
        assert forall|k: int| 0 <= k < bs.len() implies 0 <= (#[trigger] bs[k]).1 < bs[k].2
            <= vstd::utf8::encode_utf8(s).len() as int by {
            lemma_offset_mono(s, 0, ts[k].1);
            lemma_offset_mono(s, ts[k].1, ts[k].2);
            lemma_offset_mono(s, ts[k].2, s.len() as int);
        }
        assert forall|k: int| 0 <= k < bs.len() - 1 implies (#[trigger] bs[k]).2 <= bs[k + 1].1 by {
            lemma_offset_mono(s, ts[k].2, ts[k + 1].1);
        }
    }
}

/// The text of the error for a refused range `a..b` of `s`, given by
/// character positions and reported as byte offsets.
pub open spec fn lex_error_message(s: Seq<char>, a: int, b: int) -> Seq<char> {
    "Lexer error at "@ + decimal(byte_offset(s, a) as nat) + ".."@ + decimal(byte_offset(s, b) as nat)
        + ": unexpected character '"@ + seq![s[a]] + "'"@
}

/// Puts known tokens in front of a result.
pub open spec fn prepend(p: Seq<(TokV, int, int)>, r: LexResult) -> LexResult {
    match r {
        Ok(rest) => Ok(p + rest),
        Err(x) => Err(x),
    }
}

/// The values of lexed tokens with their spans.
pub open spec fn spanned_view(v: Seq<(Token, std::ops::Range<usize>)>) -> Seq<(TokV, int, int)> {
    Seq::new(v.len(), |k: int| (v[k].0@, v[k].1.start as int, v[k].1.end as int))
}

/// The tokenizer of Track source text.
/// The byte offset of each character position of `input`, whose
/// characters are `s`, and of its end.
pub(crate) fn byte_offsets(input: &str, s: &Vec<char>) -> (r: Vec<usize>)
    requires
        s@ == input@,
    ensures
        r@.len() == s@.len() + 1,
        forall|k: int| 0 <= k <= s@.len() ==> #[trigger] r@[k] == byte_offset(s@, k),
{
    broadcast use vstd::slice::axiom_spec_len;

    let total = input.as_bytes().len();
    proof {
        assert(s@.take(s@.len() as int) =~= s@);
        lemma_offset_mono(s@, 0, s@.len() as int);
    }
    let mut r: Vec<usize> = Vec::new();
    r.push(0);
    let mut k: usize = 0;
    while k < s.len()
        invariant
            k <= s@.len(),
            r@.len() == k + 1,
            forall|m: int| 0 <= m <= k ==> #[trigger] r@[m] == byte_offset(s@, m),
            byte_offset(s@, s@.len() as int) == total,
        decreases s.len() - k,
    {
        let v = s[k] as u32;
        let w: usize = if v <= 0x7F {
            1
        } else if v <= 0x7FF {
            2
        } else if v <= 0xFFFF && !(0xD800 <= v && v <= 0xDFFF) {
            3
        } else {
            4
        };
        proof {
            lemma_offset_step(s@, k as int);
            lemma_offset_mono(s@, k + 1, s@.len() as int);
        }
        let next = r[k] + w;
        r.push(next);
        k += 1;
    }
    r
}

proof fn lemma_push_span(
    prev: Seq<(Token, std::ops::Range<usize>)>,
    x: (Token, std::ops::Range<usize>),
    s: Seq<char>,
    acc: Seq<(TokV, int, int)>,
    tv: TokV,
    j: int,
    e: int,
)
    requires
        spanned_view(prev) == byte_spans(s, acc),
        x.0@ == tv,
        x.1.start as int == byte_offset(s, j),
        x.1.end as int == byte_offset(s, e),
    ensures
        spanned_view(prev.push(x)) == byte_spans(s, acc.push((tv, j, e))),
{
    let a = spanned_view(prev.push(x));
    let b = byte_spans(s, acc.push((tv, j, e)));
    assert(spanned_view(prev).len() == prev.len());
    assert(byte_spans(s, acc).len() == acc.len());
    assert(acc.len() == prev.len());
    assert(a.len() == b.len());
    assert forall|k: int| 0 <= k < a.len() implies #[trigger] a[k] == b[k] by {
        if k < prev.len() {
            assert(prev.push(x)[k] == prev[k]);
            assert(spanned_view(prev)[k] == byte_spans(s, acc)[k]);
            assert(acc.push((tv, j, e))[k] == acc[k]);
        }
    }
    assert(a =~= b);
}

pub struct Lexer;

fn is_ws_exec(c: char) -> (r: bool)
    ensures
        r == is_ws(c),
{
    c == ' ' || c == '\t' || c == '\r' || c == '\n'
}

fn is_digit_exec(c: char) -> (r: bool)
    ensures
        r == is_digit(c),
{
    '0' <= c && c <= '9'
}

fn is_ident_start_exec(c: char) -> (r: bool)
    ensures
        r == is_ident_start(c),
{
    ('a' <= c && c <= 'z') || ('A' <= c && c <= 'Z') || c == '_'
}

fn is_ident_char_exec(c: char) -> (r: bool)
    ensures
        r == is_ident_char(c),
{
    is_ident_start_exec(c) || is_digit_exec(c)
}

fn skip_trivia_exec(s: &Vec<char>, i: usize) -> (j: usize)
    requires
        i <= s.len(),
    ensures
        j == skip_trivia(s@, i as int),
{
    let mut k = i;
    while k < s.len()
        invariant
            i <= k <= s.len(),
            skip_trivia(s@, i as int) == skip_trivia(s@, k as int),
        decreases s.len() - k,
    {
        if is_ws_exec(s[k]) {
            k += 1;
        } else if s[k] == '/' && k + 1 < s.len() && s[k + 1] == '/' {
            let mut e = k + 2;
            while e < s.len() && s[e] != '\n'
                invariant
                    k + 2 <= e <= s.len(),
                    line_end(s@, (k + 2) as int) == line_end(s@, e as int),
                decreases s.len() - e,
            {
                e += 1;
            }
            k = e;
        } else {
            return k;
        }
    }
    k
}

fn ident_end_exec(s: &Vec<char>, i: usize) -> (e: usize)
    requires
        i <= s.len(),
    ensures
        e == ident_end(s@, i as int),
{
    let mut k = i;
    while k < s.len() && is_ident_char_exec(s[k])
        invariant
            i <= k <= s.len(),
            ident_end(s@, i as int) == ident_end(s@, k as int),
        decreases s.len() - k,
    {
        k += 1;
    }
    k
}

fn quote_pos_exec(s: &Vec<char>, i: usize) -> (e: usize)
    requires
        i <= s.len(),
    ensures
        e == quote_pos(s@, i as int),
{
    let mut k = i;
    while k < s.len() && s[k] != '"'
        invariant
            i <= k <= s.len(),
            quote_pos(s@, i as int) == quote_pos(s@, k as int),
        decreases s.len() - k,
    {
        k += 1;
    }
    k
}

proof fn lemma_digits_value_grows(d: Seq<char>, c: char)
    requires
        is_digit(c),
    ensures
        digits_value(d.push(c)) >= digits_value(d),
        digits_value(d.push(c)) == digits_value(d) * 10 + (c as int - '0' as int),
{
    assert(d.push(c).drop_last() == d);
}

/// Scans the digit run at `i`; returns its end and its value when it fits in `i64`.
fn digits_exec(s: &Vec<char>, i: usize) -> (r: (usize, Option<i64>))
    requires
        i < s.len(),
        is_digit(s@[i as int]),
    ensures
        r.0 == digits_end(s@, i + 1),
        r.1 matches Some(v) ==> v == digits_value(s@.subrange(i as int, r.0 as int)),
        r.1 is None <==> digits_value(s@.subrange(i as int, r.0 as int)) > i64::MAX,
{
    let mut k = i;
    let mut v: u64 = 0;
    let mut big = false;
    proof {
        lemma_scan_bounds(s@, i + 1);
    }
    while k < s.len() && is_digit_exec(s[k])
        invariant
            i <= k <= s.len(),
            k == i || is_digit(s@[i as int]),
            k > i ==> digits_end(s@, i + 1) == digits_end(s@, k as int),
            k == i ==> is_digit(s@[i as int]),
            big == (digits_value(s@.subrange(i as int, k as int)) > i64::MAX),
            !big ==> v == digits_value(s@.subrange(i as int, k as int)),
        decreases s.len() - k,
    {
        let d = (s[k] as u32 - '0' as u32) as u64;
        proof {
            lemma_digits_value_grows(s@.subrange(i as int, k as int), s@[k as int]);
            assert(s@.subrange(i as int, k + 1) == s@.subrange(i as int, k as int).push(s@[k as int]));
        }
        if !big {
            if v > (9223372036854775807u64 - d) / 10 {
                big = true;
            } else {
                v = v * 10 + d;
            }
        }
        k += 1;
    }
    if big {
        (k, None)
    } else {
        (k, Some(v as i64))
    }
}

fn keyword_a_exec(s: &Vec<char>, i: usize, e: usize) -> (r: Option<Token>)
    requires
        i <= e <= s.len(),
    ensures
        match (r, keyword_a(s@.subrange(i as int, e as int))) {
            (Some(t), Some(tv)) => t@ == tv,
            (None, None) => true,
            _ => false,
        },
{
    if chars_equal(s, i, e, &['i', 'm', 'p', 'o', 'r', 't']) {
        Some(Token::Import)
    } else if chars_equal(s, i, e, &['l', 'e', 't']) {
        Some(Token::Let)
    } else if chars_equal(s, i, e, &['m', 'u', 't']) {
        Some(Token::Mut)
    } else if chars_equal(s, i, e, &['w', 'i', 't', 'h']) {
        Some(Token::With)
    } else if chars_equal(s, i, e, &['f', 'n']) {
        Some(Token::Fn)
    } else if chars_equal(s, i, e, &['r', 'e', 't', 'u', 'r', 'n']) {
        Some(Token::Return)
    } else if chars_equal(s, i, e, &['i', 'f']) {
        Some(Token::If)
    } else if chars_equal(s, i, e, &['e', 'l', 's', 'e']) {
        Some(Token::Else)
    } else {
        None
    }
}

fn keyword_b_exec(s: &Vec<char>, i: usize, e: usize) -> (r: Option<Token>)
    requires
        i <= e <= s.len(),
    ensures
        match (r, keyword_b(s@.subrange(i as int, e as int))) {
            (Some(t), Some(tv)) => t@ == tv,
            (None, None) => true,
            _ => false,
        },
{
    if chars_equal(s, i, e, &['w', 'h', 'i', 'l', 'e']) {
        Some(Token::While)
    } else if chars_equal(s, i, e, &['f', 'o', 'r']) {
        Some(Token::For)
    } else if chars_equal(s, i, e, &['i', 'n']) {
        Some(Token::In)
    } else if chars_equal(s, i, e, &['t', 'r', 'u', 'e']) {
        Some(Token::True)
    } else if chars_equal(s, i, e, &['f', 'a', 'l', 's', 'e']) {
        Some(Token::False)
    } else if chars_equal(s, i, e, &['s', 't', 'r', 'u', 'c', 't']) {
        Some(Token::Struct)
    } else if chars_equal(s, i, e, &['e', 'n', 'u', 'm']) {
        Some(Token::Enum)
    } else if chars_equal(s, i, e, &['u', 'n', 'i', 'o', 'n']) {
        Some(Token::Union)
    } else {
        None
    }
}

fn keyword_c_exec(s: &Vec<char>, i: usize, e: usize) -> (r: Option<Token>)
    requires
        i <= e <= s.len(),
    ensures
        match (r, keyword_c(s@.subrange(i as int, e as int))) {
            (Some(t), Some(tv)) => t@ == tv,
            (None, None) => true,
            _ => false,
        },
{
    if chars_equal(s, i, e, &['m', 'a', 't', 'c', 'h']) {
        Some(Token::Match)
    } else if chars_equal(s, i, e, &['a', 's']) {
        Some(Token::As)
    } else if chars_equal(s, i, e, &['u', 's', 'e']) {
        Some(Token::Use)
    } else if chars_equal(s, i, e, &['t', 'y', 'p', 'e']) {
        Some(Token::TypeDef)
    } else if chars_equal(s, i, e, &['c', 'o', 'n', 's', 't']) {
        Some(Token::Const)
    } else if chars_equal(s, i, e, &['i', '3', '2']) {
        Some(Token::TyI32)
    } else if chars_equal(s, i, e, &['u', '3', '2']) {
        Some(Token::TyU32)
    } else if chars_equal(s, i, e, &['i', '6', '4']) {
        Some(Token::TyI64)
    } else {
        None
    }
}

fn keyword_d_exec(s: &Vec<char>, i: usize, e: usize) -> (r: Option<Token>)
    requires
        i <= e <= s.len(),
    ensures
        match (r, keyword_d(s@.subrange(i as int, e as int))) {
            (Some(t), Some(tv)) => t@ == tv,
            (None, None) => true,
            _ => false,
        },
{
    if chars_equal(s, i, e, &['u', '6', '4']) {
        Some(Token::TyU64)
    } else if chars_equal(s, i, e, &['b', 'o', 'o', 'l']) {
        Some(Token::TyBool)
    } else if chars_equal(s, i, e, &['v', 'o', 'i', 'd']) {
        Some(Token::TyVoid)
    } else if chars_equal(s, i, e, &['p', 't', 'r']) {
        Some(Token::TyPtr)
    } else if chars_equal(s, i, e, &['u', '8']) {
        Some(Token::TyU8)
    } else if chars_equal(s, i, e, &['i', '8']) {
        Some(Token::TyI8)
    } else if e - i == 1 && s[i] == '_' {
        proof {
            assert(s@.subrange(i as int, e as int) =~= seq!['_']);
        }
        Some(Token::Underscore)
    } else {
        proof {
            let ghost w = s@.subrange(i as int, e as int);
            let ghost u = seq!['_'];
            assert(u.len() == 1 && u[0] == '_');
            if w == u {
                assert(w.len() == 1);
                assert(w[0] == s@[i as int]);
            }
        }
        None
    }
}

/// The token for a word `s[i..e]`.
fn word_token_exec(s: &Vec<char>, i: usize, e: usize) -> (t: Token)
    requires
        i < e <= s.len(),
    ensures
        t@ == word_token(s@.subrange(i as int, e as int)),
{
    if let Some(t) = keyword_a_exec(s, i, e) {
        return t;
    }
    if let Some(t) = keyword_b_exec(s, i, e) {
        return t;
    }
    if let Some(t) = keyword_c_exec(s, i, e) {
        return t;
    }
    if let Some(t) = keyword_d_exec(s, i, e) {
        return t;
    }
    Token::Ident(string_from_chars(s, i, e))
}

/// The punctuation token at `i` and its length.
fn symbol_exec(s: &Vec<char>, i: usize) -> (r: Option<(Token, usize)>)
    requires
        i < s.len(),
    ensures
        match (r, symbol_token(s@, i as int)) {
            (Some((t, n)), Some((tv, m))) => t@ == tv && n == m,
            (None, None) => true,
            _ => false,
        },
{
    let c = s[i];
    let n = if i + 1 < s.len() {
        s[i + 1]
    } else {
        ' '
    };
    if c == '=' {
        if n == '=' {
            Some((Token::EqEq, 2))
        } else if n == '>' {
            Some((Token::FatArrow, 2))
        } else {
            Some((Token::Eq, 1))
        }
    } else if c == '!' {
        if n == '=' {
            Some((Token::Neq, 2))
        } else {
            Some((Token::Bang, 1))
        }
    } else if c == '{' {
        Some((Token::LBrace, 1))
    } else if c == '}' {
        Some((Token::RBrace, 1))
    } else if c == '(' {
        Some((Token::LParen, 1))
    } else if c == ')' {
        Some((Token::RParen, 1))
    } else if c == '[' {
        Some((Token::LBracket, 1))
    } else if c == ']' {
        Some((Token::RBracket, 1))
    } else if c == ',' {
        Some((Token::Comma, 1))
    } else if c == ':' {
        if n == ':' {
            Some((Token::ColonColon, 2))
        } else {
            Some((Token::Colon, 1))
        }
    } else if c == '-' {
        if n == '>' {
            Some((Token::Arrow, 2))
        } else {
            Some((Token::Minus, 1))
        }
    } else if c == ';' {
        Some((Token::Semicolon, 1))
    } else if c == '.' {
        if n == '.' {
            Some((Token::DotDot, 2))
        } else {
            Some((Token::Dot, 1))
        }
    } else if c == '&' {
        if n == '&' {
            Some((Token::AmpAmp, 2))
        } else {
            Some((Token::Amp, 1))
        }
    } else if c == '|' {
        if n == '|' {
            Some((Token::PipePipe, 2))
        } else {
            Some((Token::Pipe, 1))
        }
    } else if c == '*' {
        Some((Token::Star, 1))
    } else if c == '+' {
        Some((Token::Plus, 1))
    } else if c == '/' {
        Some((Token::Slash, 1))
    } else if c == '%' {
        Some((Token::Percent, 1))
    } else if c == '<' {
        if n == '=' {
            Some((Token::Lte, 2))
        } else if n == '<' {
            Some((Token::Shl, 2))
        } else {
            Some((Token::Lt, 1))
        }
    } else if c == '>' {
        if n == '=' {
            Some((Token::Gte, 2))
        } else if n == '>' {
            Some((Token::Shr, 2))
        } else {
            Some((Token::Gt, 1))
        }
    } else if c == '@' {
        if s.len() - i >= 6 && chars_equal(s, i, i + 6, &['@', 'm', 'a', 'c', 'r', 'o']) {
            Some((Token::AtMacro, 6))
        } else if s.len() - i >= 4 && chars_equal(s, i, i + 4, &['@', 'u', 's', 'e']) {
            Some((Token::AtUse, 4))
        } else {
            Some((Token::At, 1))
        }
    } else {
        None
    }
}

impl Lexer {
    /// Splits source text into tokens with their character ranges.
    ///
    /// Whitespace and `//` line comments are skipped; every other character
    /// must begin a token, else the result is an error naming the refused
    /// range and its first character.
    pub fn tokenize(input: &str) -> (r: Result<Vec<(Token, std::ops::Range<usize>)>, String>)
        ensures
            match spec_tokenize(input@) {
                Ok(ts) => r is Ok && spanned_view(r->Ok_0@) == byte_spans(input@, ts),
                Err((a, b)) => r is Err && r->Err_0@ == lex_error_message(input@, a, b),
            },
    {
        let s = chars_of(input);
        let offs = byte_offsets(input, &s);
        let mut tokens: Vec<(Token, std::ops::Range<usize>)> = Vec::new();
        let ghost mut acc: Seq<(TokV, int, int)> = Seq::empty();
        let mut i: usize = 0;
        proof {
            assert(prepend(Seq::empty(), lex_from(s@, 0)) == lex_from(s@, 0)) by {
                match lex_from(s@, 0) {
                    Ok(r) => assert(Seq::<(TokV, int, int)>::empty() + r == r),
                    Err(_) => {},
                }
            }
            assert(spanned_view(tokens@) =~= byte_spans(s@, acc));
        }
        loop
            invariant
                s@ == input@,
                i <= s.len(),
                offs@.len() == s@.len() + 1,
                forall|k: int| 0 <= k <= s@.len() ==> #[trigger] offs@[k] == byte_offset(s@, k),
                spec_tokenize(input@) == prepend(acc, lex_from(s@, i as int)),
                spanned_view(tokens@) == byte_spans(s@, acc),
            decreases s.len() - i,
        {
            let j = skip_trivia_exec(&s, i);
            proof {
                lemma_skip_trivia_bounds(s@, i as int);
            }
            if j >= s.len() {
                proof {
                    assert(acc + Seq::<(TokV, int, int)>::empty() == acc);
                }
                return Ok(tokens);
            }
            proof {
                lemma_lex_at_progress(s@, j as int);
                lemma_scan_bounds(s@, j + 1);
            }
            let c = s[j];
            let step: Option<(Token, usize)>;
            let mut fail_end: usize = j + 1;
            if is_ident_start_exec(c) {
                let e = ident_end_exec(&s, j + 1);
                step = Some((word_token_exec(&s, j, e), e));
            } else if is_digit_exec(c) {
                let (e, v) = digits_exec(&s, j);
                match v {
                    Some(x) => {
                        step = Some((Token::Int(x), e));
                    },
                    None => {
                        step = None;
                        fail_end = e;
                    },
                }
            } else if c == '"' {
                let q = quote_pos_exec(&s, j + 1);
                if q < s.len() {
                    step = Some((Token::Str(string_from_chars(&s, j + 1, q)), q + 1));
                } else {
                    step = None;
                }
            } else {
                match symbol_exec(&s, j) {
                    Some((t, n)) => {
                        step = Some((t, j + n));
                    },
                    None => {
                        step = None;
                    },
                }
            }
            match step {
                Some((t, e)) => {
                    proof {
                        match lex_at(s@, j as int) {
                            LexStep::Tok(tv, ee) => {
                                assert(tv == t@ && ee == e);
                            },
                            LexStep::Fail(_) => {
                                assert(false);
                            },
                        }
                    }
                    let ghost before = acc;
                    let span = std::ops::Range { start: offs[j], end: offs[e] };
                    let ghost prev = tokens@;
                    let ghost tv = t@;
                    tokens.push((t, span));
                    proof {
                        assert(offs@[j as int] == byte_offset(s@, j as int));
                        assert(offs@[e as int] == byte_offset(s@, e as int));
                        lemma_push_span(prev, tokens@.last(), s@, before, tv, j as int, e as int);
                        assert(tokens@ == prev.push(tokens@.last()));
                        acc = acc.push((tv, j as int, e as int));
                        match lex_from(s@, e as int) {
                            Ok(rest) => {
                                assert(before + (seq![(tv, j as int, e as int)] + rest) == acc + rest);
                            },
                            Err(_) => {},
                        }
                    }
                    i = e;
                },
                None => {
                    proof {
                        match lex_at(s@, j as int) {
                            LexStep::Tok(_, _) => {
                                assert(false);
                            },
                            LexStep::Fail(ee) => {
                                assert(ee == fail_end);
                            },
                        }
                    }
                    let mut msg = string_of("Lexer error at ");
                    push_usize(&mut msg, offs[j]);
                    push_str(&mut msg, "..");
                    push_usize(&mut msg, offs[fail_end]);
                    push_str(&mut msg, ": unexpected character '");
                    push_char(&mut msg, c);
                    push_str(&mut msg, "'");
                    proof {
                        assert(msg@ =~= lex_error_message(input@, j as int, fail_end as int));
                    }
                    return Err(msg);
                },
            }
        }
    }
}


/// The text of a character sequence as `{:?}` prints a string: quoted, with
/// quotes, backslashes and the common control characters escaped.
pub open spec fn debug_text(s: Seq<char>) -> Seq<char> {
    seq!['"'] + escaped(s) + seq!['"']
}

/// The escaped form of each character, concatenated.
pub open spec fn escaped(s: Seq<char>) -> Seq<char>
    decreases s.len(),
{
    if s.len() == 0 {
        Seq::empty()
    } else {
        escaped(s.drop_last()) + escape_char(s.last())
    }
}

/// The escaped form of one character.
pub open spec fn escape_char(c: char) -> Seq<char> {
    if c == '"' {
        seq!['\\', '"']
    } else if c == '\\' {
        seq!['\\', '\\']
    } else if c == '\n' {
        seq!['\\', 'n']
    } else if c == '\r' {
        seq!['\\', 'r']
    } else if c == '\t' {
        seq!['\\', 't']
    } else if c == '\0' {
        seq!['\\', '0']
    } else {
        seq![c]
    }
}

/// The text that `{:?}` prints for a token.
pub open spec fn debug_token(t: TokV) -> Seq<char> {
    match t {
        TokV::Import => "Import"@,
        TokV::Let => "Let"@,
        TokV::Mut => "Mut"@,
        TokV::With => "With"@,
        TokV::Fn => "Fn"@,
        TokV::Return => "Return"@,
        TokV::If => "If"@,
        TokV::Else => "Else"@,
        TokV::While => "While"@,
        TokV::For => "For"@,
        TokV::In => "In"@,
        TokV::True => "True"@,
        TokV::False => "False"@,
        TokV::Struct => "Struct"@,
        TokV::Enum => "Enum"@,
        TokV::Union => "Union"@,
        TokV::Match => "Match"@,
        TokV::As => "As"@,
        TokV::Use => "Use"@,
        TokV::TypeDef => "TypeDef"@,
        TokV::AtMacro => "AtMacro"@,
        TokV::AtUse => "AtUse"@,
        TokV::Const => "Const"@,
        TokV::At => "At"@,
        TokV::TyI32 => "TyI32"@,
        TokV::TyU32 => "TyU32"@,
        TokV::TyI64 => "TyI64"@,
        TokV::TyU64 => "TyU64"@,
        TokV::TyBool => "TyBool"@,
        TokV::TyVoid => "TyVoid"@,
        TokV::TyPtr => "TyPtr"@,
        TokV::TyU8 => "TyU8"@,
        TokV::TyI8 => "TyI8"@,
        TokV::Eq => "Eq"@,
        TokV::EqEq => "EqEq"@,
        TokV::Neq => "Neq"@,
        TokV::Bang => "Bang"@,
        TokV::LBrace => "LBrace"@,
        TokV::RBrace => "RBrace"@,
        TokV::LParen => "LParen"@,
        TokV::RParen => "RParen"@,
        TokV::LBracket => "LBracket"@,
        TokV::RBracket => "RBracket"@,
        TokV::Comma => "Comma"@,
        TokV::Colon => "Colon"@,
        TokV::ColonColon => "ColonColon"@,
        TokV::Arrow => "Arrow"@,
        TokV::FatArrow => "FatArrow"@,
        TokV::Semicolon => "Semicolon"@,
        TokV::Dot => "Dot"@,
        TokV::DotDot => "DotDot"@,
        TokV::Underscore => "Underscore"@,
        TokV::Amp => "Amp"@,
        TokV::Pipe => "Pipe"@,
        TokV::Star => "Star"@,
        TokV::Plus => "Plus"@,
        TokV::Minus => "Minus"@,
        TokV::Slash => "Slash"@,
        TokV::Percent => "Percent"@,
        TokV::Lt => "Lt"@,
        TokV::Gt => "Gt"@,
        TokV::Lte => "Lte"@,
        TokV::Gte => "Gte"@,
        TokV::AmpAmp => "AmpAmp"@,
        TokV::PipePipe => "PipePipe"@,
        TokV::Shl => "Shl"@,
        TokV::Shr => "Shr"@,
        TokV::Int(v) => "Int("@ + signed_decimal(v as int) + ")"@,
        TokV::Str(s) => "Str("@ + debug_text(s) + ")"@,
        TokV::Ident(s) => "Ident("@ + debug_text(s) + ")"@,
    }
}

/// The text that `{:?}` prints for an optional token.
pub open spec fn debug_opt_token(t: Option<TokV>) -> Seq<char> {
    match t {
        Some(t) => "Some("@ + debug_token(t) + ")"@,
        None => "None"@,
    }
}

fn push_escaped_char(s: &mut String, c: char)
    ensures
        final(s)@ == old(s)@ + escape_char(c),
{
    if c == '"' {
        push_char(s, '\\');
        push_char(s, '"');
    } else if c == '\\' {
        push_char(s, '\\');
        push_char(s, '\\');
    } else if c == '\n' {
        push_char(s, '\\');
        push_char(s, 'n');
    } else if c == '\r' {
        push_char(s, '\\');
        push_char(s, 'r');
    } else if c == '\t' {
        push_char(s, '\\');
        push_char(s, 't');
    } else if c == '\0' {
        push_char(s, '\\');
        push_char(s, '0');
    } else {
        push_char(s, c);
    }
    proof {
        assert(final(s)@ =~= old(s)@ + escape_char(c));
    }
}

/// Appends the `{:?}` text of a string to `s`.
pub fn push_debug_text(s: &mut String, t: &String)
    ensures
        final(s)@ == old(s)@ + debug_text(t@),
{
    let v = chars_of(t.as_str());
    push_char(s, '"');
    let ghost start = s@;
    let mut i: usize = 0;
    while i < v.len()
        invariant
            i <= v.len(),
            v@ == t@,
            s@ == start + escaped(v@.take(i as int)),
        decreases v.len() - i,
    {
        let ghost before = s@;
        push_escaped_char(s, v[i]);
        proof {
            assert(v@.take(i + 1).drop_last() == v@.take(i as int));
            assert(s@ == start + escaped(v@.take(i as int)) + escape_char(v@[i as int]));
            assert(s@ =~= start + escaped(v@.take(i + 1)));
        }
        i += 1;
    }
    push_char(s, '"');
    proof {
        assert(v@.take(v@.len() as int) == v@);
        assert(s@ =~= old(s)@ + debug_text(t@));
    }
}

impl Token {
    /// Appends the `{:?}` text of the token to `s`.
    pub fn push_debug(&self, s: &mut String)
        ensures
            final(s)@ == old(s)@ + debug_token(self@),
    {
        match self {
            Token::Import => push_str(s, "Import"),
            Token::Let => push_str(s, "Let"),
            Token::Mut => push_str(s, "Mut"),
            Token::With => push_str(s, "With"),
            Token::Fn => push_str(s, "Fn"),
            Token::Return => push_str(s, "Return"),
            Token::If => push_str(s, "If"),
            Token::Else => push_str(s, "Else"),
            Token::While => push_str(s, "While"),
            Token::For => push_str(s, "For"),
            Token::In => push_str(s, "In"),
            Token::True => push_str(s, "True"),
            Token::False => push_str(s, "False"),
            Token::Struct => push_str(s, "Struct"),
            Token::Enum => push_str(s, "Enum"),
            Token::Union => push_str(s, "Union"),
            Token::Match => push_str(s, "Match"),
            Token::As => push_str(s, "As"),
            Token::Use => push_str(s, "Use"),
            Token::TypeDef => push_str(s, "TypeDef"),
            Token::AtMacro => push_str(s, "AtMacro"),
            Token::AtUse => push_str(s, "AtUse"),
            Token::Const => push_str(s, "Const"),
            Token::At => push_str(s, "At"),
            Token::TyI32 => push_str(s, "TyI32"),
            Token::TyU32 => push_str(s, "TyU32"),
            Token::TyI64 => push_str(s, "TyI64"),
            Token::TyU64 => push_str(s, "TyU64"),
            Token::TyBool => push_str(s, "TyBool"),
            Token::TyVoid => push_str(s, "TyVoid"),
            Token::TyPtr => push_str(s, "TyPtr"),
            Token::TyU8 => push_str(s, "TyU8"),
            Token::TyI8 => push_str(s, "TyI8"),
            Token::Eq => push_str(s, "Eq"),
            Token::EqEq => push_str(s, "EqEq"),
            Token::Neq => push_str(s, "Neq"),
            Token::Bang => push_str(s, "Bang"),
            Token::LBrace => push_str(s, "LBrace"),
            Token::RBrace => push_str(s, "RBrace"),
            Token::LParen => push_str(s, "LParen"),
            Token::RParen => push_str(s, "RParen"),
            Token::LBracket => push_str(s, "LBracket"),
            Token::RBracket => push_str(s, "RBracket"),
            Token::Comma => push_str(s, "Comma"),
            Token::Colon => push_str(s, "Colon"),
            Token::ColonColon => push_str(s, "ColonColon"),
            Token::Arrow => push_str(s, "Arrow"),
            Token::FatArrow => push_str(s, "FatArrow"),
            Token::Semicolon => push_str(s, "Semicolon"),
            Token::Dot => push_str(s, "Dot"),
            Token::DotDot => push_str(s, "DotDot"),
            Token::Underscore => push_str(s, "Underscore"),
            Token::Amp => push_str(s, "Amp"),
            Token::Pipe => push_str(s, "Pipe"),
            Token::Star => push_str(s, "Star"),
            Token::Plus => push_str(s, "Plus"),
            Token::Minus => push_str(s, "Minus"),
            Token::Slash => push_str(s, "Slash"),
            Token::Percent => push_str(s, "Percent"),
            Token::Lt => push_str(s, "Lt"),
            Token::Gt => push_str(s, "Gt"),
            Token::Lte => push_str(s, "Lte"),
            Token::Gte => push_str(s, "Gte"),
            Token::AmpAmp => push_str(s, "AmpAmp"),
            Token::PipePipe => push_str(s, "PipePipe"),
            Token::Shl => push_str(s, "Shl"),
            Token::Shr => push_str(s, "Shr"),
            Token::Int(v) => {
                push_str(s, "Int(");
                push_i64(s, *v);
                push_str(s, ")");
                proof {
                    assert(final(s)@ =~= old(s)@ + debug_token(self@));
                }
            },
            Token::Str(t) => {
                push_str(s, "Str(");
                push_debug_text(s, t);
                push_str(s, ")");
                proof {
                    assert(final(s)@ =~= old(s)@ + debug_token(self@));
                }
            },
            Token::Ident(t) => {
                push_str(s, "Ident(");
                push_debug_text(s, t);
                push_str(s, ")");
                proof {
                    assert(final(s)@ =~= old(s)@ + debug_token(self@));
                }
            },
        }
    }
}

/// Appends the `{:?}` text of an optional token to `s`.
pub fn push_debug_opt(s: &mut String, t: Option<&Token>)
    ensures
        final(s)@ == old(s)@ + debug_opt_token(
            match t {
                Some(t) => Some(t@),
                None => None,
            },
        ),
{
    match t {
        Some(t) => {
            push_str(s, "Some(");
            t.push_debug(s);
            push_str(s, ")");
            proof {
                assert(final(s)@ =~= old(s)@ + debug_opt_token(Some(t@)));
            }
        },
        None => push_str(s, "None"),
    }
}

/// The `{:?}` text of an optional string.
pub open spec fn debug_opt_text(o: Option<Seq<char>>) -> Seq<char> {
    match o {
        Some(t) => "Some("@ + debug_text(t) + ")"@,
        None => "None"@,
    }
}

/// Appends the `{:?}` text of an optional string.
pub fn push_debug_opt_text(s: &mut String, o: &Option<String>)
    ensures
        final(s)@ == old(s)@ + debug_opt_text(
            match *o {
                Some(t) => Some(t@),
                None => None,
            },
        ),
{
    match o {
        Some(t) => {
            push_str(s, "Some(");
            push_debug_text(s, t);
            push_str(s, ")");
        },
        None => push_str(s, "None"),
    }
}

} // verus!
