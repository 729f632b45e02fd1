use vstd::prelude::*;
use crate::ast::{Expr, TrackType, TypeV};
use crate::lexer::{debug_opt_token, debug_token, push_debug_opt, TokV, Token};
use crate::text::{push_str, string_of};
use self::stmt::{goes_on, lemma_trace_push, statement_outcome, statements_trace};

verus! {

/// A recursive-descent parser over a token list.
pub struct Parser {
    tokens: Vec<(Token, std::ops::Range<usize>)>,
    pos: usize,
    /// Whether `Name { .. }` may be read as a struct literal (off inside
    /// `if`, `while` and `for` headers and `match` targets).
    pub allow_struct: bool,
}

/// The outcome of parsing a type from a token position: the type and the
/// position after it, or the error text.
pub enum TypeParse {
    Parsed(TypeV, int),
    Failed(Seq<char>),
}

impl Parser {
    /// The position stays within the token list.
    pub closed spec fn wf(&self) -> bool {
        self.pos <= self.tokens@.len() && self.tokens@.len() == self.toks().len()
    }

    /// The values of the tokens.
    pub closed spec fn toks(&self) -> Seq<TokV> {
        Seq::new(self.tokens@.len(), |i: int| self.tokens@[i].0@)
    }

    /// The source span of each token, as its start and end.
    pub closed spec fn spans(&self) -> Seq<(int, int)> {
        Seq::new(self.tokens@.len(), |i: int| (self.tokens@[i].1.start as int, self.tokens@[i].1.end as int))
    }

    /// The index of the next token.
    pub closed spec fn position(&self) -> int {
        self.pos as int
    }

    /// The next token's value, if any.
    pub open spec fn next_tok(&self) -> Option<TokV> {
        if 0 <= self.position() < self.toks().len() {
            Some(self.toks()[self.position()])
        } else {
            None
        }
    }

    /// `new` has the tokens of `old` and its position is not before `old`'s.
    pub open spec fn moved(old: Parser, new: Parser) -> bool {
        &&& new.wf()
        &&& new.toks() == old.toks()
        &&& old.position() <= new.position()
        &&& new.position() <= new.toks().len()
    }

    /// Like `moved`, and at least one token was consumed.
    pub open spec fn progressed(old: Parser, new: Parser) -> bool {
        &&& Self::moved(old, new)
        &&& old.position() < new.position()
    }

    /// Whether struct literals are read at the moment.
    pub closed spec fn allows_struct(&self) -> bool {
        self.allow_struct
    }

    /// The number of tokens.
    pub open spec fn len(&self) -> int {
        self.toks().len() as int
    }

    /// A well-formed parser's position is within its tokens.
    pub proof fn lemma_wf(&self)
        requires
            self.wf(),
        ensures
            0 <= self.position() <= self.len(),
    {
    }

    /// `new` comes from `old` by parsing: it moved forward, and it consumed at
    /// least one token when the parse succeeded.
    pub open spec fn step_ok(old: Parser, new: Parser, ok: bool) -> bool {
        &&& Self::moved(old, new)
        &&& (ok ==> Self::progressed(old, new))
    }

    /// A parser at the first of the given tokens.
    pub fn new(tokens: Vec<(Token, std::ops::Range<usize>)>, _source: String) -> (p: Self)
        ensures
            p.wf(),
            p.position() == 0,
            p.allows_struct(),
            p.toks() == Seq::new(tokens@.len(), |i: int| tokens@[i].0@),
            p.spans() == Seq::new(tokens@.len(), |i: int| (tokens@[i].1.start as int, tokens@[i].1.end as int)),
    {
        Self { tokens, pos: 0, allow_struct: true }
    }

    /// The next token, without consuming it.
    pub fn peek(&self) -> (r: Option<&Token>)
        requires
            self.wf(),
        ensures
            match r {
                Some(t) => self.next_tok() == Some(t@),
                None => self.next_tok() is None,
            },
    {
        if self.pos < self.tokens.len() {
            Some(&self.tokens[self.pos].0)
        } else {
            None
        }
    }

    /// Whether the next token has the value of `t`.
    pub fn peek_is(&self, t: &Token) -> (r: bool)
        requires
            self.wf(),
        ensures
            r == (self.next_tok() == Some(t@)),
    {
        match self.peek() {
            Some(n) => n.same(t),
            None => false,
        }
    }

    /// The token `k` places after the next one, without consuming anything.
    pub fn peek_ahead(&self, k: usize) -> (r: Option<&Token>)
        requires
            self.wf(),
        ensures
            match r {
                Some(t) => self.position() + k < self.toks().len() && t@ == self.toks()[
                    self.position() + k],
                None => self.position() + k >= self.toks().len(),
            },
    {
        if k < self.tokens.len() - self.pos {
            Some(&self.tokens[self.pos + k].0)
        } else {
            None
        }
    }

    /// Consumes the next token and returns a copy of it with its range.
    pub fn advance(&mut self) -> (r: Option<(Token, std::ops::Range<usize>)>)
        requires
            old(self).wf(),
        ensures
            Self::moved(*old(self), *final(self)),
            final(self).allows_struct() == old(self).allows_struct(),
            final(self).spans() == old(self).spans(),
            match r {
                Some((t, sp)) => old(self).next_tok() == Some(t@) && final(self).position() == old(self).position()
                    + 1 && (sp.start as int, sp.end as int) == old(self).spans()[old(self).position()],
                None => old(self).next_tok() is None && final(self).position() == old(
                    self,
                ).position(),
            },
    {
        if self.pos < self.tokens.len() {
            let t = self.tokens[self.pos].0.copy();
            let span = self.tokens[self.pos].1.start..self.tokens[self.pos].1.end;
            self.pos += 1;
            Some((t, span))
        } else {
            None
        }
    }

    /// Consumes one token without looking at it.
    pub fn skip(&mut self)
        requires
            old(self).wf(),
        ensures
            Self::moved(*old(self), *final(self)),
            final(self).allows_struct() == old(self).allows_struct(),
            final(self).position() == step(old(self).toks(), old(self).position()),
    {
        if self.pos < self.tokens.len() {
            self.pos += 1;
        }
    }

    /// Consumes the next token; it must have the value of `expected`.
    pub fn expect(&mut self, expected: &Token) -> (r: Result<(), String>)
        requires
            old(self).wf(),
        ensures
            Self::moved(*old(self), *final(self)),
            final(self).allows_struct() == old(self).allows_struct(),
            final(self).position() == step(old(self).toks(), old(self).position()),
            r is Ok <==> old(self).next_tok() == Some(expected@),
            r matches Err(m) ==> m@ == "Parser error: expected "@ + debug_token(expected@)
                + ", got "@ + debug_opt_token(old(self).next_tok()),
    {
        let ghost got = self.next_tok();
        match self.advance() {
            Some((tok, _)) => {
                if tok.same(expected) {
                    Ok(())
                } else {
                    Err(expected_message(expected, Some(&tok)))
                }
            },
            None => Err(expected_message(expected, None)),
        }
    }

    /// Consumes the next token; it must be an identifier, whose name is returned.
    pub fn expect_ident(&mut self) -> (r: Result<String, String>)
        requires
            old(self).wf(),
        ensures
            Self::moved(*old(self), *final(self)),
            final(self).allows_struct() == old(self).allows_struct(),
            final(self).position() == step(old(self).toks(), old(self).position()),
            match old(self).next_tok() {
                Some(TokV::Ident(name)) => r is Ok && r->Ok_0@ == name,
                other => r is Err && r->Err_0@ == "Parser error: expected identifier, got "@
                    + debug_opt_token(other),
            },
    {
        match self.advance() {
            Some((Token::Ident(name), _)) => Ok(name),
            Some((tok, _)) => {
                let mut m = string_of("Parser error: expected identifier, got ");
                push_debug_opt(&mut m, Some(&tok));
                Err(m)
            },
            None => {
                let mut m = string_of("Parser error: expected identifier, got ");
                push_debug_opt(&mut m, None);
                Err(m)
            },
        }
    }

    /// Parses a type.
    ///
    /// Types are `i8 u8 i32 u32 i64 u64 bool void`, `ptr<T>`, `&T`, a name,
    /// `[]T` (slice), `[T; n]` (array) and `(T1, ...)` (tuple).
    pub fn parse_type(&mut self) -> (r: Result<TrackType, String>)
        requires
            old(self).wf(),
        ensures
            Self::moved(*old(self), *final(self)),
            final(self).allows_struct() == old(self).allows_struct(),
            match spec_parse_type(old(self).toks(), old(self).position()) {
                TypeParse::Parsed(t, e) => r is Ok && r->Ok_0@ == t && final(self).position() == e,
                TypeParse::Failed(m) => r is Err && r->Err_0@ == m,
            },
        decreases old(self).len() - old(self).position(),
    {
        let ghost s = self.toks();
        let ghost p = self.position();
        match self.peek() {
            Some(Token::TyI32) => {
                self.skip();
                Ok(TrackType::I32)
            },
            Some(Token::TyU32) => {
                self.skip();
                Ok(TrackType::U32)
            },
            Some(Token::TyI64) => {
                self.skip();
                Ok(TrackType::I64)
            },
            Some(Token::TyU64) => {
                self.skip();
                Ok(TrackType::U64)
            },
            Some(Token::TyU8) => {
                self.skip();
                Ok(TrackType::U8)
            },
            Some(Token::TyI8) => {
                self.skip();
                Ok(TrackType::I8)
            },
            Some(Token::TyBool) => {
                self.skip();
                Ok(TrackType::Bool)
            },
            Some(Token::TyVoid) => {
                self.skip();
                Ok(TrackType::Void)
            },
            Some(Token::TyPtr) => {
                self.skip();
                self.expect(&Token::Lt)?;
                let inner = self.parse_type()?;
                self.expect(&Token::Gt)?;
                Ok(TrackType::Ptr(Box::new(inner)))
            },
            Some(Token::Amp) => {
                self.skip();
                let inner = self.parse_type()?;
                Ok(TrackType::Ref(Box::new(inner)))
            },
            Some(Token::Ident(name)) => {
                let n = name.clone();
                self.skip();
                Ok(TrackType::Custom(n))
            },
            Some(Token::LBracket) => {
                self.skip();
                if self.peek_is(&Token::RBracket) {
                    self.skip();
                    let inner = self.parse_type()?;
                    return Ok(TrackType::Slice(Box::new(inner)));
                }
                let elem_type = self.parse_type()?;
                self.expect(&Token::Semicolon)?;
                let ghost q = self.position();
                match self.advance() {
                    Some((Token::Int(n), _)) => {
                        self.expect(&Token::RBracket)?;
                        Ok(TrackType::Array(Box::new(elem_type), #[verifier::truncate] (n as usize)))
                    },
                    Some((tok, _)) => {
                        let mut m = string_of("Parser error: expected array size, got ");
                        push_debug_opt(&mut m, Some(&tok));
                        Err(m)
                    },
                    None => {
                        let mut m = string_of("Parser error: expected array size, got ");
                        push_debug_opt(&mut m, None);
                        Err(m)
                    },
                }
            },
            Some(Token::LParen) => {
                self.skip();
                let mut elems: Vec<TrackType> = Vec::new();
                let ghost done = Seq::<TypeV>::empty();
                proof {
                    crate::ast::lemma_types_view(elems@);
                }
                if self.peek_is(&Token::RParen) {
                    self.skip();
                    proof {
                        assert(crate::ast::types_view(elems@) =~= Seq::empty());
                    }
                    return Ok(TrackType::Tuple(elems));
                }
                loop
                    invariant
                        self.wf(),
                        self.toks() == s,
                        p < self.position(),
                        self.allows_struct() == old(self).allows_struct(),
                        s.len() == old(self).len(),
                        self.len() == old(self).len(),
                        old(self).toks() == s,
                        old(self).position() == p,
                        spec_parse_type(s, p) == spec_tuple_rest(
                            s,
                            self.position(),
                            crate::ast::types_view(elems@),
                        ),
                    decreases self.len() - self.position(),
                {
                    let ghost q = self.position();
                    let ghost before = elems@;
                    proof {
                        lemma_parse_type_progress(s, q);
                    }
                    let t = self.parse_type()?;
                    elems.push(t);
                    proof {
                        assert(elems@.drop_last() == before);
                        assert(crate::ast::types_view(elems@) == crate::ast::types_view(before).push(
                            t@,
                        ));
                    }
                    if self.peek_is(&Token::Comma) {
                        self.skip();
                        if self.peek_is(&Token::RParen) {
                            self.skip();
                            return Ok(TrackType::Tuple(elems));
                        }
                    } else {
                        self.expect(&Token::RParen)?;
                        return Ok(TrackType::Tuple(elems));
                    }
                }
            },
            _ => {
                let mut m = string_of("Parser error: expected type, got ");
                push_debug_opt(&mut m, self.peek());
                Err(m)
            },
        }
    }

    /// Parses a whole program: statements until the tokens run out.
    pub fn parse_program(&mut self) -> (r: Result<Vec<Expr>, String>)
        requires
            old(self).wf(),
        ensures
            Self::moved(*old(self), *final(self)),
            r is Ok ==> final(self).position() == final(self).toks().len(),
            r is Ok ==> exists|ps: Seq<Parser>|
                #[trigger] statements_trace(ps, r->Ok_0@, false, false) && ps[0] == *old(self) && ps.last()
                    == *final(self),
            r matches Err(m) ==> exists|ps: Seq<Parser>, v: Seq<Expr>|
                #[trigger] statements_trace(ps, v, false, false) && ps[0] == *old(self) && goes_on(
                    ps.last(),
                    false,
                    false,
                ) && statement_outcome(ps.last(), *final(self), Err(m)),
    {
        let ghost mut ps: Seq<Parser> = seq![*self];
        let mut stmts: Vec<Expr> = Vec::new();
        while self.peek().is_some()
            invariant
                self.wf(),
                Self::moved(*old(self), *self),
                statements_trace(ps, stmts@, false, false),
                ps[0] == *old(self),
                ps.last() == *self,
            decreases self.len() - self.position(),
        {
            let ghost before = *self;
            let res = self.parse_statement();
            let stmt = match res {
                Ok(stmt) => stmt,
                Err(m) => {
                    proof {
                        assert(statements_trace(ps, stmts@, false, false));
                    }
                    return Err(m);
                },
            };
            proof {
                lemma_trace_push(ps, stmts@, false, false, *self, stmt);
                ps = ps.push(*self);
            }
            stmts.push(stmt);
        }
        proof {
            self.lemma_wf();
            assert(statements_trace(ps, stmts@, false, false));
            assert(ps[0] == *old(self));
            assert(ps.last() == *self);
        }
        let result: Result<Vec<Expr>, String> = Ok(stmts);
        proof {
            assert(statements_trace(ps, result->Ok_0@, false, false));
        }
        result
    }
}

/// The error text for an unexpected token where `expected` was required.
fn expected_message(expected: &Token, got: Option<&Token>) -> (m: String)
    ensures
        m@ == "Parser error: expected "@ + debug_token(expected@) + ", got "@ + debug_opt_token(
            match got {
                Some(t) => Some(t@),
                None => None,
            },
        ),
{
    let mut m = string_of("Parser error: expected ");
    expected.push_debug(&mut m);
    push_str(&mut m, ", got ");
    push_debug_opt(&mut m, got);
    proof {
        assert(m@ =~= "Parser error: expected "@ + debug_token(expected@) + ", got "@
            + debug_opt_token(
            match got {
                Some(t) => Some(t@),
                None => None,
            },
        ));
    }
    m
}

/// The token at `i`, if any.
pub open spec fn tok_at(s: Seq<TokV>, i: int) -> Option<TokV> {
    if 0 <= i < s.len() {
        Some(s[i])
    } else {
        None
    }
}

/// The error text when `expected` was required at `i`.
pub open spec fn expect_error(s: Seq<TokV>, i: int, expected: TokV) -> Seq<char> {
    "Parser error: expected "@ + debug_token(expected) + ", got "@ + debug_opt_token(tok_at(s, i))
}

/// The position after consuming the token at `i` (none is consumed at the end).
pub open spec fn step(s: Seq<TokV>, i: int) -> int {
    if 0 <= i < s.len() {
        i + 1
    } else {
        i
    }
}

/// The type that starts at token `i`, with the position after it.
pub open spec fn spec_parse_type(s: Seq<TokV>, i: int) -> TypeParse
    decreases s.len() - i, 1nat,
{
    if i < 0 || i >= s.len() {
        TypeParse::Failed("Parser error: expected type, got "@ + debug_opt_token(tok_at(s, i)))
    } else {
        match s[i] {
            TokV::TyI32 => TypeParse::Parsed(TypeV::I32, i + 1),
            TokV::TyU32 => TypeParse::Parsed(TypeV::U32, i + 1),
            TokV::TyI64 => TypeParse::Parsed(TypeV::I64, i + 1),
            TokV::TyU64 => TypeParse::Parsed(TypeV::U64, i + 1),
            TokV::TyU8 => TypeParse::Parsed(TypeV::U8, i + 1),
            TokV::TyI8 => TypeParse::Parsed(TypeV::I8, i + 1),
            TokV::TyBool => TypeParse::Parsed(TypeV::Bool, i + 1),
            TokV::TyVoid => TypeParse::Parsed(TypeV::Void, i + 1),
            TokV::TyPtr => {
                if tok_at(s, i + 1) != Some(TokV::Lt) {
                    TypeParse::Failed(expect_error(s, i + 1, TokV::Lt))
                } else {
                    match spec_parse_type(s, i + 2) {
                        TypeParse::Parsed(inner, e) => {
                            if tok_at(s, e) == Some(TokV::Gt) {
                                TypeParse::Parsed(TypeV::Ptr(Box::new(inner)), e + 1)
                            } else {
                                TypeParse::Failed(expect_error(s, e, TokV::Gt))
                            }
                        },
                        TypeParse::Failed(m) => TypeParse::Failed(m),
                    }
                }
            },
            TokV::Amp => match spec_parse_type(s, i + 1) {
                TypeParse::Parsed(inner, e) => TypeParse::Parsed(TypeV::Ref(Box::new(inner)), e),
                TypeParse::Failed(m) => TypeParse::Failed(m),
            },
            TokV::Ident(name) => TypeParse::Parsed(TypeV::Custom(name), i + 1),
            TokV::LBracket => {
                if tok_at(s, i + 1) == Some(TokV::RBracket) {
                    match spec_parse_type(s, i + 2) {
                        TypeParse::Parsed(inner, e) => TypeParse::Parsed(
                            TypeV::Slice(Box::new(inner)),
                            e,
                        ),
                        TypeParse::Failed(m) => TypeParse::Failed(m),
                    }
                } else {
                    match spec_parse_type(s, i + 1) {
                        TypeParse::Parsed(elem, e) => {
                            if tok_at(s, e) != Some(TokV::Semicolon) {
                                TypeParse::Failed(expect_error(s, e, TokV::Semicolon))
                            } else {
                                match tok_at(s, e + 1) {
                                    Some(TokV::Int(n)) => {
                                        if tok_at(s, e + 2) == Some(TokV::RBracket) {
                                            TypeParse::Parsed(
                                                TypeV::Array(Box::new(elem), n as usize),
                                                e + 3,
                                            )
                                        } else {
                                            TypeParse::Failed(
                                                expect_error(s, step(s, e + 1), TokV::RBracket),
                                            )
                                        }
                                    },
                                    other => TypeParse::Failed(
                                        "Parser error: expected array size, got "@
                                            + debug_opt_token(other),
                                    ),
                                }
                            }
                        },
                        TypeParse::Failed(m) => TypeParse::Failed(m),
                    }
                }
            },
            TokV::LParen => {
                if tok_at(s, i + 1) == Some(TokV::RParen) {
                    TypeParse::Parsed(TypeV::Tuple(Seq::empty()), i + 2)
                } else {
                    spec_tuple_rest(s, i + 1, Seq::empty())
                }
            },
            _ => TypeParse::Failed(
                "Parser error: expected type, got "@ + debug_opt_token(tok_at(s, i)),
            ),
        }
    }
}

/// The rest of a tuple type whose first elements `done` were read; the next
/// element starts at `i`.
pub open spec fn spec_tuple_rest(s: Seq<TokV>, i: int, done: Seq<TypeV>) -> TypeParse
    decreases s.len() - i, 2nat,
{
    if i < 0 || i >= s.len() {
        spec_parse_type_fail_at(s, i)
    } else {
        match spec_parse_type(s, i) {
            TypeParse::Parsed(t, e) => {
                if e <= i {
                    TypeParse::Failed(Seq::empty())
                } else if tok_at(s, e) == Some(TokV::Comma) {
                    if tok_at(s, e + 1) == Some(TokV::RParen) {
                        TypeParse::Parsed(TypeV::Tuple(done.push(t)), e + 2)
                    } else {
                        spec_tuple_rest(s, e + 1, done.push(t))
                    }
                } else if tok_at(s, e) == Some(TokV::RParen) {
                    TypeParse::Parsed(TypeV::Tuple(done.push(t)), e + 1)
                } else {
                    TypeParse::Failed(expect_error(s, e, TokV::RParen))
                }
            },
            TypeParse::Failed(m) => TypeParse::Failed(m),
        }
    }
}

/// A parsed type ends after its start and within the tokens.
pub proof fn lemma_parse_type_progress(s: Seq<TokV>, i: int)
    ensures
        spec_parse_type(s, i) matches TypeParse::Parsed(_, e) ==> i < e <= s.len(),
    decreases s.len() - i, 1nat,
{
    if 0 <= i < s.len() {
        match s[i] {
            TokV::TyPtr => {
                if i + 2 <= s.len() {
                    lemma_parse_type_progress(s, i + 2);
                }
            },
            TokV::Amp => {
                lemma_parse_type_progress(s, i + 1);
            },
            TokV::LBracket => {
                if i + 2 <= s.len() {
                    lemma_parse_type_progress(s, i + 2);
                }
                lemma_parse_type_progress(s, i + 1);
            },
            TokV::LParen => {
                lemma_tuple_rest_progress(s, i + 1, Seq::empty());
            },
            _ => {},
        }
    }
}

/// The rest of a tuple type ends after its start and within the tokens.
pub proof fn lemma_tuple_rest_progress(s: Seq<TokV>, i: int, done: Seq<TypeV>)
    ensures
        spec_tuple_rest(s, i, done) matches TypeParse::Parsed(_, e) ==> i < e <= s.len(),
    decreases s.len() - i, 2nat,
{
    if 0 <= i < s.len() {
        lemma_parse_type_progress(s, i);
        match spec_parse_type(s, i) {
            TypeParse::Parsed(t, e) => {
                if e > i && tok_at(s, e) == Some(TokV::Comma) && tok_at(s, e + 1) != Some(
                    TokV::RParen,
                ) {
                    lemma_tuple_rest_progress(s, e + 1, done.push(t));
                }
            },
            _ => {},
        }
    }
}

/// The failure of `spec_parse_type` past the end.
pub open spec fn spec_parse_type_fail_at(s: Seq<TokV>, i: int) -> TypeParse {
    TypeParse::Failed("Parser error: expected type, got "@ + debug_opt_token(tok_at(s, i)))
}

} // verus!


mod expr;
pub mod stmt;
pub mod grammar;
