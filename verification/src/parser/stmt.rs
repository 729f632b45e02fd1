use vstd::prelude::*;
use crate::ast::{Expr, TrackType};
use crate::lexer::{push_debug_opt, TokV, Token};
use crate::text::string_of;
use crate::ast::{opt_type_v, params_v, strs_v, ExprV, TypeV};
use super::grammar::{
    decl_outcome, head_outcome, skip_to_rparen, sp_const_head, sp_declaration, sp_enum_head, sp_fn_head,
    sp_for_head, sp_generics, sp_head, sp_import, sp_import_items, sp_let_head, sp_macro_head, sp_params,
    sp_params_rest, sp_signature, sp_struct, sp_struct_fields, sp_type_alias, sp_union, sp_union_variants,
    sp_with_head, return_outcome, value_outcome, with_semicolon, Head, Plain,
};
use super::expr::{lone_operand_at, starts_operand, subject_outcome, unexpected_token_error, SubjectForm};
use super::{lemma_parse_type_progress, tok_at, Parser};

verus! {

/// The form of statement that its first token announces; any other first
/// token starts an expression or an assignment.
pub open spec fn statement_form(t: Option<TokV>, e: Expr) -> bool {
    match t {
        Some(TokV::Let) => e is LetDef || e is LetDestructure,
        Some(TokV::With) => e is LensBlock,
        Some(TokV::Fn) => e is FnDef,
        Some(TokV::If) => e is IfElse,
        Some(TokV::While) => e is WhileLoop,
        Some(TokV::For) => e is ForIn,
        Some(TokV::Return) => e is Return,
        Some(TokV::Import) | Some(TokV::Use) => e is Use,
        Some(TokV::Const) => e is ConstDef,
        Some(TokV::TypeDef) => e is TypeAlias,
        Some(TokV::Struct) => e is TypeAlias,
        Some(TokV::AtMacro) => e is MacroDef,
        Some(TokV::Enum) => e is EnumDef,
        Some(TokV::Union) => e is UnionDef,
        _ => true,
    }
}

/// A token that starts a statement other than an expression or an assignment.
pub open spec fn starts_keyword_statement(t: Option<TokV>) -> bool {
    match t {
        Some(TokV::Let) | Some(TokV::With) | Some(TokV::Fn) | Some(TokV::If) | Some(TokV::While) => true,
        Some(TokV::For) | Some(TokV::Return) | Some(TokV::Import) | Some(TokV::Use) => true,
        Some(TokV::Const) | Some(TokV::TypeDef) | Some(TokV::Struct) | Some(TokV::AtMacro) => true,
        Some(TokV::Enum) | Some(TokV::Union) => true,
        _ => false,
    }
}

/// What an expression statement at `p` gives where its parts are lone
/// operands: the operand itself, or the assignment of one to another.
pub open spec fn expression_statement_outcome(s: Seq<TokV>, p: int, r: Result<Expr, String>) -> bool {
    lone_operand_at(s, p) matches Some(target) ==> {
        &&& tok_at(s, p + 1) != Some(TokV::Eq) ==> r is Ok && r->Ok_0@ == target
        &&& tok_at(s, p + 1) == Some(TokV::Eq) ==> {
            &&& !starts_operand(tok_at(s, p + 2)) ==> r is Err && r->Err_0@ == unexpected_token_error(tok_at(s, p + 2))
            &&& lone_operand_at(s, p + 2) matches Some(value) ==> r is Ok && r->Ok_0@ == ExprV::Assign(
                Box::new(target),
                Box::new(value),
            )
        }
    }
}

/// What parsing one statement from `old` gives: `r`, with the parser then at
/// `new`.
pub open spec fn statement_outcome(old: Parser, new: Parser, r: Result<Expr, String>) -> bool {
    &&& Parser::step_ok(old, new, r is Ok)
    &&& r is Ok ==> statement_form(old.next_tok(), r->Ok_0)
    &&& match sp_declaration(old.toks(), old.position()) {
        Some(res) => decl_outcome(old, new, r, with_semicolon(old.toks(), res)),
        None => true,
    }
    &&& match sp_head(old.toks(), old.position()) {
        Some(res) => head_outcome(old.toks(), r, res) && value_outcome(old.toks(), r, res),
        None => true,
    }
    &&& old.next_tok() == Some(TokV::Return) ==> return_outcome(old.toks(), old.position(), r)
    &&& !starts_keyword_statement(old.next_tok()) && !starts_operand(old.next_tok()) ==> r is Err && r->Err_0@
        == unexpected_token_error(old.next_tok())
    &&& !starts_keyword_statement(old.next_tok()) ==> expression_statement_outcome(old.toks(), old.position(), r)
}

/// Whether a loop over statements goes on at `p`: in a block, up to its
/// `}` (and, with `stop_at_end`, up to the end of the tokens); in a program,
/// up to the end.
pub open spec fn goes_on(p: Parser, block: bool, stop_at_end: bool) -> bool {
    if block {
        p.next_tok() != Some(TokV::RBrace) && (!stop_at_end || p.next_tok() is Some)
    } else {
        p.next_tok() is Some
    }
}

/// Statement `k` of `v` was parsed from `ps[k]`, where the loop went on,
/// leaving the parser at `ps[k + 1]`.
pub open spec fn trace_step(ps: Seq<Parser>, v: Seq<Expr>, k: int, block: bool, stop_at_end: bool) -> bool {
    &&& goes_on(ps[k], block, stop_at_end)
    &&& statement_outcome(ps[k], ps[k + 1], Ok(v[k]))
}

/// `v` are statements parsed one after another, through the parser states
/// `ps`.
pub open spec fn statements_trace(ps: Seq<Parser>, v: Seq<Expr>, block: bool, stop_at_end: bool) -> bool {
    &&& ps.len() == v.len() + 1
    &&& forall|k: int| 0 <= k < v.len() ==> #[trigger] trace_step(ps, v, k, block, stop_at_end)
}

/// Extends a trace by one more statement.
pub proof fn lemma_trace_push(ps: Seq<Parser>, v: Seq<Expr>, block: bool, stop_at_end: bool, next: Parser, e: Expr)
    requires
        statements_trace(ps, v, block, stop_at_end),
        goes_on(ps.last(), block, stop_at_end),
        statement_outcome(ps.last(), next, Ok(e)),
    ensures
        statements_trace(ps.push(next), v.push(e), block, stop_at_end),
{
    let ps2 = ps.push(next);
    let v2 = v.push(e);
    assert forall|k: int| 0 <= k < v2.len() implies #[trigger] trace_step(ps2, v2, k, block, stop_at_end) by {
        if k < v.len() {
            assert(trace_step(ps, v, k, block, stop_at_end));
            assert(ps2[k] == ps[k] && ps2[k + 1] == ps[k + 1] && v2[k] == v[k]);
        } else {
            assert(ps2[k] == ps.last() && ps2[k + 1] == next && v2[k] == e);
        }
    }
}

/// The kinds of tokens, without their spans.
pub open spec fn token_kinds(ts: Seq<(TokV, int, int)>) -> Seq<TokV> {
    Seq::new(ts.len(), |i: int| ts[i].0)
}

/// The kinds of lexed tokens are those of the tokens they were lexed from,
/// whatever their spans.
pub proof fn lemma_kinds(
    toks: Seq<TokV>,
    v: Seq<(crate::lexer::Token, std::ops::Range<usize>)>,
    s: Seq<char>,
    ts: Seq<(TokV, int, int)>,
)
    requires
        toks == Seq::new(v.len(), |i: int| v[i].0@),
        crate::lexer::spanned_view(v) == crate::lexer::byte_spans(s, ts),
    ensures
        toks == token_kinds(ts),
{
    assert(crate::lexer::spanned_view(v).len() == v.len());
    assert forall|i: int| 0 <= i < toks.len() implies toks[i] == token_kinds(ts)[i] by {
        assert(crate::lexer::spanned_view(v)[i] == crate::lexer::byte_spans(s, ts)[i]);
    }
    assert(toks =~= token_kinds(ts));
}

/// The statements `v` are what parsing `toks` from the first token to the
/// end gives, one statement after another.
pub open spec fn parses_to(toks: Seq<TokV>, v: Seq<Expr>) -> bool {
    exists|ps: Seq<Parser>|
        #[trigger] statements_trace(ps, v, false, false) && ps[0].toks() == toks && ps[0].position() == 0
            && ps[0].allows_struct() && !goes_on(ps.last(), false, false)
}

/// Parsing `toks` from the first token fails at some statement with the
/// error `m`.
pub open spec fn parse_fails_with(toks: Seq<TokV>, m: String) -> bool {
    exists|ps: Seq<Parser>, v: Seq<Expr>, q: Parser|
        #[trigger] statements_trace(ps, v, false, false) && ps[0].toks() == toks && ps[0].position() == 0
            && ps[0].allows_struct() && goes_on(ps.last(), false, false) && #[trigger] statement_outcome(
            ps.last(),
            q,
            Err(m),
        )
}

/// Parsing `toks` from the first token fails at some statement.
pub open spec fn parse_fails(toks: Seq<TokV>) -> bool {
    exists|ps: Seq<Parser>, v: Seq<Expr>, q: Parser, m: String|
        #[trigger] statements_trace(ps, v, false, false) && ps[0].toks() == toks && ps[0].position() == 0
            && ps[0].allows_struct() && goes_on(ps.last(), false, false) && #[trigger] statement_outcome(
            ps.last(),
            q,
            Err(m),
        )
}

impl Parser {
    /// Parses one statement (a declaration, a control-flow form, an
    /// assignment or an expression), with its optional trailing `;`.
    pub fn parse_statement(&mut self) -> (r: Result<Expr, String>)
        requires
            old(self).wf(),
        ensures
            statement_outcome(*old(self), *final(self), r),
        decreases old(self).len() - old(self).position(), 40nat,
    {
        proof {
            self.lemma_wf();
        }
        let kind: u8 = match self.peek() {
            Some(Token::Let) => 1,
            Some(Token::With) => 2,
            Some(Token::Fn) => 3,
            Some(Token::If) => 4,
            Some(Token::While) => 5,
            Some(Token::For) => 6,
            Some(Token::Return) => 7,
            Some(Token::Import) | Some(Token::Use) => 8,
            Some(Token::Const) => 9,
            Some(Token::TypeDef) => 10,
            Some(Token::Struct) => 11,
            Some(Token::AtMacro) => 12,
            Some(Token::Enum) => 13,
            Some(Token::Union) => 14,
            _ => 0,
        };
        let expr = if kind == 1 {
            self.parse_let()?
        } else if kind == 2 {
            self.parse_with()?
        } else if kind == 3 {
            self.parse_fn()?
        } else if kind == 4 {
            self.parse_if()?
        } else if kind == 5 {
            self.parse_while()?
        } else if kind == 6 {
            self.parse_for()?
        } else if kind == 7 {
            self.parse_return()?
        } else if kind == 8 {
            self.parse_import()?
        } else if kind == 9 {
            self.parse_const()?
        } else if kind == 10 {
            self.parse_type_alias()?
        } else if kind == 11 {
            self.parse_struct()?
        } else if kind == 12 {
            self.parse_macro_def()?
        } else if kind == 13 {
            self.parse_enum()?
        } else if kind == 14 {
            self.parse_union()?
        } else {
            let expr = self.parse_expr()?;
            // Assignment: target = value
            if self.peek_is(&Token::Eq) {
                self.skip();
                let value = self.parse_expr()?;
                Expr::Assign { target: Box::new(expr), value: Box::new(value) }
            } else {
                expr
            }
        };
        if self.peek_is(&Token::Semicolon) {
            self.skip();
        }
        Ok(expr)
    }

    fn parse_let(&mut self) -> (r: Result<Expr, String>)
        requires
            old(self).wf(),
            old(self).next_tok() is Some,
        ensures
            Self::step_ok(*old(self), *final(self), r is Ok),
            r is Ok ==> (r->Ok_0 is LetDef || r->Ok_0 is LetDestructure),
            head_outcome(old(self).toks(), r, sp_let_head(old(self).toks(), old(self).position())),
            value_outcome(old(self).toks(), r, sp_let_head(old(self).toks(), old(self).position())),
        decreases old(self).len() - old(self).position(), 35nat,
    {
        proof {
            self.lemma_wf();
        }
        self.skip();  // `let`
        let mutable = if self.peek_is(&Token::Mut) {
            self.skip();
            true
        } else {
            false
        };
        if self.peek_is(&Token::LParen) {
            let pattern = self.parse_pattern()?;
            self.expect(&Token::Eq)?;
            proof {
                super::expr::lemma_chain_structs(self.toks(), self.position(), 7);
            }
            let value = self.parse_expr()?;
            Ok(Expr::LetDestructure { pattern, mutable, value: Box::new(value) })
        } else {
            let name = self.expect_ident()?;
            let ty = if self.peek_is(&Token::Colon) {
                self.skip();
                Some(self.parse_type()?)
            } else {
                None
            };
            self.expect(&Token::Eq)?;
            proof {
                super::expr::lemma_chain_structs(self.toks(), self.position(), 7);
            }
            let value = self.parse_expr()?;
            Ok(Expr::LetDef { name, mutable, ty, value: Box::new(value) })
        }
    }

    fn parse_with(&mut self) -> (r: Result<Expr, String>)
        requires
            old(self).wf(),
            old(self).next_tok() is Some,
        ensures
            Self::step_ok(*old(self), *final(self), r is Ok),
            r is Ok ==> r->Ok_0 is LensBlock,
            head_outcome(old(self).toks(), r, sp_with_head(old(self).toks(), old(self).position())),
        decreases old(self).len() - old(self).position(), 35nat,
    {
        proof {
            self.lemma_wf();
        }
        self.skip();  // `with`
        let target = self.expect_ident()?;
        self.expect(&Token::Arrow)?;
        let lens_name = self.expect_ident()?;
        self.expect(&Token::LBrace)?;
        let mut body = Vec::new();
        self.parse_block_body(&mut body, false)?;
        self.expect(&Token::RBrace)?;
        Ok(Expr::LensBlock { target, lens_name, body })
    }

    /// Parses `name: Type` pairs separated by commas (after a consumed `(`).
    fn parse_params(&mut self) -> (r: Result<Vec<(String, TrackType)>, String>)
        requires
            old(self).wf(),
        ensures
            Self::moved(*old(self), *final(self)),
            final(self).allows_struct() == old(self).allows_struct(),
            match sp_params(old(self).toks(), old(self).position()) {
                Plain::Done(xs, q) => r is Ok && params_v(r->Ok_0@) == xs && final(self).position() == q,
                Plain::Failed(m) => r is Err && r->Err_0@ == m,
            },
    {
        proof {
            self.lemma_wf();
        }
        let ghost s = self.toks();
        let mut params: Vec<(String, TrackType)> = Vec::new();
        proof {
            assert(params_v(params@) =~= Seq::<(Seq<char>, TypeV)>::empty());
        }
        if self.peek_is(&Token::RParen) {
            return Ok(params);
        }
        let ghost whole = sp_params_rest(s, self.position(), Seq::empty());
        loop
            invariant
                self.wf(),
                Self::moved(*old(self), *self),
                s == self.toks(),
                self.allows_struct() == old(self).allows_struct(),
                whole == sp_params(old(self).toks(), old(self).position()),
                whole == sp_params_rest(s, self.position(), params_v(params@)),
            decreases self.len() - self.position(),
        {
            proof {
                self.lemma_wf();
            }
            let ghost before = self.position();
            let param_name = self.expect_ident()?;
            self.expect(&Token::Colon)?;
            proof {
                lemma_parse_type_progress(s, self.position());
            }
            let param_type = self.parse_type()?;
            let ghost prev = params@;
            let ghost pv = (param_name@, param_type@);
            params.push((param_name, param_type));
            proof {
                assert(params_v(params@) =~= params_v(prev).push(pv));
            }
            if self.peek_is(&Token::Comma) {
                self.skip();
            } else {
                return Ok(params);
            }
            assert(self.position() > before);
        }
    }

    /// Parses `(params) [-> type]`.
    fn parse_signature(&mut self) -> (r: Result<(Vec<(String, TrackType)>, Option<TrackType>), String>)
        requires
            old(self).wf(),
        ensures
            Self::moved(*old(self), *final(self)),
            final(self).allows_struct() == old(self).allows_struct(),
            match sp_signature(old(self).toks(), old(self).position()) {
                Plain::Done((ps, rt), q) => r is Ok && params_v(r->Ok_0.0@) == ps && opt_type_v(r->Ok_0.1) == rt
                    && final(self).position() == q,
                Plain::Failed(m) => r is Err && r->Err_0@ == m,
            },
    {
        proof {
            self.lemma_wf();
        }
        self.expect(&Token::LParen)?;
        let params = self.parse_params()?;
        self.expect(&Token::RParen)?;
        let return_type = if self.peek_is(&Token::Arrow) {
            self.skip();
            Some(self.parse_type()?)
        } else {
            None
        };
        Ok((params, return_type))
    }

    /// Parses type parameter names separated by commas.
    fn parse_generics(&mut self) -> (r: Result<Vec<String>, String>)
        requires
            old(self).wf(),
        ensures
            Self::moved(*old(self), *final(self)),
            final(self).allows_struct() == old(self).allows_struct(),
            match sp_generics(old(self).toks(), old(self).position(), Seq::empty()) {
                Plain::Done(xs, q) => r is Ok && strs_v(r->Ok_0@) == xs && final(self).position() == q,
                Plain::Failed(m) => r is Err && r->Err_0@ == m,
            },
    {
        proof {
            self.lemma_wf();
        }
        let ghost s = self.toks();
        let ghost whole = sp_generics(s, self.position(), Seq::empty());
        let mut generics: Vec<String> = Vec::new();
        proof {
            assert(strs_v(generics@) =~= Seq::<Seq<char>>::empty());
        }
        loop
            invariant
                self.wf(),
                Self::moved(*old(self), *self),
                s == self.toks(),
                self.allows_struct() == old(self).allows_struct(),
                whole == sp_generics(old(self).toks(), old(self).position(), Seq::empty()),
                whole == sp_generics(s, self.position(), strs_v(generics@)),
            decreases self.len() - self.position(),
        {
            proof {
                self.lemma_wf();
            }
            let g = self.expect_ident()?;
            let ghost prev = generics@;
            generics.push(g);
            proof {
                assert(strs_v(generics@) =~= strs_v(prev).push(generics@.last()@));
            }
            if self.peek_is(&Token::Comma) {
                self.skip();
            } else {
                return Ok(generics);
            }
        }
    }

    fn parse_fn(&mut self) -> (r: Result<Expr, String>)
        requires
            old(self).wf(),
            old(self).next_tok() is Some,
        ensures
            Self::step_ok(*old(self), *final(self), r is Ok),
            r is Ok ==> r->Ok_0 is FnDef,
            head_outcome(old(self).toks(), r, sp_fn_head(old(self).toks(), old(self).position())),
        decreases old(self).len() - old(self).position(), 35nat,
    {
        proof {
            self.lemma_wf();
        }
        let ghost s = self.toks();
        self.skip();  // `fn`
        let name = self.expect_ident()?;
        // Optional generic parameters: fn name<T, U>(...)
        let generics = if self.peek_is(&Token::Lt) {
            self.skip();
            let generics = self.parse_generics()?;
            self.expect(&Token::Gt)?;
            generics
        } else {
            let generics: Vec<String> = Vec::new();
            proof {
                assert(strs_v(generics@) =~= Seq::<Seq<char>>::empty());
            }
            generics
        };
        let (params, return_type) = self.parse_signature()?;
        self.expect(&Token::LBrace)?;
        let mut body = Vec::new();
        self.parse_block_body(&mut body, false)?;
        self.expect(&Token::RBrace)?;
        Ok(Expr::FnDef { name, generics, params, return_type, body })
    }

    fn parse_if(&mut self) -> (r: Result<Expr, String>)
        requires
            old(self).wf(),
            old(self).next_tok() == Some(TokV::If),
        ensures
            Self::step_ok(*old(self), *final(self), r is Ok),
            r is Ok ==> r->Ok_0 is IfElse,
            subject_outcome(SubjectForm::If, old(self).toks(), old(self).position(), r),
        decreases old(self).len() - old(self).position(), 35nat,
    {
        self.parse_if_expr()
    }

    fn parse_while(&mut self) -> (r: Result<Expr, String>)
        requires
            old(self).wf(),
            old(self).next_tok() is Some,
        ensures
            Self::step_ok(*old(self), *final(self), r is Ok),
            r is Ok ==> r->Ok_0 is WhileLoop,
            subject_outcome(SubjectForm::While, old(self).toks(), old(self).position(), r),
        decreases old(self).len() - old(self).position(), 35nat,
    {
        proof {
            self.lemma_wf();
        }
        self.skip();  // `while`
        self.allow_struct = false;
        let condition = self.parse_expr();
        self.allow_struct = true;
        let condition = condition?;
        self.expect(&Token::LBrace)?;
        let mut body = Vec::new();
        self.parse_block_body(&mut body, false)?;
        self.expect(&Token::RBrace)?;
        proof {
            if body@.len() == 0 {
                assert(crate::ast::exprs_v(body@) =~= Seq::<ExprV>::empty());
            }
        }
        Ok(Expr::WhileLoop { condition: Box::new(condition), body })
    }

    fn parse_for(&mut self) -> (r: Result<Expr, String>)
        requires
            old(self).wf(),
            old(self).next_tok() is Some,
        ensures
            Self::step_ok(*old(self), *final(self), r is Ok),
            r is Ok ==> r->Ok_0 is ForIn,
            head_outcome(old(self).toks(), r, sp_for_head(old(self).toks(), old(self).position())),
        decreases old(self).len() - old(self).position(), 35nat,
    {
        proof {
            self.lemma_wf();
        }
        self.skip();  // `for`
        let var = self.expect_ident()?;
        self.expect(&Token::In)?;
        self.allow_struct = false;
        let iter = self.parse_expr();
        self.allow_struct = true;
        let iter = iter?;
        self.expect(&Token::LBrace)?;
        let mut body = Vec::new();
        self.parse_block_body(&mut body, true)?;
        self.expect(&Token::RBrace)?;
        Ok(Expr::ForIn { var, iter: Box::new(iter), body })
    }

    fn parse_return(&mut self) -> (r: Result<Expr, String>)
        requires
            old(self).wf(),
            old(self).next_tok() is Some,
        ensures
            Self::step_ok(*old(self), *final(self), r is Ok),
            r is Ok ==> r->Ok_0 is Return,
            return_outcome(old(self).toks(), old(self).position(), r),
        decreases old(self).len() - old(self).position(), 35nat,
    {
        proof {
            self.lemma_wf();
        }
        self.skip();  // `return`
        let value = if self.peek_is(&Token::Semicolon) || self.peek().is_none() {
            None
        } else {
            Some(Box::new(self.parse_expr()?))
        };
        Ok(Expr::Return { value })
    }

    #[verifier::rlimit(50)]
    fn parse_import(&mut self) -> (r: Result<Expr, String>)
        requires
            old(self).wf(),
            old(self).next_tok() is Some,
        ensures
            Self::step_ok(*old(self), *final(self), r is Ok),
            r is Ok ==> r->Ok_0 is Use,
            decl_outcome(*old(self), *final(self), r, sp_import(old(self).toks(), old(self).position())),
    {
        proof {
            self.lemma_wf();
        }
        self.skip();  // `import` or `use`
        let path = match self.advance() {
            Some((Token::Str(s), _)) => s,
            other => {
                let mut m = string_of("Expected string path after import, got ");
                match other {
                    Some((t, _)) => push_debug_opt(&mut m, Some(&t)),
                    None => push_debug_opt(&mut m, None),
                }
                return Err(m);
            },
        };
        let alias = if self.peek_is(&Token::As) {
            self.skip();
            Some(self.expect_ident()?)
        } else {
            None
        };
        let imports = if self.peek_is(&Token::ColonColon) {
            self.skip();
            self.expect(&Token::LBrace)?;
            let items = self.parse_import_items()?;
            self.expect(&Token::RBrace)?;
            Some(items)
        } else {
            None
        };
        Ok(Expr::Use { path, imports, alias })
    }

    fn parse_const(&mut self) -> (r: Result<Expr, String>)
        requires
            old(self).wf(),
            old(self).next_tok() is Some,
        ensures
            Self::step_ok(*old(self), *final(self), r is Ok),
            r is Ok ==> r->Ok_0 is ConstDef,
            head_outcome(old(self).toks(), r, sp_const_head(old(self).toks(), old(self).position())),
            value_outcome(old(self).toks(), r, sp_const_head(old(self).toks(), old(self).position())),
        decreases old(self).len() - old(self).position(), 35nat,
    {
        proof {
            self.lemma_wf();
        }
        self.skip();  // `const`
        let name = self.expect_ident()?;
        self.expect(&Token::Eq)?;
        proof {
            super::expr::lemma_chain_structs(self.toks(), self.position(), 7);
        }
        let value = self.parse_expr()?;
        Ok(Expr::ConstDef { name, value: Box::new(value) })
    }

    fn parse_type_alias(&mut self) -> (r: Result<Expr, String>)
        requires
            old(self).wf(),
            old(self).next_tok() is Some,
        ensures
            Self::step_ok(*old(self), *final(self), r is Ok),
            r is Ok ==> r->Ok_0 is TypeAlias,
            decl_outcome(*old(self), *final(self), r, sp_type_alias(old(self).toks(), old(self).position())),
    {
        proof {
            self.lemma_wf();
        }
        self.skip();  // `type`
        let name = self.expect_ident()?;
        self.expect(&Token::Eq)?;
        let target = self.parse_type()?;
        Ok(Expr::TypeAlias { name, target })
    }

    /// Parses a struct definition; its fields are checked for syntax and
    /// the definition is kept as an alias of the name to `Struct`.
    fn parse_struct(&mut self) -> (r: Result<Expr, String>)
        requires
            old(self).wf(),
            old(self).next_tok() is Some,
        ensures
            Self::step_ok(*old(self), *final(self), r is Ok),
            r is Ok ==> r->Ok_0 is TypeAlias,
            decl_outcome(*old(self), *final(self), r, sp_struct(old(self).toks(), old(self).position())),
    {
        proof {
            self.lemma_wf();
        }
        self.skip();  // `struct`
        let name = self.expect_ident()?;
        self.expect(&Token::LBrace)?;
        self.parse_struct_fields()?;
        self.expect(&Token::RBrace)?;
        Ok(Expr::TypeAlias { name, target: TrackType::Custom(string_of("Struct")) })
    }

    fn parse_macro_def(&mut self) -> (r: Result<Expr, String>)
        requires
            old(self).wf(),
            old(self).next_tok() is Some,
        ensures
            Self::step_ok(*old(self), *final(self), r is Ok),
            r is Ok ==> r->Ok_0 is MacroDef,
            head_outcome(old(self).toks(), r, sp_macro_head(old(self).toks(), old(self).position())),
        decreases old(self).len() - old(self).position(), 35nat,
    {
        proof {
            self.lemma_wf();
        }
        self.skip();  // `@macro`
        let name = self.expect_ident()?;
        let (params, return_type) = self.parse_signature()?;
        self.expect(&Token::LBrace)?;
        let mut body = Vec::new();
        self.parse_block_body(&mut body, false)?;
        self.expect(&Token::RBrace)?;
        Ok(Expr::MacroDef { name, params, return_type, body })
    }

    fn parse_enum(&mut self) -> (r: Result<Expr, String>)
        requires
            old(self).wf(),
            old(self).next_tok() is Some,
        ensures
            Self::step_ok(*old(self), *final(self), r is Ok),
            r is Ok ==> r->Ok_0 is EnumDef,
            head_outcome(old(self).toks(), r, sp_enum_head(old(self).toks(), old(self).position())),
        decreases old(self).len() - old(self).position(), 35nat,
    {
        proof {
            self.lemma_wf();
        }
        let ghost s = self.toks();
        let ghost p = self.position();
        self.skip();  // `enum`
        let name = self.expect_ident()?;
        let underlying_type = if self.peek_is(&Token::Colon) {
            self.skip();
            Some(self.parse_type()?)
        } else {
            None
        };
        let ghost head = Head::Enum(name@, opt_type_v(underlying_type));
        let ghost q = self.position();
        proof {
            assert(sp_enum_head(s, p) == Plain::Done(head, q));
        }
        self.expect(&Token::LBrace)?;
        let mut variants: Vec<(String, Option<Expr>)> = Vec::new();
        while !self.peek_is(&Token::RBrace)
            invariant
                self.wf(),
                Self::progressed(*old(self), *self),
                head == Head::Enum(name@, opt_type_v(underlying_type)),
                sp_enum_head(old(self).toks(), old(self).position()) == Plain::Done(head, q),
                tok_at(old(self).toks(), q) == Some(TokV::LBrace),
            decreases self.len() - self.position(),
        {
            let variant_name = self.expect_ident()?;
            let variant_value = if self.peek_is(&Token::Eq) {
                self.skip();
                Some(self.parse_expr()?)
            } else {
                None
            };
            variants.push((variant_name, variant_value));
            if self.peek_is(&Token::Comma) {
                self.skip();
            }
        }
        self.expect(&Token::RBrace)?;
        Ok(Expr::EnumDef { name, underlying_type, variants })
    }

    fn parse_union(&mut self) -> (r: Result<Expr, String>)
        requires
            old(self).wf(),
            old(self).next_tok() is Some,
        ensures
            Self::step_ok(*old(self), *final(self), r is Ok),
            r is Ok ==> r->Ok_0 is UnionDef,
            decl_outcome(*old(self), *final(self), r, sp_union(old(self).toks(), old(self).position())),
    {
        proof {
            self.lemma_wf();
        }
        let ghost s = self.toks();
        self.skip();  // `union`
        let name = self.expect_ident()?;
        // An optional parenthesized tag list is skipped.
        if self.peek_is(&Token::LParen) {
            self.skip();
            let ghost target = skip_to_rparen(s, self.position());
            while self.peek().is_some() && !self.peek_is(&Token::RParen)
                invariant
                    self.wf(),
                    Self::progressed(*old(self), *self),
                    s == self.toks(),
                    self.allows_struct() == old(self).allows_struct(),
                    target == skip_to_rparen(s, self.position()),
                decreases self.len() - self.position(),
            {
                self.skip();
            }
            self.expect(&Token::RParen)?;
        }
        self.expect(&Token::LBrace)?;
        let variants = self.parse_union_variants()?;
        self.expect(&Token::RBrace)?;
        Ok(Expr::UnionDef { name, variants })
    }

    /// Parses import item names separated by commas, up to `}`.
    fn parse_import_items(&mut self) -> (r: Result<Vec<String>, String>)
        requires
            old(self).wf(),
        ensures
            Self::moved(*old(self), *final(self)),
            final(self).allows_struct() == old(self).allows_struct(),
            match sp_import_items(old(self).toks(), old(self).position(), Seq::empty()) {
                Plain::Done(xs, q) => r is Ok && crate::ast::strs_v(r->Ok_0@) == xs && final(self).position() == q,
                Plain::Failed(m) => r is Err && r->Err_0@ == m,
            },
    {
        proof {
            self.lemma_wf();
        }
        let ghost s = self.toks();
        let ghost whole = sp_import_items(s, self.position(), Seq::empty());
        let mut items: Vec<String> = Vec::new();
        proof {
            assert(crate::ast::strs_v(items@) =~= Seq::<Seq<char>>::empty());
        }
        while !self.peek_is(&Token::RBrace) && self.peek().is_some()
            invariant
                self.wf(),
                Self::moved(*old(self), *self),
                s == self.toks(),
                self.allows_struct() == old(self).allows_struct(),
                whole == sp_import_items(old(self).toks(), old(self).position(), Seq::empty()),
                whole == sp_import_items(s, self.position(), crate::ast::strs_v(items@)),
            decreases self.len() - self.position(),
        {
            proof {
                self.lemma_wf();
            }
            let item = self.expect_ident()?;
            let ghost prev = items@;
            items.push(item);
            proof {
                assert(crate::ast::strs_v(items@) =~= crate::ast::strs_v(prev).push(items@.last()@));
            }
            if self.peek_is(&Token::Comma) {
                self.skip();
            } else {
                return Ok(items);
            }
        }
        Ok(items)
    }

    /// Checks struct field declarations `name: type` up to `}`.
    fn parse_struct_fields(&mut self) -> (r: Result<(), String>)
        requires
            old(self).wf(),
        ensures
            Self::moved(*old(self), *final(self)),
            final(self).allows_struct() == old(self).allows_struct(),
            match sp_struct_fields(old(self).toks(), old(self).position()) {
                Plain::Done(_, q) => r is Ok && final(self).position() == q,
                Plain::Failed(m) => r is Err && r->Err_0@ == m,
            },
    {
        proof {
            self.lemma_wf();
        }
        let ghost s = self.toks();
        let ghost whole = sp_struct_fields(s, self.position());
        while !self.peek_is(&Token::RBrace) && self.peek().is_some()
            invariant
                self.wf(),
                Self::moved(*old(self), *self),
                s == self.toks(),
                self.allows_struct() == old(self).allows_struct(),
                whole == sp_struct_fields(old(self).toks(), old(self).position()),
                whole == sp_struct_fields(s, self.position()),
            decreases self.len() - self.position(),
        {
            proof {
                self.lemma_wf();
            }
            let _field_name = self.expect_ident()?;
            self.expect(&Token::Colon)?;
            proof {
                lemma_parse_type_progress(s, self.position());
            }
            let _field_type = self.parse_type()?;
            if self.peek_is(&Token::Comma) {
                self.skip();
            } else {
                return Ok(());
            }
        }
        Ok(())
    }

    /// Parses union variants `Name` or `Name(type)` up to `}`.
    fn parse_union_variants(&mut self) -> (r: Result<Vec<(String, Option<TrackType>)>, String>)
        requires
            old(self).wf(),
        ensures
            Self::moved(*old(self), *final(self)),
            final(self).allows_struct() == old(self).allows_struct(),
            match sp_union_variants(old(self).toks(), old(self).position(), Seq::empty()) {
                Plain::Done(xs, q) => r is Ok && crate::ast::union_v(r->Ok_0@) == xs && final(self).position() == q,
                Plain::Failed(m) => r is Err && r->Err_0@ == m,
            },
    {
        proof {
            self.lemma_wf();
        }
        let ghost s = self.toks();
        let ghost whole = sp_union_variants(s, self.position(), Seq::empty());
        let mut variants: Vec<(String, Option<TrackType>)> = Vec::new();
        proof {
            assert(crate::ast::union_v(variants@) =~= Seq::<(Seq<char>, Option<TypeV>)>::empty());
        }
        while !self.peek_is(&Token::RBrace)
            invariant
                self.wf(),
                Self::moved(*old(self), *self),
                s == self.toks(),
                self.allows_struct() == old(self).allows_struct(),
                whole == sp_union_variants(old(self).toks(), old(self).position(), Seq::empty()),
                whole == sp_union_variants(s, self.position(), crate::ast::union_v(variants@)),
            decreases self.len() - self.position(),
        {
            proof {
                self.lemma_wf();
            }
            let variant_name = self.expect_ident()?;
            let variant_type = if self.peek_is(&Token::LParen) {
                self.skip();
                proof {
                    lemma_parse_type_progress(s, self.position());
                }
                let ty = self.parse_type()?;
                self.expect(&Token::RParen)?;
                Some(ty)
            } else {
                None
            };
            let ghost vv = (variant_name@, crate::ast::opt_type_v(variant_type));
            let ghost prev = variants@;
            variants.push((variant_name, variant_type));
            proof {
                assert(crate::ast::union_v(variants@) =~= crate::ast::union_v(prev).push(vv));
            }
            if self.peek_is(&Token::Comma) {
                self.skip();
            }
        }
        Ok(variants)
    }
}

} // verus!
