use vstd::prelude::*;
use crate::ast::{BinOp, Expr, ExprV, MatchArm, Pattern, PatternV, UnaryOp};
use crate::lexer::{debug_opt_token, push_debug_opt, TokV, Token};
use crate::text::{push_str, push_string, string_of};
use super::grammar::{pattern_outcome, sp_pattern, sp_pattern_fields, sp_pattern_list, sp_pattern_named, Plain};
use super::stmt::{goes_on, lemma_trace_push, statement_outcome, statements_trace};
use super::grammar::{ident_at, ident_error};
use super::{expect_error, step, tok_at, Parser};

verus! {

/// The name read by `parse_namespaced_ident` from position `i` on, given
/// the part `acc` already read: the name and the position after it, or the
/// error text and the position where reading stopped.
pub open spec fn spec_namespace_rest(s: Seq<TokV>, i: int, acc: Seq<char>) -> (
    Result<Seq<char>, Seq<char>>,
    int,
)
    decreases s.len() - i,
{
    if 0 <= i < s.len() && s[i] == TokV::ColonColon {
        match tok_at(s, i + 1) {
            Some(TokV::Ident(n)) => spec_namespace_rest(s, i + 2, acc + "::"@ + n),
            other => (
                Err("Parser error: expected identifier, got "@ + debug_opt_token(other)),
                step(s, i + 1),
            ),
        }
    } else {
        (Ok(acc), i)
    }
}

/// The name `a::b::...` that starts at position `i`.
pub open spec fn spec_namespaced(s: Seq<TokV>, i: int) -> (Result<Seq<char>, Seq<char>>, int) {
    match tok_at(s, i) {
        Some(TokV::Ident(n)) => spec_namespace_rest(s, i + 1, n),
        other => (
            Err("Parser error: expected identifier, got "@ + debug_opt_token(other)),
            step(s, i),
        ),
    }
}

/// The error text of an unexpected token where an expression must start.
pub open spec fn unexpected_token_error(t: Option<TokV>) -> Seq<char> {
    "Parser error: unexpected token "@ + debug_opt_token(t)
}

/// A token that can start an operand: a prefix operator or the first token
/// of a primary expression.
pub open spec fn starts_operand(t: Option<TokV>) -> bool {
    match t {
        Some(TokV::Minus) | Some(TokV::Bang) | Some(TokV::Star) | Some(TokV::Amp) => true,
        Some(TokV::Int(_)) | Some(TokV::Str(_)) | Some(TokV::True) | Some(TokV::False) => true,
        Some(TokV::If) | Some(TokV::At) | Some(TokV::Match) | Some(TokV::Ident(_)) => true,
        Some(TokV::LParen) | Some(TokV::LBracket) => true,
        _ => false,
    }
}

/// The literal expression a token stands for.
pub open spec fn literal_of(t: Option<TokV>) -> Option<ExprV> {
    match t {
        Some(TokV::Int(v)) => Some(ExprV::IntLiteral(v)),
        Some(TokV::Str(v)) => Some(ExprV::StringLiteral(v)),
        Some(TokV::True) => Some(ExprV::BoolLiteral(true)),
        Some(TokV::False) => Some(ExprV::BoolLiteral(false)),
        _ => None,
    }
}

/// A token that continues no operand before it: neither a postfix, nor a
/// binary operator, nor `..`.
pub open spec fn ends_operand(t: Option<TokV>) -> bool {
    match t {
        Some(TokV::Dot) | Some(TokV::LBracket) | Some(TokV::DotDot) => false,
        Some(TokV::Star) | Some(TokV::Slash) | Some(TokV::Percent) | Some(TokV::Plus) | Some(TokV::Minus) => false,
        Some(TokV::Shl) | Some(TokV::Shr) | Some(TokV::Amp) | Some(TokV::AmpAmp) => false,
        Some(TokV::EqEq) | Some(TokV::Neq) | Some(TokV::Lt) | Some(TokV::Gt) | Some(TokV::Lte) | Some(TokV::Gte) => false,
        Some(TokV::PipePipe) | Some(TokV::Pipe) => false,
        _ => true,
    }
}

/// The value of a literal or a plain name that stands alone at position
/// `i`: the token after it continues no operand, and after a name it opens
/// no path, call or, where struct literals are read, struct literal.
pub open spec fn lone_operand_in(s: Seq<TokV>, i: int, structs: bool) -> Option<ExprV> {
    let next = tok_at(s, i + 1);
    if !ends_operand(next) {
        None
    } else {
        match tok_at(s, i) {
            Some(TokV::Ident(n)) => if next == Some(TokV::ColonColon) || next == Some(TokV::LParen) || (structs
                && next == Some(TokV::LBrace)) {
                None
            } else {
                Some(ExprV::Variable(n))
            },
            t => literal_of(t),
        }
    }
}

/// Like `lone_operand_in`, whether or not struct literals are read.
pub open spec fn lone_operand_at(s: Seq<TokV>, i: int) -> Option<ExprV> {
    lone_operand_in(s, i, true)
}

/// The value of a literal or a plain name that stands alone at the
/// parser's position, in its struct-literal mode.
pub open spec fn lone_operand(p: Parser) -> Option<ExprV> {
    lone_operand_in(p.toks(), p.position(), p.allows_struct())
}

/// The value of a literal or a plain name at position `i` that no postfix
/// (field, method, index) extends, and that after a name opens no path,
/// call or, where struct literals are read, struct literal.
pub open spec fn simple_operand(s: Seq<TokV>, i: int, structs: bool) -> Option<ExprV> {
    let next = tok_at(s, i + 1);
    if next == Some(TokV::Dot) || next == Some(TokV::LBracket) {
        None
    } else {
        match tok_at(s, i) {
            Some(TokV::Ident(n)) => if next == Some(TokV::ColonColon) || next == Some(TokV::LParen) || (structs
                && next == Some(TokV::LBrace)) {
                None
            } else {
                Some(ExprV::Variable(n))
            },
            t => literal_of(t),
        }
    }
}

/// The binary operator of precedence level `level` (1 binds tightest:
/// `* / %`; then `+ -`; shifts; `&`; comparisons; `&&`; and 7, `|| |`)
/// that the token at `q` stands for. A `&` followed by another `&` is no
/// bitwise and.
pub open spec fn level_op(s: Seq<TokV>, q: int, level: nat) -> Option<BinOp> {
    let t = tok_at(s, q);
    if level == 1 {
        match t {
            Some(TokV::Star) => Some(BinOp::Mul),
            Some(TokV::Slash) => Some(BinOp::Div),
            Some(TokV::Percent) => Some(BinOp::Mod),
            _ => None,
        }
    } else if level == 2 {
        match t {
            Some(TokV::Plus) => Some(BinOp::Add),
            Some(TokV::Minus) => Some(BinOp::Sub),
            _ => None,
        }
    } else if level == 3 {
        match t {
            Some(TokV::Shl) => Some(BinOp::Shl),
            Some(TokV::Shr) => Some(BinOp::Shr),
            _ => None,
        }
    } else if level == 4 {
        if t == Some(TokV::Amp) && tok_at(s, q + 1) is Some && tok_at(s, q + 1) != Some(TokV::Amp) {
            Some(BinOp::BitAnd)
        } else {
            None
        }
    } else if level == 5 {
        match t {
            Some(TokV::EqEq) => Some(BinOp::Eq),
            Some(TokV::Neq) => Some(BinOp::Neq),
            Some(TokV::Lt) => Some(BinOp::Lt),
            Some(TokV::Gt) => Some(BinOp::Gt),
            Some(TokV::Lte) => Some(BinOp::Lte),
            Some(TokV::Gte) => Some(BinOp::Gte),
            _ => None,
        }
    } else if level == 6 {
        if t == Some(TokV::AmpAmp) {
            Some(BinOp::And)
        } else {
            None
        }
    } else if level == 7 {
        if t == Some(TokV::PipePipe) || t == Some(TokV::Pipe) {
            Some(BinOp::Or)
        } else {
            None
        }
    } else {
        None
    }
}

/// An operator chain of level `level` from position `i` whose operands are
/// simple: operands of level `level - 1` joined by operators of level
/// `level`, grouped to the left. Gives the expression and the position
/// after it; nothing where some operator is not followed by such an
/// operand. Level 0 is a simple operand alone.
pub open spec fn chain_at(s: Seq<TokV>, i: int, structs: bool, level: nat) -> Option<(ExprV, int)>
    decreases level, 1nat, 0int,
{
    if level == 0 {
        match simple_operand(s, i, structs) {
            Some(e) => Some((e, i + 1)),
            None => None,
        }
    } else {
        match chain_at(s, i, structs, (level - 1) as nat) {
            Some((a, q)) => chain_fold(s, structs, level, a, q),
            None => None,
        }
    }
}

/// The rest of a chain of level `level` after the expression `acc`, from
/// position `q`.
pub open spec fn chain_fold(s: Seq<TokV>, structs: bool, level: nat, acc: ExprV, q: int) -> Option<(ExprV, int)>
    decreases level, 0nat, s.len() - q,
{
    match level_op(s, q, level) {
        None => Some((acc, q)),
        Some(o) => if level == 0 || q < 0 || q >= s.len() {
            None
        } else {
            match chain_at(s, q + 1, structs, (level - 1) as nat) {
                Some((b, q2)) => if q < q2 <= s.len() {
                    chain_fold(s, structs, level, ExprV::BinaryOp(o, Box::new(acc), Box::new(b)), q2)
                } else {
                    None
                },
                None => None,
            }
        },
    }
}

/// The prefix operator a token stands for: `-`, `!` or `*`.
pub open spec fn prefix_op(t: Option<TokV>) -> Option<UnaryOp> {
    match t {
        Some(TokV::Minus) => Some(UnaryOp::Neg),
        Some(TokV::Bang) => Some(UnaryOp::Not),
        Some(TokV::Star) => Some(UnaryOp::Deref),
        _ => None,
    }
}

/// A token is an operator of one precedence level at most.
proof fn lemma_level_op_unique(s: Seq<TokV>, q: int, l1: nat, l2: nat)
    requires
        level_op(s, q, l1) is Some,
        level_op(s, q, l2) is Some,
    ensures
        l1 == l2,
{
}

/// A simple operand that no operator of levels up to `level` follows is a
/// whole chain of that level.
proof fn lemma_operand_chain(s: Seq<TokV>, p: int, structs: bool, level: nat)
    requires
        simple_operand(s, p, structs) is Some,
        forall|l: nat| 1 <= l <= level ==> #[trigger] level_op(s, p + 1, l) is None,
    ensures
        chain_at(s, p, structs, level) == Some((simple_operand(s, p, structs)->Some_0, p + 1)),
    decreases level,
{
    let a = simple_operand(s, p, structs)->Some_0;
    if level > 0 {
        lemma_operand_chain(s, p, structs, (level - 1) as nat);
        assert(level_op(s, p + 1, level) is None);
        assert(chain_fold(s, structs, level, a, p + 1) == Some((a, p + 1)));
        assert(chain_at(s, p, structs, level) == chain_fold(s, structs, level, a, p + 1));
    } else {
        assert(chain_at(s, p, structs, 0) == Some((a, p + 1)));
    }
}

/// An operand that an operator of `level` follows is a whole chain of every
/// lower level.
proof fn lemma_operand_before_op(s: Seq<TokV>, p: int, structs: bool, level: nat)
    requires
        simple_operand(s, p, structs) is Some,
        level_op(s, p + 1, level) is Some,
    ensures
        chain_at(s, p, structs, (level - 1) as nat) == Some((simple_operand(s, p, structs)->Some_0, p + 1)),
{
    assert forall|l: nat| 1 <= l <= (level - 1) as nat implies #[trigger] level_op(s, p + 1, l) is None by {
        if level_op(s, p + 1, l) is Some {
            lemma_level_op_unique(s, p + 1, l, level);
        }
    }
    lemma_operand_chain(s, p, structs, (level - 1) as nat);
}

/// A chain read with struct literals on is read the same with them off.
pub proof fn lemma_chain_structs(s: Seq<TokV>, i: int, level: nat)
    ensures
        chain_at(s, i, true, level) is Some ==> chain_at(s, i, false, level) == chain_at(s, i, true, level),
    decreases level, 1nat, 0int,
{
    if level > 0 {
        lemma_chain_structs(s, i, (level - 1) as nat);
        match chain_at(s, i, true, (level - 1) as nat) {
            Some((a, q)) => {
                lemma_fold_structs(s, level, a, q);
            },
            None => {},
        }
    }
}

/// The rest of a chain read with struct literals on is read the same with
/// them off.
proof fn lemma_fold_structs(s: Seq<TokV>, level: nat, acc: ExprV, q: int)
    ensures
        chain_fold(s, true, level, acc, q) is Some ==> chain_fold(s, false, level, acc, q) == chain_fold(
            s,
            true,
            level,
            acc,
            q,
        ),
    decreases level, 0nat, s.len() - q,
{
    match level_op(s, q, level) {
        None => {},
        Some(o) => if level == 0 || q < 0 || q >= s.len() {
        } else {
            lemma_chain_structs(s, q + 1, (level - 1) as nat);
            match chain_at(s, q + 1, true, (level - 1) as nat) {
                Some((b, q2)) => if q < q2 <= s.len() {
                    lemma_fold_structs(s, level, ExprV::BinaryOp(o, Box::new(acc), Box::new(b)), q2);
                },
                None => {},
            }
        },
    }
}

/// Binary operators keep their operands in source order: `a op b`, where
/// `a` and `b` are literals or names and no operator of the same or a
/// tighter level follows, is the operation `op` with `a` on the left and
/// `b` on the right.
pub proof fn law_operands_in_source_order(s: Seq<TokV>, p: int, structs: bool, level: nat)
    requires
        1 <= level <= 7,
        simple_operand(s, p, structs) is Some,
        level_op(s, p + 1, level) is Some,
        simple_operand(s, p + 2, structs) is Some,
        forall|l: nat| 1 <= l <= level ==> #[trigger] level_op(s, p + 3, l) is None,
    ensures
        chain_at(s, p, structs, level) == Some(
            (
                ExprV::BinaryOp(
                    level_op(s, p + 1, level)->Some_0,
                    Box::new(simple_operand(s, p, structs)->Some_0),
                    Box::new(simple_operand(s, p + 2, structs)->Some_0),
                ),
                p + 3,
            ),
        ),
{
    let a = simple_operand(s, p, structs)->Some_0;
    let b = simple_operand(s, p + 2, structs)->Some_0;
    let o = level_op(s, p + 1, level)->Some_0;
    lemma_operand_before_op(s, p, structs, level);
    lemma_operand_chain(s, p + 2, structs, (level - 1) as nat);
    assert(level_op(s, p + 3, level) is None);
    let ab = ExprV::BinaryOp(o, Box::new(a), Box::new(b));
    assert(chain_fold(s, structs, level, ab, p + 3) == Some((ab, p + 3)));
    assert(chain_fold(s, structs, level, a, p + 1) == Some((ab, p + 3)));
    assert(chain_at(s, p, structs, level) == chain_fold(s, structs, level, a, p + 1));
}

/// Operators of one level group to the left: `a op1 b op2 c` is
/// `(a op1 b) op2 c`.
pub proof fn law_left_associative(s: Seq<TokV>, p: int, structs: bool, level: nat)
    requires
        1 <= level <= 7,
        simple_operand(s, p, structs) is Some,
        level_op(s, p + 1, level) is Some,
        simple_operand(s, p + 2, structs) is Some,
        level_op(s, p + 3, level) is Some,
        simple_operand(s, p + 4, structs) is Some,
        forall|l: nat| 1 <= l <= level ==> #[trigger] level_op(s, p + 5, l) is None,
    ensures
        chain_at(s, p, structs, level) == Some(
            (
                ExprV::BinaryOp(
                    level_op(s, p + 3, level)->Some_0,
                    Box::new(
                        ExprV::BinaryOp(
                            level_op(s, p + 1, level)->Some_0,
                            Box::new(simple_operand(s, p, structs)->Some_0),
                            Box::new(simple_operand(s, p + 2, structs)->Some_0),
                        ),
                    ),
                    Box::new(simple_operand(s, p + 4, structs)->Some_0),
                ),
                p + 5,
            ),
        ),
{
    let a = simple_operand(s, p, structs)->Some_0;
    let b = simple_operand(s, p + 2, structs)->Some_0;
    let c = simple_operand(s, p + 4, structs)->Some_0;
    let o1 = level_op(s, p + 1, level)->Some_0;
    let o2 = level_op(s, p + 3, level)->Some_0;
    let ab = ExprV::BinaryOp(o1, Box::new(a), Box::new(b));
    let abc = ExprV::BinaryOp(o2, Box::new(ab), Box::new(c));
    lemma_operand_before_op(s, p, structs, level);
    lemma_operand_before_op(s, p + 2, structs, level);
    lemma_operand_chain(s, p + 4, structs, (level - 1) as nat);
    assert(level_op(s, p + 5, level) is None);
    assert(chain_fold(s, structs, level, abc, p + 5) == Some((abc, p + 5)));
    assert(chain_fold(s, structs, level, ab, p + 3) == Some((abc, p + 5)));
    assert(chain_fold(s, structs, level, a, p + 1) == Some((abc, p + 5)));
    assert(chain_at(s, p, structs, level) == chain_fold(s, structs, level, a, p + 1));
}

/// The forms whose subject is read with struct literals off, then a block.
pub enum SubjectForm {
    If,
    While,
    Match,
}

/// The form with subject `c` and nothing in its block.
pub open spec fn empty_form(k: SubjectForm, c: ExprV) -> ExprV {
    match k {
        SubjectForm::If => ExprV::IfElse(Box::new(c), Seq::empty(), Seq::empty()),
        SubjectForm::While => ExprV::WhileLoop(Box::new(c), Seq::empty()),
        SubjectForm::Match => ExprV::Match(Box::new(c), Seq::empty()),
    }
}

/// The subject of `e`, where `e` has the form `k`.
pub open spec fn subject_of(k: SubjectForm, e: ExprV) -> Option<ExprV> {
    match (k, e) {
        (SubjectForm::If, ExprV::IfElse(c, _, _)) => Some(*c),
        (SubjectForm::While, ExprV::WhileLoop(c, _)) => Some(*c),
        (SubjectForm::Match, ExprV::Match(c, _)) => Some(*c),
        _ => None,
    }
}

/// What a form `k` at `p` gives where its subject is missing or a lone
/// operand: a missing subject or `{` is the error; with an empty block (and,
/// for `if`, no `else`) the form with that subject and nothing else is the
/// result; and any result has that subject.
pub open spec fn subject_outcome(k: SubjectForm, s: Seq<TokV>, p: int, r: Result<Expr, String>) -> bool {
    &&& !starts_operand(tok_at(s, p + 1)) ==> r is Err && r->Err_0@ == unexpected_token_error(tok_at(s, p + 1))
    &&& lone_operand_in(s, p + 1, false) matches Some(c) ==> {
        &&& tok_at(s, p + 2) != Some(TokV::LBrace) ==> r is Err && r->Err_0@ == expect_error(s, p + 2, TokV::LBrace)
        &&& tok_at(s, p + 2) == Some(TokV::LBrace) && tok_at(s, p + 3) == Some(TokV::RBrace) && (k is If ==> tok_at(
            s,
            p + 4,
        ) != Some(TokV::Else)) ==> r is Ok && r->Ok_0@ == empty_form(k, c)
        &&& r is Ok ==> subject_of(k, r->Ok_0@) == Some(c)
    }
}

/// What a macro call `@name[(args)][{ statements }]` at `p` gives: without a
/// name, the error; without arguments or block, the bare call; and a result
/// is a call of that name.
pub open spec fn macro_call_outcome(s: Seq<TokV>, p: int, r: Result<Expr, String>) -> bool {
    match ident_at(s, p + 1) {
        None => r is Err && r->Err_0@ == ident_error(s, p + 1),
        Some(name) => {
            &&& tok_at(s, p + 2) != Some(TokV::LParen) && tok_at(s, p + 2) != Some(TokV::LBrace) ==> r is Ok
                && r->Ok_0@ == ExprV::MacroCall(name, Seq::empty(), None)
            &&& r is Ok ==> (r->Ok_0@ matches ExprV::MacroCall(n2, _, _) && n2 == name)
        },
    }
}

impl Parser {
    /// Parses an expression: a range `a..b`, or an operator expression.
    pub fn parse_expr(&mut self) -> (r: Result<Expr, String>)
        requires
            old(self).wf(),
        ensures
            Self::step_ok(*old(self), *final(self), r is Ok),
            !starts_operand(old(self).next_tok()) ==> r is Err && r->Err_0@ == unexpected_token_error(
                old(self).next_tok(),
            ),
            lone_operand(*old(self)) matches Some(e) ==> r is Ok && r->Ok_0@ == e && final(self).position()
                == old(self).position() + 1,
            chain_at(old(self).toks(), old(self).position(), old(self).allows_struct(), 7) matches Some((e, q))
                ==> (tok_at(old(self).toks(), q) != Some(TokV::DotDot) ==> r is Ok && r->Ok_0@ == e
                && final(self).position() == q && final(self).allows_struct() == old(self).allows_struct()),
            chain_at(old(self).toks(), old(self).position(), old(self).allows_struct(), 7) matches Some((a, q))
                ==> (tok_at(old(self).toks(), q) == Some(TokV::DotDot) ==> (chain_at(
                old(self).toks(),
                q + 1,
                old(self).allows_struct(),
                7,
            ) matches Some((b, q2)) ==> r is Ok && r->Ok_0@ == ExprV::Range(Box::new(a), Box::new(b))
                && final(self).position() == q2)),
        decreases old(self).len() - old(self).position(), 30nat,
    {
        let left = self.parse_or()?;
        if self.peek_is(&Token::DotDot) {
            self.skip();
            let right = self.parse_or()?;
            return Ok(Expr::Range { start: Box::new(left), end: Box::new(right) });
        }
        Ok(left)
    }

    pub(crate) fn parse_or(&mut self) -> (r: Result<Expr, String>)
        requires
            old(self).wf(),
        ensures
            Self::step_ok(*old(self), *final(self), r is Ok),
            !starts_operand(old(self).next_tok()) ==> r is Err && r->Err_0@ == unexpected_token_error(
                old(self).next_tok(),
            ),
            lone_operand(*old(self)) matches Some(e) ==> r is Ok && r->Ok_0@ == e && final(self).position()
                == old(self).position() + 1,
            chain_at(old(self).toks(), old(self).position(), old(self).allows_struct(), 7) matches Some((e, q))
                ==> r is Ok && r->Ok_0@ == e && final(self).position() == q && final(self).allows_struct()
                == old(self).allows_struct(),
        decreases old(self).len() - old(self).position(), 29nat,
    {
        let mut left = self.parse_and()?;
        while self.peek_is(&Token::PipePipe) || self.peek_is(&Token::Pipe)
            invariant
                self.wf(),
                Self::progressed(*old(self), *self),
                starts_operand(old(self).next_tok()),
                lone_operand(*old(self)) matches Some(e) ==> self.position() == old(self).position() + 1 && left@ == e,
                chain_at(old(self).toks(), old(self).position(), old(self).allows_struct(), 7) matches Some((e, q))
                    ==> chain_fold(old(self).toks(), old(self).allows_struct(), 7, left@, self.position()) == Some(
                    (e, q),
                ) && self.allows_struct() == old(self).allows_struct(),
            decreases self.len() - self.position(),
        {
            self.skip();
            let right = self.parse_and()?;
            left = Expr::BinaryOp { op: BinOp::Or, left: Box::new(left), right: Box::new(right) };
        }
        Ok(left)
    }

    pub(crate) fn parse_and(&mut self) -> (r: Result<Expr, String>)
        requires
            old(self).wf(),
        ensures
            Self::step_ok(*old(self), *final(self), r is Ok),
            !starts_operand(old(self).next_tok()) ==> r is Err && r->Err_0@ == unexpected_token_error(
                old(self).next_tok(),
            ),
            lone_operand(*old(self)) matches Some(e) ==> r is Ok && r->Ok_0@ == e && final(self).position()
                == old(self).position() + 1,
            chain_at(old(self).toks(), old(self).position(), old(self).allows_struct(), 6) matches Some((e, q))
                ==> r is Ok && r->Ok_0@ == e && final(self).position() == q && final(self).allows_struct()
                == old(self).allows_struct(),
        decreases old(self).len() - old(self).position(), 28nat,
    {
        let mut left = self.parse_comparison()?;
        while self.peek_is(&Token::AmpAmp)
            invariant
                self.wf(),
                Self::progressed(*old(self), *self),
                starts_operand(old(self).next_tok()),
                lone_operand(*old(self)) matches Some(e) ==> self.position() == old(self).position() + 1 && left@ == e,
                chain_at(old(self).toks(), old(self).position(), old(self).allows_struct(), 6) matches Some((e, q))
                    ==> chain_fold(old(self).toks(), old(self).allows_struct(), 6, left@, self.position()) == Some(
                    (e, q),
                ) && self.allows_struct() == old(self).allows_struct(),
            decreases self.len() - self.position(),
        {
            self.skip();
            let right = self.parse_comparison()?;
            left = Expr::BinaryOp { op: BinOp::And, left: Box::new(left), right: Box::new(right) };
        }
        Ok(left)
    }

    pub(crate) fn parse_comparison(&mut self) -> (r: Result<Expr, String>)
        requires
            old(self).wf(),
        ensures
            Self::step_ok(*old(self), *final(self), r is Ok),
            !starts_operand(old(self).next_tok()) ==> r is Err && r->Err_0@ == unexpected_token_error(
                old(self).next_tok(),
            ),
            lone_operand(*old(self)) matches Some(e) ==> r is Ok && r->Ok_0@ == e && final(self).position()
                == old(self).position() + 1,
            chain_at(old(self).toks(), old(self).position(), old(self).allows_struct(), 5) matches Some((e, q))
                ==> r is Ok && r->Ok_0@ == e && final(self).position() == q && final(self).allows_struct()
                == old(self).allows_struct(),
        decreases old(self).len() - old(self).position(), 27nat,
    {
        let mut left = self.parse_bitwise()?;
        loop
            invariant
                self.wf(),
                Self::progressed(*old(self), *self),
                starts_operand(old(self).next_tok()),
                lone_operand(*old(self)) matches Some(e) ==> self.position() == old(self).position() + 1 && left@ == e,
                chain_at(old(self).toks(), old(self).position(), old(self).allows_struct(), 5) matches Some((e, q))
                    ==> chain_fold(old(self).toks(), old(self).allows_struct(), 5, left@, self.position()) == Some(
                    (e, q),
                ) && self.allows_struct() == old(self).allows_struct(),
            decreases self.len() - self.position(),
        {
            let op = match self.peek() {
                Some(Token::EqEq) => BinOp::Eq,
                Some(Token::Neq) => BinOp::Neq,
                Some(Token::Lt) => BinOp::Lt,
                Some(Token::Gt) => BinOp::Gt,
                Some(Token::Lte) => BinOp::Lte,
                Some(Token::Gte) => BinOp::Gte,
                _ => {
                    return Ok(left);
                },
            };
            self.skip();
            let right = self.parse_bitwise()?;
            left = Expr::BinaryOp { op, left: Box::new(left), right: Box::new(right) };
        }
    }

    pub(crate) fn parse_bitwise(&mut self) -> (r: Result<Expr, String>)
        requires
            old(self).wf(),
        ensures
            Self::step_ok(*old(self), *final(self), r is Ok),
            !starts_operand(old(self).next_tok()) ==> r is Err && r->Err_0@ == unexpected_token_error(
                old(self).next_tok(),
            ),
            lone_operand(*old(self)) matches Some(e) ==> r is Ok && r->Ok_0@ == e && final(self).position()
                == old(self).position() + 1,
            chain_at(old(self).toks(), old(self).position(), old(self).allows_struct(), 4) matches Some((e, q))
                ==> r is Ok && r->Ok_0@ == e && final(self).position() == q && final(self).allows_struct()
                == old(self).allows_struct(),
        decreases old(self).len() - old(self).position(), 26nat,
    {
        let mut left = self.parse_shift()?;
        loop
            invariant
                self.wf(),
                Self::progressed(*old(self), *self),
                starts_operand(old(self).next_tok()),
                lone_operand(*old(self)) matches Some(e) ==> self.position() == old(self).position() + 1 && left@ == e,
                chain_at(old(self).toks(), old(self).position(), old(self).allows_struct(), 4) matches Some((e, q))
                    ==> chain_fold(old(self).toks(), old(self).allows_struct(), 4, left@, self.position()) == Some(
                    (e, q),
                ) && self.allows_struct() == old(self).allows_struct(),
            decreases self.len() - self.position(),
        {
            // `&` followed by another `&` is not a bitwise and.
            let is_bit_and = match self.peek() {
                Some(Token::Amp) => match self.peek_ahead(1) {
                    Some(Token::Amp) => false,
                    Some(_) => true,
                    None => false,
                },
                _ => false,
            };
            if !is_bit_and {
                return Ok(left);
            }
            self.skip();
            let right = self.parse_shift()?;
            left = Expr::BinaryOp { op: BinOp::BitAnd, left: Box::new(left), right: Box::new(right) };
        }
    }

    pub(crate) fn parse_shift(&mut self) -> (r: Result<Expr, String>)
        requires
            old(self).wf(),
        ensures
            Self::step_ok(*old(self), *final(self), r is Ok),
            !starts_operand(old(self).next_tok()) ==> r is Err && r->Err_0@ == unexpected_token_error(
                old(self).next_tok(),
            ),
            lone_operand(*old(self)) matches Some(e) ==> r is Ok && r->Ok_0@ == e && final(self).position()
                == old(self).position() + 1,
            chain_at(old(self).toks(), old(self).position(), old(self).allows_struct(), 3) matches Some((e, q))
                ==> r is Ok && r->Ok_0@ == e && final(self).position() == q && final(self).allows_struct()
                == old(self).allows_struct(),
        decreases old(self).len() - old(self).position(), 25nat,
    {
        let mut left = self.parse_additive()?;
        loop
            invariant
                self.wf(),
                Self::progressed(*old(self), *self),
                starts_operand(old(self).next_tok()),
                lone_operand(*old(self)) matches Some(e) ==> self.position() == old(self).position() + 1 && left@ == e,
                chain_at(old(self).toks(), old(self).position(), old(self).allows_struct(), 3) matches Some((e, q))
                    ==> chain_fold(old(self).toks(), old(self).allows_struct(), 3, left@, self.position()) == Some(
                    (e, q),
                ) && self.allows_struct() == old(self).allows_struct(),
            decreases self.len() - self.position(),
        {
            let op = match self.peek() {
                Some(Token::Shl) => BinOp::Shl,
                Some(Token::Shr) => BinOp::Shr,
                _ => {
                    return Ok(left);
                },
            };
            self.skip();
            let right = self.parse_additive()?;
            left = Expr::BinaryOp { op, left: Box::new(left), right: Box::new(right) };
        }
    }

    pub(crate) fn parse_additive(&mut self) -> (r: Result<Expr, String>)
        requires
            old(self).wf(),
        ensures
            Self::step_ok(*old(self), *final(self), r is Ok),
            !starts_operand(old(self).next_tok()) ==> r is Err && r->Err_0@ == unexpected_token_error(
                old(self).next_tok(),
            ),
            lone_operand(*old(self)) matches Some(e) ==> r is Ok && r->Ok_0@ == e && final(self).position()
                == old(self).position() + 1,
            chain_at(old(self).toks(), old(self).position(), old(self).allows_struct(), 2) matches Some((e, q))
                ==> r is Ok && r->Ok_0@ == e && final(self).position() == q && final(self).allows_struct()
                == old(self).allows_struct(),
        decreases old(self).len() - old(self).position(), 24nat,
    {
        let mut left = self.parse_multiplicative()?;
        loop
            invariant
                self.wf(),
                Self::progressed(*old(self), *self),
                starts_operand(old(self).next_tok()),
                lone_operand(*old(self)) matches Some(e) ==> self.position() == old(self).position() + 1 && left@ == e,
                chain_at(old(self).toks(), old(self).position(), old(self).allows_struct(), 2) matches Some((e, q))
                    ==> chain_fold(old(self).toks(), old(self).allows_struct(), 2, left@, self.position()) == Some(
                    (e, q),
                ) && self.allows_struct() == old(self).allows_struct(),
            decreases self.len() - self.position(),
        {
            let op = match self.peek() {
                Some(Token::Plus) => BinOp::Add,
                Some(Token::Minus) => BinOp::Sub,
                _ => {
                    return Ok(left);
                },
            };
            self.skip();
            let right = self.parse_multiplicative()?;
            left = Expr::BinaryOp { op, left: Box::new(left), right: Box::new(right) };
        }
    }

    pub(crate) fn parse_multiplicative(&mut self) -> (r: Result<Expr, String>)
        requires
            old(self).wf(),
        ensures
            Self::step_ok(*old(self), *final(self), r is Ok),
            !starts_operand(old(self).next_tok()) ==> r is Err && r->Err_0@ == unexpected_token_error(
                old(self).next_tok(),
            ),
            lone_operand(*old(self)) matches Some(e) ==> r is Ok && r->Ok_0@ == e && final(self).position()
                == old(self).position() + 1,
            chain_at(old(self).toks(), old(self).position(), old(self).allows_struct(), 1) matches Some((e, q))
                ==> r is Ok && r->Ok_0@ == e && final(self).position() == q && final(self).allows_struct()
                == old(self).allows_struct(),
        decreases old(self).len() - old(self).position(), 23nat,
    {
        let mut left = self.parse_unary()?;
        loop
            invariant
                self.wf(),
                Self::progressed(*old(self), *self),
                starts_operand(old(self).next_tok()),
                lone_operand(*old(self)) matches Some(e) ==> self.position() == old(self).position() + 1 && left@ == e,
                chain_at(old(self).toks(), old(self).position(), old(self).allows_struct(), 1) matches Some((e, q))
                    ==> chain_fold(old(self).toks(), old(self).allows_struct(), 1, left@, self.position()) == Some(
                    (e, q),
                ) && self.allows_struct() == old(self).allows_struct(),
            decreases self.len() - self.position(),
        {
            let op = match self.peek() {
                Some(Token::Star) => BinOp::Mul,
                Some(Token::Slash) => BinOp::Div,
                Some(Token::Percent) => BinOp::Mod,
                _ => {
                    return Ok(left);
                },
            };
            self.skip();
            let right = self.parse_unary()?;
            left = Expr::BinaryOp { op, left: Box::new(left), right: Box::new(right) };
        }
    }

    pub(crate) fn parse_unary(&mut self) -> (r: Result<Expr, String>)
        requires
            old(self).wf(),
        ensures
            Self::step_ok(*old(self), *final(self), r is Ok),
            !starts_operand(old(self).next_tok()) ==> r is Err && r->Err_0@ == unexpected_token_error(
                old(self).next_tok(),
            ),
            lone_operand(*old(self)) matches Some(e) ==> r is Ok && r->Ok_0@ == e && final(self).position()
                == old(self).position() + 1,
            chain_at(old(self).toks(), old(self).position(), old(self).allows_struct(), 0) matches Some((e, q))
                ==> r is Ok && r->Ok_0@ == e && final(self).position() == q && final(self).allows_struct()
                == old(self).allows_struct(),
            prefix_op(old(self).next_tok()) matches Some(op) ==> (chain_at(
                old(self).toks(),
                old(self).position() + 1,
                old(self).allows_struct(),
                0,
            ) matches Some((e, q)) ==> r is Ok && r->Ok_0@ == ExprV::UnaryOp(op, Box::new(e))
                && final(self).position() == q),
            ({
                let s = old(self).toks();
                let at = if tok_at(s, old(self).position() + 1) == Some(TokV::Mut) {
                    old(self).position() + 2
                } else {
                    old(self).position() + 1
                };
                old(self).next_tok() == Some(TokV::Amp) ==> (chain_at(s, at, old(self).allows_struct(), 0) matches Some(
                    (e, q),
                ) ==> r is Ok && r->Ok_0@ == ExprV::AddressOf(Box::new(e)) && final(self).position() == q)
            }),
        decreases old(self).len() - old(self).position(), 22nat,
    {
        let op = match self.peek() {
            Some(Token::Minus) => Some(UnaryOp::Neg),
            Some(Token::Bang) => Some(UnaryOp::Not),
            Some(Token::Star) => Some(UnaryOp::Deref),
            Some(Token::Amp) => None,
            _ => {
                return self.parse_postfix();
            },
        };
        self.skip();
        match op {
            Some(op) => {
                let expr = self.parse_unary()?;
                Ok(Expr::UnaryOp { op, expr: Box::new(expr) })
            },
            None => {
                // `&mut x` and `&x` are both address-of; `mut` is consumed but not kept.
                if self.peek_is(&Token::Mut) {
                    self.skip();
                }
                let expr = self.parse_unary()?;
                Ok(Expr::AddressOf { target: Box::new(expr) })
            },
        }
    }

    /// Parses comma-separated expressions up to (not including) `)`.
    pub(crate) fn parse_call_args(&mut self, args: &mut Vec<Expr>) -> (r: Result<(), String>)
        requires
            old(self).wf(),
        ensures
            Self::moved(*old(self), *final(self)),
            final(args)@.len() >= old(args)@.len(),
            final(args)@.subrange(0, old(args)@.len() as int) == old(args)@,
            old(self).next_tok() == Some(TokV::RParen) ==> r is Ok && final(args)@ == old(args)@ && *final(self)
                == *old(self),
            r is Ok && old(self).next_tok() != Some(TokV::RParen) ==> final(args)@.len() > old(args)@.len()
                && final(self).next_tok() != Some(TokV::Comma),
            old(self).next_tok() != Some(TokV::RParen) && !starts_operand(old(self).next_tok()) ==> r is Err
                && r->Err_0@ == unexpected_token_error(old(self).next_tok()),
            lone_operand(*old(self)) is Some && tok_at(old(self).toks(), old(self).position() + 1) != Some(TokV::Comma)
                ==> r is Ok && final(args)@ == old(args)@.push(final(args)@.last()) && final(args)@.last()@
                == lone_operand(*old(self))->Some_0 && final(self).position() == old(self).position() + 1,
        decreases old(self).len() - old(self).position(), 31nat,
    {
        if !self.peek_is(&Token::RParen) {
            let first = self.parse_expr()?;
            args.push(first);
            let ghost after_first = args@;
            while self.peek_is(&Token::Comma)
                invariant
                    self.wf(),
                    Self::progressed(*old(self), *self),
                    args@.len() > old(args)@.len(),
                    args@.subrange(0, old(args)@.len() as int) == old(args)@,
                    old(self).next_tok() != Some(TokV::RParen),
                    starts_operand(old(self).next_tok()),
                    lone_operand(*old(self)) is Some && tok_at(old(self).toks(), old(self).position() + 1) != Some(
                        TokV::Comma,
                    ) ==> self.position() == old(self).position() + 1 && args@ == old(args)@.push(args@.last())
                        && args@.last()@ == lone_operand(*old(self))->Some_0,
                decreases self.len() - self.position(),
            {
                self.skip();
                let next = self.parse_expr()?;
                let ghost prev = args@;
                args.push(next);
                proof {
                    assert(args@.subrange(0, old(args)@.len() as int) =~= prev.subrange(0, old(args)@.len() as int));
                }
            }
            proof {
                assert(after_first.subrange(0, old(args)@.len() as int) =~= old(args)@);
            }
        } else {
            proof {
                assert(args@.subrange(0, old(args)@.len() as int) =~= old(args)@);
            }
        }
        Ok(())
    }

    pub(crate) fn parse_postfix(&mut self) -> (r: Result<Expr, String>)
        requires
            old(self).wf(),
        ensures
            Self::step_ok(*old(self), *final(self), r is Ok),
            !starts_operand(old(self).next_tok()) ==> r is Err && r->Err_0@ == unexpected_token_error(
                old(self).next_tok(),
            ),
            lone_operand(*old(self)) matches Some(e) ==> r is Ok && r->Ok_0@ == e && final(self).position()
                == old(self).position() + 1,
            chain_at(old(self).toks(), old(self).position(), old(self).allows_struct(), 0) matches Some((e, q))
                ==> r is Ok && r->Ok_0@ == e && final(self).position() == q && final(self).allows_struct()
                == old(self).allows_struct(),
        decreases old(self).len() - old(self).position(), 21nat,
    {
        let mut expr = self.parse_primary()?;
        loop
            invariant
                self.wf(),
                Self::progressed(*old(self), *self),
                starts_operand(old(self).next_tok()),
                lone_operand(*old(self)) matches Some(e) ==> self.position() == old(self).position() + 1 && expr@ == e,
                chain_at(old(self).toks(), old(self).position(), old(self).allows_struct(), 0) matches Some((e, q))
                    ==> self.position() == q && expr@ == e && self.allows_struct() == old(self).allows_struct(),
            decreases self.len() - self.position(),
        {
            if self.peek_is(&Token::Dot) {
                self.skip();
                // Tuple element: expr.0
                let idx = match self.peek() {
                    Some(Token::Int(n)) => Some(*n),
                    _ => None,
                };
                if let Some(n) = idx {
                    self.skip();
                    expr = Expr::TupleIndex {
                        target: Box::new(expr),
                        index: #[verifier::truncate] (n as usize),
                    };
                } else {
                    // UFCS: expr.method(args)  =>  method(expr, args)
                    let method_name = self.expect_ident()?;
                    self.expect(&Token::LParen)?;
                    let mut args = Vec::new();
                    args.push(expr);
                    self.parse_call_args(&mut args)?;
                    self.expect(&Token::RParen)?;
                    expr = Expr::FunctionCall { name: method_name, args };
                }
            } else if self.peek_is(&Token::LBracket) {
                self.skip();
                // Slice: expr[a..b], expr[..b], expr[a..]; index: expr[i]
                let start = if self.peek_is(&Token::DotDot) {
                    None
                } else {
                    Some(self.parse_or()?)
                };
                if self.peek_is(&Token::DotDot) {
                    self.skip();
                    let end = if self.peek_is(&Token::RBracket) {
                        None
                    } else {
                        Some(Box::new(self.parse_or()?))
                    };
                    self.expect(&Token::RBracket)?;
                    let start_box = match start {
                        Some(e) => Some(Box::new(e)),
                        None => None,
                    };
                    expr = Expr::SliceIndex { target: Box::new(expr), start: start_box, end };
                } else {
                    self.expect(&Token::RBracket)?;
                    match start {
                        Some(index) => {
                            expr = Expr::ArrayIndex { target: Box::new(expr), index: Box::new(index) };
                        },
                        None => {
                            return Err(string_of("Parser error: expected index expression"));
                        },
                    }
                }
            } else if self.peek_is(&Token::LParen) {
                // Function call: name(args)
                match expr {
                    Expr::Variable(name) => {
                        self.skip();
                        let mut args = Vec::new();
                        self.parse_call_args(&mut args)?;
                        self.expect(&Token::RParen)?;
                        expr = Expr::FunctionCall { name, args };
                    },
                    other => {
                        return Ok(other);
                    },
                }
            } else {
                return Ok(expr);
            }
        }
    }

    pub(crate) fn parse_primary(&mut self) -> (r: Result<Expr, String>)
        requires
            old(self).wf(),
        ensures
            Self::step_ok(*old(self), *final(self), r is Ok),
            !starts_operand(old(self).next_tok()) ==> r is Err && r->Err_0@ == unexpected_token_error(
                old(self).next_tok(),
            ),
            lone_operand(*old(self)) matches Some(e) ==> r is Ok && r->Ok_0@ == e && final(self).position()
                == old(self).position() + 1,
            chain_at(old(self).toks(), old(self).position(), old(self).allows_struct(), 0) matches Some((e, q))
                ==> r is Ok && r->Ok_0@ == e && final(self).position() == q && final(self).allows_struct()
                == old(self).allows_struct(),
        decreases old(self).len() - old(self).position(), 20nat,
    {
        let lit = match self.peek() {
            Some(Token::Int(val)) => Some(Expr::IntLiteral(*val)),
            Some(Token::Str(s)) => Some(Expr::StringLiteral(s.clone())),
            Some(Token::True) => Some(Expr::BoolLiteral(true)),
            Some(Token::False) => Some(Expr::BoolLiteral(false)),
            _ => None,
        };
        if let Some(e) = lit {
            self.skip();
            return Ok(e);
        }
        if self.peek_is(&Token::If) {
            return self.parse_if_expr();
        }
        if self.peek_is(&Token::At) {
            return self.parse_macro_call();
        }
        if self.peek_is(&Token::Match) {
            return self.parse_match();
        }
        let is_ident = match self.peek() {
            Some(Token::Ident(_)) => true,
            _ => false,
        };
        if is_ident {
            let name = self.parse_namespaced_ident()?;
            // Struct literal: TypeName { field: value, ... }
            if self.allow_struct && self.peek_is(&Token::LBrace) {
                self.skip();
                let mut fields: Vec<(String, Expr)> = Vec::new();
                while !self.peek_is(&Token::RBrace)
                    invariant
                        self.wf(),
                        Self::progressed(*old(self), *self),
                        starts_operand(old(self).next_tok()),
                        lone_operand(*old(self)) is None,
                        chain_at(old(self).toks(), old(self).position(), old(self).allows_struct(), 0) is None,
                    decreases self.len() - self.position(),
                {
                    let field_name = self.expect_ident()?;
                    self.expect(&Token::Colon)?;
                    let field_val = self.parse_expr()?;
                    fields.push((field_name, field_val));
                    if self.peek_is(&Token::Comma) {
                        self.skip();
                    }
                }
                self.expect(&Token::RBrace)?;
                return Ok(Expr::StructInitialization { ty_name: name, fields });
            }
            return Ok(Expr::Variable(name));
        }
        if self.peek_is(&Token::LParen) {
            self.skip();
            // `()` is the empty tuple.
            if self.peek_is(&Token::RParen) {
                self.skip();
                return Ok(Expr::TupleLiteral { elements: Vec::new() });
            }
            let first = self.parse_expr()?;
            if !self.peek_is(&Token::Comma) {
                self.expect(&Token::RParen)?;
                return Ok(first);
            }
            // Tuple literal: (a, b, ...), with an optional trailing comma.
            let mut elements = Vec::new();
            elements.push(first);
            while self.peek_is(&Token::Comma)
                invariant
                    self.wf(),
                    Self::progressed(*old(self), *self),
                    starts_operand(old(self).next_tok()),
                    lone_operand(*old(self)) is None,
                    chain_at(old(self).toks(), old(self).position(), old(self).allows_struct(), 0) is None,
                decreases self.len() - self.position(),
            {
                self.skip();
                if self.peek_is(&Token::RParen) {
                    break;
                }
                let next = self.parse_expr()?;
                elements.push(next);
            }
            self.expect(&Token::RParen)?;
            return Ok(Expr::TupleLiteral { elements });
        }
        if self.peek_is(&Token::LBracket) {
            // Array literal: [expr, expr, ...]
            self.skip();
            let mut elements = Vec::new();
            if !self.peek_is(&Token::RBracket) {
                let first = self.parse_expr()?;
                elements.push(first);
                while self.peek_is(&Token::Comma)
                    invariant
                        self.wf(),
                        Self::progressed(*old(self), *self),
                        starts_operand(old(self).next_tok()),
                        lone_operand(*old(self)) is None,
                        chain_at(old(self).toks(), old(self).position(), old(self).allows_struct(), 0) is None,
                    decreases self.len() - self.position(),
                {
                    self.skip();
                    let next = self.parse_expr()?;
                    elements.push(next);
                }
            }
            self.expect(&Token::RBracket)?;
            return Ok(Expr::ArrayLiteral { elements });
        }
        let mut m = string_of("Parser error: unexpected token ");
        push_debug_opt(&mut m, self.peek());
        Err(m)
    }

    /// Parses statements up to (not including) the closing `}`; when
    /// `stop_at_end` holds it also stops when the tokens run out.
    pub(crate) fn parse_block_body(&mut self, body: &mut Vec<Expr>, stop_at_end: bool) -> (r: Result<(), String>)
        requires
            old(self).wf(),
        ensures
            Self::moved(*old(self), *final(self)),
            !goes_on(*old(self), true, stop_at_end) ==> r is Ok && *final(self) == *old(self) && final(body)@ == old(
                body,
            )@,
            r is Ok ==> !goes_on(*final(self), true, stop_at_end) && exists|ps: Seq<Parser>, v: Seq<Expr>|
                #[trigger] statements_trace(ps, v, true, stop_at_end) && ps[0] == *old(self) && ps.last()
                    == *final(self) && final(body)@ == old(body)@ + v,
            r matches Err(m) ==> exists|ps: Seq<Parser>, v: Seq<Expr>|
                #[trigger] statements_trace(ps, v, true, stop_at_end) && ps[0] == *old(self) && goes_on(
                    ps.last(),
                    true,
                    stop_at_end,
                ) && statement_outcome(ps.last(), *final(self), Err(m)) && final(body)@ == old(body)@ + v,
        decreases old(self).len() - old(self).position(), 41nat,
    {
        let ghost mut ps: Seq<Parser> = seq![*self];
        let ghost mut v: Seq<Expr> = Seq::empty();
        proof {
            assert(body@ =~= old(body)@ + v);
        }
        while !self.peek_is(&Token::RBrace) && (!stop_at_end || self.peek().is_some())
            invariant
                self.wf(),
                Self::moved(*old(self), *self),
                statements_trace(ps, v, true, stop_at_end),
                ps[0] == *old(self),
                ps.last() == *self,
                body@ == old(body)@ + v,
                !goes_on(*old(self), true, stop_at_end) ==> *self == *old(self) && v.len() == 0,
            decreases self.len() - self.position(),
        {
            let res = self.parse_statement();
            let stmt = match res {
                Ok(stmt) => stmt,
                Err(m) => {
                    proof {
                        assert(statements_trace(ps, v, true, stop_at_end));
                    }
                    return Err(m);
                },
            };
            proof {
                lemma_trace_push(ps, v, true, stop_at_end, *self, stmt);
                ps = ps.push(*self);
                v = v.push(stmt);
            }
            body.push(stmt);
            proof {
                assert(body@ =~= old(body)@ + v);
            }
        }
        proof {
            assert(statements_trace(ps, v, true, stop_at_end));
        }
        Ok(())
    }

    pub(crate) fn parse_if_expr(&mut self) -> (r: Result<Expr, String>)
        requires
            old(self).wf(),
            old(self).next_tok() == Some(TokV::If),
        ensures
            Self::step_ok(*old(self), *final(self), r is Ok),
            r is Ok ==> r->Ok_0 is IfElse,
            subject_outcome(SubjectForm::If, old(self).toks(), old(self).position(), r),
        decreases old(self).len() - old(self).position(), 19nat,
    {
        proof {
            self.lemma_wf();
        }
        self.skip();  // `if`
        self.allow_struct = false;
        let condition = self.parse_expr();
        self.allow_struct = true;
        let condition = condition?;
        self.expect(&Token::LBrace)?;
        let mut then_body = Vec::new();
        self.parse_block_body(&mut then_body, false)?;
        self.expect(&Token::RBrace)?;
        let mut else_body = Vec::new();
        proof {
            assert(crate::ast::exprs_v(else_body@) =~= Seq::<ExprV>::empty());
            if then_body@.len() == 0 {
                assert(crate::ast::exprs_v(then_body@) =~= Seq::<ExprV>::empty());
            }
        }
        if self.peek_is(&Token::Else) {
            self.skip();
            if self.peek_is(&Token::If) {
                let nested = self.parse_if_expr()?;
                else_body.push(nested);
            } else {
                self.expect(&Token::LBrace)?;
                self.parse_block_body(&mut else_body, false)?;
                self.expect(&Token::RBrace)?;
            }
        }
        Ok(Expr::IfElse { condition: Box::new(condition), then_body, else_body })
    }

    /// Parses a name with optional `::`-separated parts (`a::b::c`).
    pub fn parse_namespaced_ident(&mut self) -> (r: Result<String, String>)
        requires
            old(self).wf(),
        ensures
            Self::step_ok(*old(self), *final(self), r is Ok),
            final(self).allows_struct() == old(self).allows_struct(),
            ({
                let (res, end) = spec_namespaced(old(self).toks(), old(self).position());
                &&& final(self).position() == end
                &&& match res {
                    Ok(n) => r is Ok && r->Ok_0@ == n,
                    Err(m) => r is Err && r->Err_0@ == m,
                }
            }),
    {
        let ghost s = self.toks();
        let mut name = self.expect_ident()?;
        while self.peek_is(&Token::ColonColon)
            invariant
                self.wf(),
                Self::progressed(*old(self), *self),
                self.toks() == s,
                self.allows_struct() == old(self).allows_struct(),
                spec_namespaced(s, old(self).position()) == spec_namespace_rest(
                    s,
                    self.position(),
                    name@,
                ),
            decreases self.len() - self.position(),
        {
            self.skip();
            let sub_name = self.expect_ident()?;
            push_str(&mut name, "::");
            push_string(&mut name, &sub_name);
        }
        Ok(name)
    }

    pub(crate) fn parse_macro_call(&mut self) -> (r: Result<Expr, String>)
        requires
            old(self).wf(),
            old(self).next_tok() == Some(TokV::At),
        ensures
            Self::step_ok(*old(self), *final(self), r is Ok),
            macro_call_outcome(old(self).toks(), old(self).position(), r),
        decreases old(self).len() - old(self).position(), 19nat,
    {
        proof {
            self.lemma_wf();
        }
        self.skip();  // `@`
        let name = self.expect_ident()?;
        let mut args = Vec::new();
        proof {
            assert(crate::ast::exprs_v(args@) =~= Seq::<ExprV>::empty());
        }
        let mut body = None;
        if self.peek_is(&Token::LParen) {
            self.skip();
            self.parse_call_args(&mut args)?;
            self.expect(&Token::RParen)?;
        }
        if self.peek_is(&Token::LBrace) {
            self.skip();
            let mut block_body = Vec::new();
            self.parse_block_body(&mut block_body, false)?;
            self.expect(&Token::RBrace)?;
            body = Some(block_body);
        }
        Ok(Expr::MacroCall { name, args, body })
    }

    pub(crate) fn parse_match(&mut self) -> (r: Result<Expr, String>)
        requires
            old(self).wf(),
            old(self).next_tok() == Some(TokV::Match),
        ensures
            Self::step_ok(*old(self), *final(self), r is Ok),
            subject_outcome(SubjectForm::Match, old(self).toks(), old(self).position(), r),
        decreases old(self).len() - old(self).position(), 19nat,
    {
        proof {
            self.lemma_wf();
        }
        let ghost s = self.toks();
        let ghost p = self.position();
        self.skip();  // `match`
        let saved_allow = self.allow_struct;
        self.allow_struct = false;
        let target = self.parse_expr()?;
        self.allow_struct = saved_allow;
        self.expect(&Token::LBrace)?;
        let mut arms: Vec<MatchArm> = Vec::new();
        proof {
            assert(crate::ast::arms_v(arms@) =~= Seq::<(PatternV, Option<ExprV>, ExprV)>::empty());
        }
        let ghost tv = target@;
        while !self.peek_is(&Token::RBrace)
            invariant
                self.wf(),
                Self::progressed(*old(self), *self),
                s == old(self).toks(),
                p == old(self).position(),
                s == self.toks(),
                tv == target@,
                starts_operand(tok_at(s, p + 1)),
                lone_operand_in(s, p + 1, false) is Some ==> lone_operand_in(s, p + 1, false)->Some_0 == tv && tok_at(
                    s,
                    p + 2,
                ) == Some(TokV::LBrace),
                lone_operand_in(s, p + 1, false) is Some && tok_at(s, p + 3) == Some(TokV::RBrace) ==> self.position()
                    == p + 3 && arms@.len() == 0,
            decreases self.len() - self.position(),
        {
            let pattern = self.parse_pattern()?;
            let guard = if self.peek_is(&Token::If) {
                self.skip();
                Some(self.parse_expr()?)
            } else {
                None
            };
            self.expect(&Token::FatArrow)?;
            let body = self.parse_statement()?;
            arms.push(MatchArm { pattern, guard, body });
            if self.peek_is(&Token::Comma) {
                self.skip();
            }
        }
        self.expect(&Token::RBrace)?;
        proof {
            if arms@.len() == 0 {
                assert(crate::ast::arms_v(arms@) =~= Seq::<(PatternV, Option<ExprV>, ExprV)>::empty());
            }
        }
        Ok(Expr::Match { target: Box::new(target), arms })
    }

    /// Parses a pattern: `_`, a literal, a name, `Enum::Variant(p, ...)`,
    /// `Name { field: p, ... }` or `(p, ...)`.
    #[verifier::rlimit(100)]
    pub(crate) fn parse_pattern(&mut self) -> (r: Result<Pattern, String>)
        requires
            old(self).wf(),
        ensures
            Self::step_ok(*old(self), *final(self), r is Ok),
            final(self).allows_struct() == old(self).allows_struct(),
            pattern_outcome(*old(self), *final(self), r, sp_pattern(old(self).toks(), old(self).position())),
        decreases old(self).len() - old(self).position(), 19nat,
    {
        proof {
            self.lemma_wf();
        }
        let ghost s = self.toks();
        let ghost p = self.position();
        if self.peek_is(&Token::Underscore) {
            self.skip();
            return Ok(Pattern::Wildcard);
        }
        let lit = match self.peek() {
            Some(Token::Int(v)) => Some(Expr::IntLiteral(*v)),
            Some(Token::Str(s)) => Some(Expr::StringLiteral(s.clone())),
            Some(Token::True) => Some(Expr::BoolLiteral(true)),
            Some(Token::False) => Some(Expr::BoolLiteral(false)),
            _ => None,
        };
        if let Some(e) = lit {
            self.skip();
            return Ok(Pattern::Literal(Box::new(e)));
        }
        if self.peek_is(&Token::Minus) {
            if let Some(Token::Int(v)) = self.peek_ahead(1) {
                let n = *v;
                self.skip();
                self.skip();
                let lit = Expr::IntLiteral(n);
                proof {
                    assert(lit@ == ExprV::IntLiteral(n));
                }
                let neg = Expr::UnaryOp { op: UnaryOp::Neg, expr: Box::new(lit) };
                proof {
                    assert(neg@ == ExprV::UnaryOp(UnaryOp::Neg, Box::new(ExprV::IntLiteral(n))));
                }
                return Ok(Pattern::Literal(Box::new(neg)));
            }
        }
        if self.peek_is(&Token::LParen) {
            self.skip();
            let mut pats: Vec<Pattern> = Vec::new();
            proof {
                assert(crate::ast::patterns_v(pats@) =~= Seq::<PatternV>::empty());
            }
            self.parse_pattern_list(&mut pats)?;
            self.expect(&Token::RParen)?;
            return Ok(Pattern::Tuple(pats));
        }
        let is_ident = match self.peek() {
            Some(Token::Ident(_)) => true,
            _ => false,
        };
        if is_ident {
            // The first two parts name the enum or union and its variant.
            let first = self.expect_ident()?;
            let ghost p1 = self.position();
            let ghost whole = sp_pattern_named(s, self.position(), first@, Seq::empty());
            proof {
                assert(sp_pattern(s, p) == whole);
            }
            let mut parts: Vec<String> = Vec::new();
            proof {
                assert(crate::ast::strs_v(parts@) =~= Seq::<Seq<char>>::empty());
            }
            while self.peek_is(&Token::ColonColon)
                invariant
                    self.wf(),
                    Self::progressed(*old(self), *self),
                    s == self.toks(),
                    self.allows_struct() == old(self).allows_struct(),
                    p == old(self).position(),
                    s == old(self).toks(),
                    sp_pattern(s, p) == whole,
                    whole == sp_pattern_named(s, self.position(), first@, crate::ast::strs_v(parts@)),
                decreases self.len() - self.position(),
            {
                self.skip();
                let part = self.expect_ident()?;
                let ghost before = parts@;
                parts.push(part);
                proof {
                    assert(crate::ast::strs_v(parts@) =~= crate::ast::strs_v(before).push(parts@.last()@));
                }
            }
            if parts.len() > 0 {
                let variant = parts[0].clone();
                let mut bindings: Vec<Pattern> = Vec::new();
                proof {
                    assert(crate::ast::patterns_v(bindings@) =~= Seq::<PatternV>::empty());
                    assert(crate::ast::strs_v(parts@)[0] == parts@[0]@);
                }
                if self.peek_is(&Token::LParen) {
                    self.skip();
                    self.parse_pattern_list(&mut bindings)?;
                    self.expect(&Token::RParen)?;
                }
                return Ok(Pattern::Variant { enum_or_union: first, variant, bindings });
            }
            if self.peek_is(&Token::LBrace) {
                let ghost pb = self.position();
                proof {
                    assert(crate::ast::strs_v(parts@) =~= Seq::<Seq<char>>::empty());
                    assert(whole == sp_pattern_named(s, pb, first@, Seq::empty()));
                }
                self.skip();
                let ghost whole2 = sp_pattern_fields(s, self.position(), Seq::empty());
                let mut fields: Vec<(String, Pattern)> = Vec::new();
                proof {
                    assert(crate::ast::pfields_v(fields@) =~= Seq::<(Seq<char>, PatternV)>::empty());
                }
                while !self.peek_is(&Token::RBrace) && self.peek().is_some()
                    invariant
                        self.wf(),
                        Self::progressed(*old(self), *self),
                        s == self.toks(),
                        self.allows_struct() == old(self).allows_struct(),
                        p == old(self).position(),
                        s == old(self).toks(),
                        sp_pattern(s, p) == sp_pattern_named(s, pb, first@, Seq::empty()),
                        tok_at(s, pb) == Some(TokV::LBrace),
                        whole2 == sp_pattern_fields(s, pb + 1, Seq::empty()),
                        whole2 == sp_pattern_fields(s, self.position(), crate::ast::pfields_v(fields@)),
                    decreases self.len() - self.position(),
                {
                    let field = self.expect_ident()?;
                    let ghost before = fields@;
                    if self.peek_is(&Token::Colon) {
                        self.skip();
                        let p = self.parse_pattern()?;
                        let ghost fv = (field@, p@);
                        fields.push((field, p));
                        proof {
                            assert(fields@.drop_last() == before);
                            assert(crate::ast::pfields_v(fields@) == crate::ast::pfields_v(before).push(fv));
                        }
                    } else {
                        let bind = field.clone();
                        let pat = Pattern::Ident(bind);
                        let ghost fv = (field@, pat@);
                        proof {
                            assert(pat@ == PatternV::Ident(field@));
                        }
                        fields.push((field, pat));
                        proof {
                            assert(fields@.drop_last() == before);
                            assert(crate::ast::pfields_v(fields@) == crate::ast::pfields_v(before).push(fv));
                        }
                    }
                    if self.peek_is(&Token::Comma) {
                        self.skip();
                    }
                }
                self.expect(&Token::RBrace)?;
                return Ok(Pattern::Struct { name: first, fields });
            }
            return Ok(Pattern::Ident(first));
        }
        let mut m = string_of("Expected pattern, got ");
        push_debug_opt(&mut m, self.peek());
        Err(m)
    }

    /// Parses comma-separated patterns up to (not including) `)`.
    #[verifier::rlimit(100)]
    pub(crate) fn parse_pattern_list(&mut self, pats: &mut Vec<Pattern>) -> (r: Result<(), String>)
        requires
            old(self).wf(),
        ensures
            Self::moved(*old(self), *final(self)),
            final(self).allows_struct() == old(self).allows_struct(),
            match sp_pattern_list(old(self).toks(), old(self).position(), crate::ast::patterns_v(old(pats)@)) {
                Plain::Done(xs, q) => r is Ok && crate::ast::patterns_v(final(pats)@) == xs && final(self).position() == q,
                Plain::Failed(m) => r is Err && r->Err_0@ == m,
            },
        decreases old(self).len() - old(self).position(), 20nat,
    {
        proof {
            self.lemma_wf();
        }
        let ghost s = self.toks();
        let ghost whole = sp_pattern_list(s, self.position(), crate::ast::patterns_v(pats@));
        while !self.peek_is(&Token::RParen) && self.peek().is_some()
            invariant
                self.wf(),
                Self::moved(*old(self), *self),
                s == self.toks(),
                self.allows_struct() == old(self).allows_struct(),
                whole == sp_pattern_list(old(self).toks(), old(self).position(), crate::ast::patterns_v(old(pats)@)),
                whole == sp_pattern_list(s, self.position(), crate::ast::patterns_v(pats@)),
            decreases self.len() - self.position(),
        {
            let p = self.parse_pattern()?;
            let ghost before = pats@;
            pats.push(p);
            proof {
                assert(pats@.drop_last() == before);
            }
            if self.peek_is(&Token::Comma) {
                self.skip();
            } else {
                return Ok(());
            }
        }
        Ok(())
    }
}

} // verus!
