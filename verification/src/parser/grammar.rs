//! The grammar of the parts of Track that hold no expression to evaluate,
//! as functions from a token position to what is parsed there: patterns,
//! imports, type aliases, struct and union definitions, and the heads of the
//! other statements (what they declare before their first expression or
//! block).
use vstd::prelude::*;
use crate::ast::{ExprV, Pattern, PatternV, TypeV, UnaryOp};
use crate::lexer::{debug_opt_token, TokV};
use super::expr::{chain_at, lone_operand_at, starts_operand, unexpected_token_error};
use super::{expect_error, spec_parse_type, step, tok_at, Parser, TypeParse};

verus! {

/// Like `expr_outcome`, for a pattern; the struct-literal mode is kept.
pub open spec fn pattern_outcome(old: Parser, new: Parser, r: Result<Pattern, String>, res: Plain<PatternV>) -> bool {
    match res {
        Plain::Done(x, q) => r is Ok && r->Ok_0@ == x && new.position() == q && new.allows_struct()
            == old.allows_struct(),
        Plain::Failed(m) => r is Err && r->Err_0@ == m,
    }
}

/// The outcome of parsing something that does not depend on whether
/// struct literals are read.
pub enum Plain<T> {
    Done(T, int),
    Failed(Seq<char>),
}

/// The error text for a missing identifier at `i`.
pub open spec fn ident_error(s: Seq<TokV>, i: int) -> Seq<char> {
    "Parser error: expected identifier, got "@ + debug_opt_token(tok_at(s, i))
}

/// The name of the identifier at `i`, if there is one.
pub open spec fn ident_at(s: Seq<TokV>, i: int) -> Option<Seq<char>> {
    match tok_at(s, i) {
        Some(TokV::Ident(n)) => Some(n),
        _ => None,
    }
}

/// `q` is a position at or after `p` within the tokens.
pub open spec fn within(s: Seq<TokV>, p: int, q: int) -> bool {
    p <= q && q <= s.len()
}

/// A pattern at `p`.
pub open spec fn sp_pattern(s: Seq<TokV>, p: int) -> Plain<PatternV>
    decreases s.len() - p, 1nat,
{
    if p < 0 || p > s.len() {
        Plain::Failed(Seq::empty())
    } else if tok_at(s, p) == Some(TokV::Underscore) {
        Plain::Done(PatternV::Wildcard, p + 1)
    } else {
        match tok_at(s, p) {
            Some(TokV::Int(v)) => Plain::Done(PatternV::Literal(Box::new(ExprV::IntLiteral(v))), p + 1),
            Some(TokV::Str(v)) => Plain::Done(PatternV::Literal(Box::new(ExprV::StringLiteral(v))), p + 1),
            Some(TokV::True) => Plain::Done(PatternV::Literal(Box::new(ExprV::BoolLiteral(true))), p + 1),
            Some(TokV::False) => Plain::Done(PatternV::Literal(Box::new(ExprV::BoolLiteral(false))), p + 1),
            _ => {
                if tok_at(s, p) == Some(TokV::Minus) && tok_at(s, p + 1) is Some && tok_at(s, p + 1)->Some_0 is Int {
                    let n = tok_at(s, p + 1)->Some_0->Int_0;
                    Plain::Done(
                        PatternV::Literal(Box::new(ExprV::UnaryOp(UnaryOp::Neg, Box::new(ExprV::IntLiteral(n))))),
                        p + 2,
                    )
                } else if tok_at(s, p) == Some(TokV::LParen) {
                    match sp_pattern_list(s, p + 1, Seq::empty()) {
                        Plain::Done(ps, q) => if tok_at(s, q) == Some(TokV::RParen) {
                            Plain::Done(PatternV::Tuple(ps), q + 1)
                        } else {
                            Plain::Failed(expect_error(s, q, TokV::RParen))
                        },
                        Plain::Failed(m) => Plain::Failed(m),
                    }
                } else {
                    match ident_at(s, p) {
                        Some(first) => sp_pattern_named(s, p + 1, first, Seq::empty()),
                        None => Plain::Failed("Expected pattern, got "@ + debug_opt_token(tok_at(s, p))),
                    }
                }
            },
        }
    }
}

/// The rest of a pattern that starts with the name `first`, the parts
/// `::part` read so far being `parts`.
pub open spec fn sp_pattern_named(s: Seq<TokV>, p: int, first: Seq<char>, parts: Seq<Seq<char>>) -> Plain<PatternV>
    decreases s.len() - p, 0nat,
{
    if p < 0 || p > s.len() {
        Plain::Failed(Seq::empty())
    } else if tok_at(s, p) == Some(TokV::ColonColon) {
        match ident_at(s, p + 1) {
            Some(part) => sp_pattern_named(s, p + 2, first, parts.push(part)),
            None => Plain::Failed(ident_error(s, p + 1)),
        }
    } else if parts.len() > 0 {
        if tok_at(s, p) == Some(TokV::LParen) {
            match sp_pattern_list(s, p + 1, Seq::empty()) {
                Plain::Done(ps, q) => if tok_at(s, q) == Some(TokV::RParen) {
                    Plain::Done(PatternV::Variant(first, parts[0], ps), q + 1)
                } else {
                    Plain::Failed(expect_error(s, q, TokV::RParen))
                },
                Plain::Failed(m) => Plain::Failed(m),
            }
        } else {
            Plain::Done(PatternV::Variant(first, parts[0], Seq::empty()), p)
        }
    } else if tok_at(s, p) == Some(TokV::LBrace) {
        match sp_pattern_fields(s, p + 1, Seq::empty()) {
            Plain::Done(fs, q) => if tok_at(s, q) == Some(TokV::RBrace) {
                Plain::Done(PatternV::Struct(first, fs), q + 1)
            } else {
                Plain::Failed(expect_error(s, q, TokV::RBrace))
            },
            Plain::Failed(m) => Plain::Failed(m),
        }
    } else {
        Plain::Done(PatternV::Ident(first), p)
    }
}

/// Patterns separated by commas, up to `)` or the end, after `acc`.
pub open spec fn sp_pattern_list(s: Seq<TokV>, p: int, acc: Seq<PatternV>) -> Plain<Seq<PatternV>>
    decreases s.len() - p, 2nat,
{
    if p < 0 || p > s.len() {
        Plain::Failed(Seq::empty())
    } else if tok_at(s, p) == Some(TokV::RParen) || tok_at(s, p) is None {
        Plain::Done(acc, p)
    } else {
        match sp_pattern(s, p) {
            Plain::Done(pat, q) => if within(s, p + 1, q) {
                if tok_at(s, q) == Some(TokV::Comma) {
                    sp_pattern_list(s, q + 1, acc.push(pat))
                } else {
                    Plain::Done(acc.push(pat), q)
                }
            } else {
                Plain::Failed(Seq::empty())
            },
            Plain::Failed(m) => Plain::Failed(m),
        }
    }
}

/// Struct pattern fields `name` or `name: pattern`, up to `}` or the end.
pub open spec fn sp_pattern_fields(s: Seq<TokV>, p: int, acc: Seq<(Seq<char>, PatternV)>) -> Plain<
    Seq<(Seq<char>, PatternV)>,
>
    decreases s.len() - p, 2nat,
{
    if p < 0 || p > s.len() {
        Plain::Failed(Seq::empty())
    } else if tok_at(s, p) == Some(TokV::RBrace) || tok_at(s, p) is None {
        Plain::Done(acc, p)
    } else {
        match ident_at(s, p) {
            Some(field) => if tok_at(s, p + 1) == Some(TokV::Colon) {
                match sp_pattern(s, p + 2) {
                    Plain::Done(pat, q) => if within(s, p + 2, q) {
                        let q2 = if tok_at(s, q) == Some(TokV::Comma) {
                            q + 1
                        } else {
                            q
                        };
                        sp_pattern_fields(s, q2, acc.push((field, pat)))
                    } else {
                        Plain::Failed(Seq::empty())
                    },
                    Plain::Failed(m) => Plain::Failed(m),
                }
            } else {
                let q2 = if tok_at(s, p + 1) == Some(TokV::Comma) {
                    p + 2
                } else {
                    p + 1
                };
                sp_pattern_fields(s, q2, acc.push((field, PatternV::Ident(field))))
            },
            None => Plain::Failed(ident_error(s, p)),
        }
    }
}

/// Import item names separated by commas, up to `}` or the end.
pub open spec fn sp_import_items(s: Seq<TokV>, p: int, acc: Seq<Seq<char>>) -> Plain<Seq<Seq<char>>>
    decreases s.len() - p,
{
    if p < 0 || p > s.len() {
        Plain::Failed(Seq::empty())
    } else if tok_at(s, p) == Some(TokV::RBrace) || tok_at(s, p) is None {
        Plain::Done(acc, p)
    } else {
        match ident_at(s, p) {
            Some(item) => if tok_at(s, p + 1) == Some(TokV::Comma) {
                sp_import_items(s, p + 2, acc.push(item))
            } else {
                Plain::Done(acc.push(item), p + 1)
            },
            None => Plain::Failed(ident_error(s, p)),
        }
    }
}

/// Struct field declarations `name: type`, up to `}` or the end; only
/// their syntax is checked.
pub open spec fn sp_struct_fields(s: Seq<TokV>, p: int) -> Plain<()>
    decreases s.len() - p,
{
    if p < 0 || p > s.len() {
        Plain::Failed(Seq::empty())
    } else if tok_at(s, p) == Some(TokV::RBrace) || tok_at(s, p) is None {
        Plain::Done((), p)
    } else {
        match ident_at(s, p) {
            Some(_) => if tok_at(s, p + 1) != Some(TokV::Colon) {
                Plain::Failed(expect_error(s, p + 1, TokV::Colon))
            } else {
                match spec_parse_type(s, p + 2) {
                    TypeParse::Parsed(_, q) => if within(s, p + 2, q) {
                        if tok_at(s, q) == Some(TokV::Comma) {
                            sp_struct_fields(s, q + 1)
                        } else {
                            Plain::Done((), q)
                        }
                    } else {
                        Plain::Failed(Seq::empty())
                    },
                    TypeParse::Failed(m) => Plain::Failed(m),
                }
            },
            None => Plain::Failed(ident_error(s, p)),
        }
    }
}

/// The position of the first `)` from `p` on, or the end.
pub open spec fn skip_to_rparen(s: Seq<TokV>, p: int) -> int
    decreases s.len() - p,
{
    if p < 0 || p >= s.len() || s[p] == TokV::RParen {
        p
    } else {
        skip_to_rparen(s, p + 1)
    }
}

/// Union variants `Name` or `Name(type)`, up to `}`, after `acc`.
pub open spec fn sp_union_variants(s: Seq<TokV>, p: int, acc: Seq<(Seq<char>, Option<TypeV>)>) -> Plain<
    Seq<(Seq<char>, Option<TypeV>)>,
>
    decreases s.len() - p,
{
    if p < 0 || p > s.len() {
        Plain::Failed(Seq::empty())
    } else if tok_at(s, p) == Some(TokV::RBrace) {
        Plain::Done(acc, p)
    } else {
        match ident_at(s, p) {
            Some(name) => if tok_at(s, p + 1) == Some(TokV::LParen) {
                match spec_parse_type(s, p + 2) {
                    TypeParse::Parsed(t, q) => if within(s, p + 2, q) {
                        if tok_at(s, q) == Some(TokV::RParen) {
                            let q2 = if tok_at(s, q + 1) == Some(TokV::Comma) {
                                q + 2
                            } else {
                                q + 1
                            };
                            sp_union_variants(s, q2, acc.push((name, Some(t))))
                        } else {
                            Plain::Failed(expect_error(s, q, TokV::RParen))
                        }
                    } else {
                        Plain::Failed(Seq::empty())
                    },
                    TypeParse::Failed(m) => Plain::Failed(m),
                }
            } else {
                let q2 = if tok_at(s, p + 1) == Some(TokV::Comma) {
                    p + 2
                } else {
                    p + 1
                };
                sp_union_variants(s, q2, acc.push((name, None)))
            },
            None => Plain::Failed(ident_error(s, p)),
        }
    }
}

/// The declaration a statement that starts with `import`/`use`, `type`,
/// `struct` or `union` gives, with the position after it: `None` when its
/// first token starts another kind of statement.
pub open spec fn sp_declaration(s: Seq<TokV>, p: int) -> Option<Plain<ExprV>> {
    match tok_at(s, p) {
        Some(TokV::Import) | Some(TokV::Use) => Some(sp_import(s, p)),
        Some(TokV::TypeDef) => Some(sp_type_alias(s, p)),
        Some(TokV::Struct) => Some(sp_struct(s, p)),
        Some(TokV::Union) => Some(sp_union(s, p)),
        _ => None,
    }
}

/// A statement's outcome with its optional `;` consumed.
pub open spec fn with_semicolon(s: Seq<TokV>, res: Plain<ExprV>) -> Plain<ExprV> {
    match res {
        Plain::Done(e, q) => if tok_at(s, q) == Some(TokV::Semicolon) {
            Plain::Done(e, q + 1)
        } else {
            Plain::Done(e, q)
        },
        Plain::Failed(m) => Plain::Failed(m),
    }
}

/// `new` holds the declaration that `res` says was parsed, at the position
/// after it, or `r` fails with its text; the struct-literal mode is kept.
pub open spec fn decl_outcome(old: Parser, new: Parser, r: Result<crate::ast::Expr, String>, res: Plain<ExprV>) -> bool {
    match res {
        Plain::Done(e, q) => r is Ok && r->Ok_0@ == e && new.position() == q && new.allows_struct()
            == old.allows_struct(),
        Plain::Failed(m) => r is Err && r->Err_0@ == m,
    }
}

/// `import "path" [as alias] [:: { items }]` at `p`.
pub open spec fn sp_import(s: Seq<TokV>, p: int) -> Plain<ExprV> {
    let p1 = step(s, p);
    match tok_at(s, p1) {
        Some(TokV::Str(path)) => {
            let p2 = p1 + 1;
            if tok_at(s, p2) == Some(TokV::As) {
                match ident_at(s, p2 + 1) {
                    Some(n) => sp_import_list(s, p2 + 2, path, Some(n)),
                    None => Plain::Failed(ident_error(s, p2 + 1)),
                }
            } else {
                sp_import_list(s, p2, path, None)
            }
        },
        other => Plain::Failed("Expected string path after import, got "@ + debug_opt_token(other)),
    }
}

/// The optional `:: { items }` of an import, from `p`.
pub open spec fn sp_import_list(s: Seq<TokV>, p: int, path: Seq<char>, alias: Option<Seq<char>>) -> Plain<ExprV> {
    if tok_at(s, p) == Some(TokV::ColonColon) {
        if tok_at(s, p + 1) != Some(TokV::LBrace) {
            Plain::Failed(expect_error(s, p + 1, TokV::LBrace))
        } else {
            match sp_import_items(s, p + 2, Seq::empty()) {
                Plain::Done(items, q) => if tok_at(s, q) == Some(TokV::RBrace) {
                    Plain::Done(ExprV::Use(path, Some(items), alias), q + 1)
                } else {
                    Plain::Failed(expect_error(s, q, TokV::RBrace))
                },
                Plain::Failed(m) => Plain::Failed(m),
            }
        }
    } else {
        Plain::Done(ExprV::Use(path, None, alias), p)
    }
}

/// `type Name = type` at `p`.
pub open spec fn sp_type_alias(s: Seq<TokV>, p: int) -> Plain<ExprV> {
    let p1 = step(s, p);
    match ident_at(s, p1) {
        Some(name) => if tok_at(s, p1 + 1) != Some(TokV::Eq) {
            Plain::Failed(expect_error(s, p1 + 1, TokV::Eq))
        } else {
            match spec_parse_type(s, p1 + 2) {
                TypeParse::Parsed(t, q) => Plain::Done(ExprV::TypeAlias(name, t), q),
                TypeParse::Failed(m) => Plain::Failed(m),
            }
        },
        None => Plain::Failed(ident_error(s, p1)),
    }
}

/// `struct Name { fields }` at `p`, kept as an alias of the name to `Struct`.
pub open spec fn sp_struct(s: Seq<TokV>, p: int) -> Plain<ExprV> {
    let p1 = step(s, p);
    match ident_at(s, p1) {
        Some(name) => if tok_at(s, p1 + 1) != Some(TokV::LBrace) {
            Plain::Failed(expect_error(s, p1 + 1, TokV::LBrace))
        } else {
            match sp_struct_fields(s, p1 + 2) {
                Plain::Done(_, q) => if tok_at(s, q) == Some(TokV::RBrace) {
                    Plain::Done(ExprV::TypeAlias(name, TypeV::Custom("Struct"@)), q + 1)
                } else {
                    Plain::Failed(expect_error(s, q, TokV::RBrace))
                },
                Plain::Failed(m) => Plain::Failed(m),
            }
        },
        None => Plain::Failed(ident_error(s, p1)),
    }
}

/// `union Name [( ... )] { variants }` at `p`.
pub open spec fn sp_union(s: Seq<TokV>, p: int) -> Plain<ExprV> {
    let p1 = step(s, p);
    match ident_at(s, p1) {
        Some(name) => {
            let p2 = p1 + 1;
            if tok_at(s, p2) == Some(TokV::LParen) {
                let r = skip_to_rparen(s, p2 + 1);
                if tok_at(s, r) == Some(TokV::RParen) {
                    sp_union_body(s, r + 1, name)
                } else {
                    Plain::Failed(expect_error(s, r, TokV::RParen))
                }
            } else {
                sp_union_body(s, p2, name)
            }
        },
        None => Plain::Failed(ident_error(s, p1)),
    }
}

/// `{ variants }` of a union named `name`, from `p`.
pub open spec fn sp_union_body(s: Seq<TokV>, p: int, name: Seq<char>) -> Plain<ExprV> {
    if tok_at(s, p) != Some(TokV::LBrace) {
        Plain::Failed(expect_error(s, p, TokV::LBrace))
    } else {
        match sp_union_variants(s, p + 1, Seq::empty()) {
            Plain::Done(vs, q) => if tok_at(s, q) == Some(TokV::RBrace) {
                Plain::Done(ExprV::UnionDef(name, vs), q + 1)
            } else {
                Plain::Failed(expect_error(s, q, TokV::RBrace))
            },
            Plain::Failed(m) => Plain::Failed(m),
        }
    }
}

/// Parameters `name: type` separated by commas; none when `)` comes first.
pub open spec fn sp_params(s: Seq<TokV>, p: int) -> Plain<Seq<(Seq<char>, TypeV)>> {
    if tok_at(s, p) == Some(TokV::RParen) {
        Plain::Done(Seq::empty(), p)
    } else {
        sp_params_rest(s, p, Seq::empty())
    }
}

/// The parameters from `p` on, after `acc`.
pub open spec fn sp_params_rest(s: Seq<TokV>, p: int, acc: Seq<(Seq<char>, TypeV)>) -> Plain<
    Seq<(Seq<char>, TypeV)>,
>
    decreases s.len() - p,
{
    if p < 0 || p > s.len() {
        Plain::Failed(Seq::empty())
    } else {
        match ident_at(s, p) {
            Some(name) => if tok_at(s, p + 1) != Some(TokV::Colon) {
                Plain::Failed(expect_error(s, p + 1, TokV::Colon))
            } else {
                match spec_parse_type(s, p + 2) {
                    TypeParse::Parsed(t, q) => if within(s, p + 2, q) {
                        if tok_at(s, q) == Some(TokV::Comma) {
                            sp_params_rest(s, q + 1, acc.push((name, t)))
                        } else {
                            Plain::Done(acc.push((name, t)), q)
                        }
                    } else {
                        Plain::Failed(Seq::empty())
                    },
                    TypeParse::Failed(m) => Plain::Failed(m),
                }
            },
            None => Plain::Failed(ident_error(s, p)),
        }
    }
}

/// Generic parameter names separated by commas, after `acc`.
pub open spec fn sp_generics(s: Seq<TokV>, p: int, acc: Seq<Seq<char>>) -> Plain<Seq<Seq<char>>>
    decreases s.len() - p,
{
    if p < 0 || p > s.len() {
        Plain::Failed(Seq::empty())
    } else {
        match ident_at(s, p) {
            Some(g) => if tok_at(s, p + 1) == Some(TokV::Comma) {
                sp_generics(s, p + 2, acc.push(g))
            } else {
                Plain::Done(acc.push(g), p + 1)
            },
            None => Plain::Failed(ident_error(s, p)),
        }
    }
}

/// `(params) [-> type]` at `p`: the parameters and the declared return type.
pub open spec fn sp_signature(s: Seq<TokV>, p: int) -> Plain<(Seq<(Seq<char>, TypeV)>, Option<TypeV>)> {
    if tok_at(s, p) != Some(TokV::LParen) {
        Plain::Failed(expect_error(s, p, TokV::LParen))
    } else {
        match sp_params(s, p + 1) {
            Plain::Done(ps, q) => if tok_at(s, q) != Some(TokV::RParen) {
                Plain::Failed(expect_error(s, q, TokV::RParen))
            } else if tok_at(s, q + 1) == Some(TokV::Arrow) {
                match spec_parse_type(s, q + 2) {
                    TypeParse::Parsed(t, e) => Plain::Done((ps, Some(t)), e),
                    TypeParse::Failed(m) => Plain::Failed(m),
                }
            } else {
                Plain::Done((ps, None), q + 1)
            },
            Plain::Failed(m) => Plain::Failed(m),
        }
    }
}

/// The part of a statement that comes before its first expression or
/// block: what it declares, with the token that must follow it.
pub enum Head {
    /// `let [mut] name [: type]`, then `=`.
    Let(bool, Seq<char>, Option<TypeV>),
    /// `let [mut] (patterns)`, then `=`.
    LetPattern(bool, PatternV),
    /// `with target -> lens`, then `{`.
    With(Seq<char>, Seq<char>),
    /// `fn name[<T, ...>](params) [-> type]`, then `{`.
    Fn(Seq<char>, Seq<Seq<char>>, Seq<(Seq<char>, TypeV)>, Option<TypeV>),
    /// `for var`, then `in`.
    For(Seq<char>),
    /// `const name`, then `=`.
    Const(Seq<char>),
    /// `@macro name(params) [-> type]`, then `{`.
    Macro(Seq<char>, Seq<(Seq<char>, TypeV)>, Option<TypeV>),
    /// `enum name [: type]`, then `{`.
    Enum(Seq<char>, Option<TypeV>),
}

/// The token that must follow a head.
pub open spec fn head_next(h: Head) -> TokV {
    match h {
        Head::Let(..) | Head::LetPattern(..) | Head::Const(..) => TokV::Eq,
        Head::For(..) => TokV::In,
        _ => TokV::LBrace,
    }
}

/// The statement `e` has the head `h`.
pub open spec fn fits_head(h: Head, e: ExprV) -> bool {
    match h {
        Head::Let(m, n, t) => e matches ExprV::LetDef(n2, m2, t2, _) && n2 == n && m2 == m && t2 == t,
        Head::LetPattern(m, pat) => e matches ExprV::LetDestructure(p2, m2, _) && p2 == pat && m2 == m,
        Head::With(t, l) => e matches ExprV::LensBlock(t2, l2, _) && t2 == t && l2 == l,
        Head::Fn(n, gs, ps, rt) => e matches ExprV::FnDef(n2, gs2, ps2, rt2, _) && n2 == n && gs2 == gs && ps2 == ps
            && rt2 == rt,
        Head::For(v) => e matches ExprV::ForIn(v2, _, _) && v2 == v,
        Head::Const(n) => e matches ExprV::ConstDef(n2, _) && n2 == n,
        Head::Macro(n, ps, rt) => e matches ExprV::MacroDef(n2, ps2, rt2, _) && n2 == n && ps2 == ps && rt2 == rt,
        Head::Enum(n, t) => e matches ExprV::EnumDef(n2, t2, _) && n2 == n && t2 == t,
    }
}

/// `r` is a statement with the head that `res` gives, or fails with the
/// head's error; where the head is not followed by its token, that is the
/// error.
pub open spec fn head_outcome(s: Seq<TokV>, r: Result<crate::ast::Expr, String>, res: Plain<Head>) -> bool {
    match res {
        Plain::Done(h, q) => {
            &&& r is Ok ==> fits_head(h, r->Ok_0@)
            &&& tok_at(s, q) != Some(head_next(h)) ==> r is Err && r->Err_0@ == expect_error(s, q, head_next(h))
        },
        Plain::Failed(m) => r is Err && r->Err_0@ == m,
    }
}

/// Whether an expression follows the head after its `=`.
pub open spec fn takes_value(h: Head) -> bool {
    h is Let || h is LetPattern || h is Const
}

/// The statement with head `h` and value `e`.
pub open spec fn with_value(h: Head, e: ExprV) -> ExprV {
    match h {
        Head::Let(m, n, t) => ExprV::LetDef(n, m, t, Box::new(e)),
        Head::LetPattern(m, pat) => ExprV::LetDestructure(pat, m, Box::new(e)),
        Head::Const(n) => ExprV::ConstDef(n, Box::new(e)),
        _ => e,
    }
}

/// For a head followed by `=` and a value: where no operand starts the
/// value, `r` fails on that token; where the value is a lone literal, or an
/// operator chain of literals and names that no `..` follows, `r` is the
/// whole statement with that value.
pub open spec fn value_outcome(s: Seq<TokV>, r: Result<crate::ast::Expr, String>, res: Plain<Head>) -> bool {
    match res {
        Plain::Done(h, q) => takes_value(h) && tok_at(s, q) == Some(TokV::Eq) ==> {
            &&& !starts_operand(tok_at(s, q + 1)) ==> r is Err && r->Err_0@ == unexpected_token_error(tok_at(s, q + 1))
            &&& lone_operand_at(s, q + 1) matches Some(e) ==> r is Ok && r->Ok_0@ == with_value(h, e)
            &&& chain_at(s, q + 1, true, 7) matches Some((e, q2)) ==> (tok_at(s, q2) != Some(TokV::DotDot) ==> r is Ok
                && r->Ok_0@ == with_value(h, e))
        },
        Plain::Failed(_) => true,
    }
}

/// What `return` at `p` gives: nothing to return before `;` or the end; a
/// lone literal; or the failure of a value that no operand starts.
pub open spec fn return_outcome(s: Seq<TokV>, p: int, r: Result<crate::ast::Expr, String>) -> bool {
    let t = tok_at(s, p + 1);
    &&& (t == Some(TokV::Semicolon) || t is None) ==> r is Ok && r->Ok_0@ == ExprV::Return(None)
    &&& (t != Some(TokV::Semicolon) && t is Some && !starts_operand(t)) ==> r is Err && r->Err_0@
        == unexpected_token_error(t)
    &&& lone_operand_at(s, p + 1) matches Some(e) ==> r is Ok && r->Ok_0@ == ExprV::Return(Some(Box::new(e)))
}

/// The head of the statement at `p`, by its first token: `None` for a
/// statement that has none of these heads.
pub open spec fn sp_head(s: Seq<TokV>, p: int) -> Option<Plain<Head>> {
    match tok_at(s, p) {
        Some(TokV::Let) => Some(sp_let_head(s, p)),
        Some(TokV::With) => Some(sp_with_head(s, p)),
        Some(TokV::Fn) => Some(sp_fn_head(s, p)),
        Some(TokV::For) => Some(sp_for_head(s, p)),
        Some(TokV::Const) => Some(sp_const_head(s, p)),
        Some(TokV::AtMacro) => Some(sp_macro_head(s, p)),
        Some(TokV::Enum) => Some(sp_enum_head(s, p)),
        _ => None,
    }
}

/// The head of a `let` statement at `p`.
pub open spec fn sp_let_head(s: Seq<TokV>, p: int) -> Plain<Head> {
    let p1 = step(s, p);
    let m = tok_at(s, p1) == Some(TokV::Mut);
    let p2 = if m {
        p1 + 1
    } else {
        p1
    };
    if tok_at(s, p2) == Some(TokV::LParen) {
        match sp_pattern(s, p2) {
            Plain::Done(pat, q) => Plain::Done(Head::LetPattern(m, pat), q),
            Plain::Failed(e) => Plain::Failed(e),
        }
    } else {
        match ident_at(s, p2) {
            Some(n) => if tok_at(s, p2 + 1) == Some(TokV::Colon) {
                match spec_parse_type(s, p2 + 2) {
                    TypeParse::Parsed(t, q) => Plain::Done(Head::Let(m, n, Some(t)), q),
                    TypeParse::Failed(e) => Plain::Failed(e),
                }
            } else {
                Plain::Done(Head::Let(m, n, None), p2 + 1)
            },
            None => Plain::Failed(ident_error(s, p2)),
        }
    }
}

/// The head of a `with` block at `p`.
pub open spec fn sp_with_head(s: Seq<TokV>, p: int) -> Plain<Head> {
    let p1 = step(s, p);
    match ident_at(s, p1) {
        Some(t) => if tok_at(s, p1 + 1) != Some(TokV::Arrow) {
            Plain::Failed(expect_error(s, p1 + 1, TokV::Arrow))
        } else {
            match ident_at(s, p1 + 2) {
                Some(l) => Plain::Done(Head::With(t, l), p1 + 3),
                None => Plain::Failed(ident_error(s, p1 + 2)),
            }
        },
        None => Plain::Failed(ident_error(s, p1)),
    }
}

/// The head of a function definition at `p`.
pub open spec fn sp_fn_head(s: Seq<TokV>, p: int) -> Plain<Head> {
    let p1 = step(s, p);
    match ident_at(s, p1) {
        Some(name) => {
            let gen: Plain<Seq<Seq<char>>> = if tok_at(s, p1 + 1) == Some(TokV::Lt) {
                match sp_generics(s, p1 + 2, Seq::empty()) {
                    Plain::Done(gs, q) => if tok_at(s, q) == Some(TokV::Gt) {
                        Plain::Done(gs, q + 1)
                    } else {
                        Plain::Failed(expect_error(s, q, TokV::Gt))
                    },
                    Plain::Failed(m) => Plain::Failed(m),
                }
            } else {
                Plain::Done(Seq::empty(), p1 + 1)
            };
            match gen {
                Plain::Done(gs, q) => match sp_signature(s, q) {
                    Plain::Done((ps, rt), q2) => Plain::Done(Head::Fn(name, gs, ps, rt), q2),
                    Plain::Failed(m) => Plain::Failed(m),
                },
                Plain::Failed(m) => Plain::Failed(m),
            }
        },
        None => Plain::Failed(ident_error(s, p1)),
    }
}

/// The head of a `for` loop at `p`.
pub open spec fn sp_for_head(s: Seq<TokV>, p: int) -> Plain<Head> {
    let p1 = step(s, p);
    match ident_at(s, p1) {
        Some(v) => Plain::Done(Head::For(v), p1 + 1),
        None => Plain::Failed(ident_error(s, p1)),
    }
}

/// The head of a constant definition at `p`.
pub open spec fn sp_const_head(s: Seq<TokV>, p: int) -> Plain<Head> {
    let p1 = step(s, p);
    match ident_at(s, p1) {
        Some(n) => Plain::Done(Head::Const(n), p1 + 1),
        None => Plain::Failed(ident_error(s, p1)),
    }
}

/// The head of a macro definition at `p`.
pub open spec fn sp_macro_head(s: Seq<TokV>, p: int) -> Plain<Head> {
    let p1 = step(s, p);
    match ident_at(s, p1) {
        Some(name) => match sp_signature(s, p1 + 1) {
            Plain::Done((ps, rt), q) => Plain::Done(Head::Macro(name, ps, rt), q),
            Plain::Failed(m) => Plain::Failed(m),
        },
        None => Plain::Failed(ident_error(s, p1)),
    }
}

/// The head of an enum definition at `p`.
pub open spec fn sp_enum_head(s: Seq<TokV>, p: int) -> Plain<Head> {
    let p1 = step(s, p);
    match ident_at(s, p1) {
        Some(n) => if tok_at(s, p1 + 1) == Some(TokV::Colon) {
            match spec_parse_type(s, p1 + 2) {
                TypeParse::Parsed(t, q) => Plain::Done(Head::Enum(n, Some(t)), q),
                TypeParse::Failed(m) => Plain::Failed(m),
            }
        } else {
            Plain::Done(Head::Enum(n, None), p1 + 1)
        },
        None => Plain::Failed(ident_error(s, p1)),
    }
}

/// Two token sequences of one length that agree from position `q` on.
pub open spec fn agree_from(s: Seq<TokV>, t: Seq<TokV>, q: int) -> bool {
    &&& s.len() == t.len()
    &&& forall|i: int| q <= i < s.len() ==> s[i] == t[i]
}

proof fn lemma_import_items_from(s: Seq<TokV>, t: Seq<TokV>, q: int, p: int, acc: Seq<Seq<char>>)
    requires
        agree_from(s, t, q),
        q <= p,
    ensures
        sp_import_items(s, p, acc) == sp_import_items(t, p, acc),
        sp_import_items(s, p, acc) matches Plain::Done(_, e) ==> p <= e,
    decreases s.len() - p,
{
    if p <= s.len() {
        assert(tok_at(s, p) == tok_at(t, p));
        assert(tok_at(s, p + 1) == tok_at(t, p + 1));
        if p + 2 <= s.len() {
            if let Some(item) = ident_at(s, p) {
                lemma_import_items_from(s, t, q, p + 2, acc.push(item));
            }
        }
    }
}

proof fn lemma_import_list_from(s: Seq<TokV>, t: Seq<TokV>, q: int, p: int, path: Seq<char>, alias: Option<Seq<char>>)
    requires
        agree_from(s, t, q),
        q <= p,
    ensures
        sp_import_list(s, p, path, alias) == sp_import_list(t, p, path, alias),
{
    assert(tok_at(s, p) == tok_at(t, p));
    assert(tok_at(s, p + 1) == tok_at(t, p + 1));
    lemma_import_items_from(s, t, q, p + 2, Seq::empty());
    if let Plain::Done(_, e) = sp_import_items(s, p + 2, Seq::empty()) {
        assert(tok_at(s, e) == tok_at(t, e));
    }
}

/// `use` is a synonym of `import`: a statement that starts with `use`
/// parses to the same declaration, at the same position, as the one that
/// starts with `import` and is otherwise the same.
pub proof fn law_use_is_import(s: Seq<TokV>, p: int)
    requires
        0 <= p < s.len(),
        s[p] == TokV::Import,
    ensures
        sp_declaration(s.update(p, TokV::Use), p) == sp_declaration(s, p),
        with_semicolon(s.update(p, TokV::Use), sp_declaration(s, p)->Some_0) == with_semicolon(
            s,
            sp_declaration(s, p)->Some_0,
        ),
{
    let t = s.update(p, TokV::Use);
    assert(agree_from(s, t, p + 1));
    assert(tok_at(s, p + 1) == tok_at(t, p + 1));
    assert(tok_at(s, p + 2) == tok_at(t, p + 2));
    assert(tok_at(s, p + 3) == tok_at(t, p + 3));
    if let Some(TokV::Str(path)) = tok_at(s, p + 1) {
        lemma_import_list_from(s, t, p + 1, p + 2, path, None);
        if let Some(n) = ident_at(s, p + 3) {
            lemma_import_list_from(s, t, p + 1, p + 4, path, Some(n));
        }
    }
    if let Plain::Done(_, e) = sp_declaration(s, p)->Some_0 {
        assert(tok_at(s, e) == Some(TokV::Semicolon) <==> tok_at(t, e) == Some(TokV::Semicolon));
    }
}

} // verus!
