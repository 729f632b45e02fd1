//! Track: lexer, parser, monomorphizer and linear-ownership checker of the Track language.
pub mod ast;
pub mod text;
pub mod lexer;
pub mod parser;
pub mod collections;
pub mod checker;
pub mod mono;

use vstd::prelude::*;

verus! {

/// What compiling a text that lexes to `ts`, with the local modules `mods`,
/// answers: a syntax tree that is the parse of every token and that a fresh
/// checker accepts; or the error of the statement where parsing failed; or
/// the parse and the checker's refusal of it.
pub open spec fn compile_answer(
    ts: Seq<lexer::TokV>,
    mods: Map<Seq<char>, Seq<char>>,
    r: Result<Vec<ast::Expr>, String>,
) -> bool {
    match r {
        Ok(v) => parser::stmt::parses_to(ts, v@) && exists|c0: checker::LinearChecker, c1: checker::LinearChecker|
            checker::fresh_with(c0, false, mods) && #[trigger] checker::expr::accepts(c0, v@, c1),
        Err(m) => parser::stmt::parse_fails_with(ts, m) || exists|
            v: Seq<ast::Expr>,
            c0: checker::LinearChecker,
            c1: checker::LinearChecker,
        |
            parser::stmt::parses_to(ts, v) && checker::fresh_with(c0, false, mods) && #[trigger] checker::expr::refuses(
                c0,
                v,
                c1,
                m,
            ),
    }
}

/// The known modules after adding `mods` in order to `m`.
pub open spec fn modules_of(m: Map<Seq<char>, Seq<char>>, mods: Seq<(String, String)>) -> Map<Seq<char>, Seq<char>>
    decreases mods.len(),
{
    if mods.len() == 0 {
        m
    } else {
        modules_of(m.insert(mods[0].0@, mods[0].1@), mods.drop_first())
    }
}

/// Tokenizes, parses and checks a Track program, giving back its syntax tree
/// when every stage accepts it, and otherwise the first stage's error.
pub fn compile_source(source: &str) -> (r: Result<Vec<ast::Expr>, String>)
    ensures
        match lexer::spec_tokenize(source@) {
            Err((a, b)) => r is Err && r->Err_0@ == lexer::lex_error_message(source@, a, b),
            Ok(ts) => compile_answer(parser::stmt::token_kinds(ts), Map::empty(), r),
        },
{
    let tokens = match lexer::Lexer::tokenize(source) {
        Ok(t) => t,
        Err(e) => {
            return Err(e);
        },
    };
    let ghost tv = tokens@;
    let mut p = parser::Parser::new(tokens, text::string_of(source));
    let ghost start = p;
    proof {
        parser::stmt::lemma_kinds(start.toks(), tv, source@, lexer::spec_tokenize(source@)->Ok_0);
    }
    let program = match p.parse_program() {
        Ok(v) => v,
        Err(m) => {
            proof {
                assert(parser::stmt::parse_fails_with(start.toks(), m));
            }
            return Err(m);
        },
    };
    proof {
        assert(parser::stmt::parses_to(start.toks(), program@));
    }
    let mut chk = checker::LinearChecker::new();
    let ghost c0 = chk;
    match chk.check_program(program.as_slice()) {
        Ok(()) => {
            proof {
                assert(checker::expr::accepts(c0, program@, chk));
            }
            Ok(program)
        },
        Err(m) => {
            proof {
                assert(checker::expr::refuses(c0, program@, chk, m));
            }
            Err(m)
        },
    }
}

/// Like `compile_source`, with the sources of the local modules that its
/// imports may load, each with its file path.
pub fn compile_source_with_modules(source: &str, modules: Vec<(String, String)>) -> (r: Result<
    Vec<ast::Expr>,
    String,
>)
    ensures
        match lexer::spec_tokenize(source@) {
            Err((a, b)) => r is Err && r->Err_0@ == lexer::lex_error_message(source@, a, b),
            Ok(ts) => compile_answer(parser::stmt::token_kinds(ts), modules_of(Map::empty(), modules@), r),
        },
{
    let tokens = match lexer::Lexer::tokenize(source) {
        Ok(t) => t,
        Err(e) => {
            return Err(e);
        },
    };
    let ghost tv = tokens@;
    let mut p = parser::Parser::new(tokens, text::string_of(source));
    let ghost start = p;
    proof {
        parser::stmt::lemma_kinds(start.toks(), tv, source@, lexer::spec_tokenize(source@)->Ok_0);
    }
    let program = match p.parse_program() {
        Ok(v) => v,
        Err(m) => {
            proof {
                assert(parser::stmt::parse_fails_with(start.toks(), m));
            }
            return Err(m);
        },
    };
    proof {
        assert(parser::stmt::parses_to(start.toks(), program@));
    }
    let mut chk = checker::LinearChecker::new();
    let ghost all = modules@;
    let mut modules = modules;
    while modules.len() > 0
        invariant
            checker::fresh_with(chk, false, chk.modules.view()),
            modules_of(chk.modules.view(), modules@) == modules_of(Map::empty(), all),
        decreases modules.len(),
    {
        let ghost before = modules@;
        let (path, src) = modules.remove(0);
        proof {
            assert(modules@ =~= before.drop_first());
        }
        chk.add_module(path, src);
    }
    let ghost c0 = chk;
    match chk.check_program(program.as_slice()) {
        Ok(()) => {
            proof {
                assert(checker::expr::accepts(c0, program@, chk));
            }
            Ok(program)
        },
        Err(m) => {
            proof {
                assert(checker::expr::refuses(c0, program@, chk, m));
            }
            Err(m)
        },
    }
}

/// The files that the local imports of a source text may be found in; none
/// when it does not parse.
pub fn import_candidates_of_source(source: &str) -> (r: Vec<String>)
    ensures
        match lexer::spec_tokenize(source@) {
            Err(_) => r@.len() == 0,
            Ok(ts) => (exists|v: Seq<ast::Expr>|
                #[trigger] parser::stmt::parses_to(parser::stmt::token_kinds(ts), v)
                    && checker::prov::names_view(r@) == checker::imports::program_candidates(v)) || (
            parser::stmt::parse_fails(parser::stmt::token_kinds(ts)) && r@.len() == 0),
        },
{
    let tokens = match lexer::Lexer::tokenize(source) {
        Ok(t) => t,
        Err(_) => {
            return Vec::new();
        },
    };
    let ghost tv = tokens@;
    let mut p = parser::Parser::new(tokens, text::string_of(source));
    let ghost start = p;
    proof {
        parser::stmt::lemma_kinds(start.toks(), tv, source@, lexer::spec_tokenize(source@)->Ok_0);
    }
    match p.parse_program() {
        Ok(program) => {
            let r = checker::imports::import_candidates(program.as_slice());
            proof {
                assert(parser::stmt::parses_to(start.toks(), program@));
            }
            r
        },
        Err(m) => {
            proof {
                assert(parser::stmt::parse_fails(start.toks()));
            }
            Vec::new()
        },
    }
}

} // verus!
pub mod yard;
pub mod lsp;
pub mod lowering;
