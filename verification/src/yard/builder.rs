use vstd::prelude::*;
use crate::ast::Expr;
use crate::checker::LinearChecker;
use crate::lexer::{Lexer, lex_error_message, spec_tokenize};
use crate::parser::Parser;
use crate::parser::stmt::{parse_fails_with, parses_to, token_kinds};
use crate::checker::fresh_with;
use crate::checker::expr::{accepts, refuses};
use crate::text::{decimal, push_str, push_string, push_usize, string_of};
use crate::yard::resolver::{DepSource, ResolvedDep, opt_text};

verus! {

/// The project builder: compiles each source file of a project, reusing
/// the cached ones, and links the result.
pub struct ParallelBuilder;

/// `file: message`, as the builder reports the error of one file.
pub open spec fn file_error(file: Seq<char>, e: Seq<char>) -> Seq<char> {
    file + ": "@ + e
}

fn prefixed_error(file: &str, e: &String) -> (r: String)
    ensures
        r@ == file_error(file@, e@),
{
    let mut m = string_of(file);
    push_str(&mut m, ": ");
    push_string(&mut m, e);
    m
}

/// `s` when `n` is not one.
pub open spec fn plural(n: nat) -> Seq<char> {
    if n == 1 {
        Seq::empty()
    } else {
        "s"@
    }
}

/// The program defines a generic function.
pub open spec fn has_templates(v: Seq<Expr>) -> bool {
    exists|k: int| 0 <= k < v.len() && (#[trigger] crate::mono::generic_name(v[k])) is Some
}

proof fn lemma_no_repeat(p: Seq<Expr>, i: int)
    requires
        0 <= i <= p.len(),
        !has_templates(p),
    ensures
        crate::mono::first_repeat(p, i) == p.len(),
    decreases p.len() - i,
{
    if i < p.len() {
        assert(crate::mono::generic_name(p[i]) is None);
        lemma_no_repeat(p, i + 1);
    }
}

/// What checking a unit that lexes to `ts` answers: where the tokens parse
/// to a program without generic functions, success exactly when a fresh
/// checker accepts it, with that program, and otherwise the checker's
/// error prefixed with the file's name; where parsing fails, the parse
/// error prefixed with the file's name. A program with generic functions
/// is monomorphized first, which may fail.
pub open spec fn unit_answer(file: Seq<char>, ts: Seq<crate::lexer::TokV>, r: Result<Vec<Expr>, String>) -> bool {
    match r {
        Ok(v) => (exists|v0: Seq<Expr>| #[trigger] parses_to(ts, v0) && (!has_templates(v0) ==> v@ == v0))
            && exists|c0: LinearChecker, c1: LinearChecker| fresh_with(c0, false, Map::empty()) && #[trigger] accepts(c0, v@, c1),
        Err(m) => {
            ||| exists|m0: String| #[trigger] parse_fails_with(ts, m0) && m@ == file_error(file, m0@)
            ||| exists|v0: Seq<Expr>| #[trigger] parses_to(ts, v0) && has_templates(v0)
            ||| exists|v0: Seq<Expr>, c0: LinearChecker, c1: LinearChecker, m0: String|
                #[trigger] parses_to(ts, v0) && !has_templates(v0) && fresh_with(c0, false, Map::empty())
                    && #[trigger] refuses(c0, v0, c1, m0) && m@ == file_error(file, m0@)
        },
    }
}

impl ParallelBuilder {
    /// Compiles one source file up to the checker: tokenize, parse,
    /// monomorphize and check, each error prefixed with the file's name.
    pub fn check_unit(file: &str, source: &str) -> (r: Result<Vec<Expr>, String>)
        ensures
            match spec_tokenize(source@) {
                Err((a, b)) => r is Err && r->Err_0@ == file_error(file@, lex_error_message(source@, a, b)),
                Ok(ts) => unit_answer(file@, token_kinds(ts), r),
            },
    {
        let tokens = match Lexer::tokenize(source) {
            Ok(t) => t,
            Err(e) => {
                return Err(prefixed_error(file, &e));
            },
        };
        let ghost tv = tokens@;
        let mut parser = Parser::new(tokens, string_of(source));
        let ghost start = parser;
        proof {
            crate::parser::stmt::lemma_kinds(start.toks(), tv, source@, spec_tokenize(source@)->Ok_0);
        }
        let mut program = match parser.parse_program() {
            Ok(p) => p,
            Err(e) => {
                let res: Result<Vec<Expr>, String> = Err(prefixed_error(file, &e));
                proof {
                    assert(parse_fails_with(start.toks(), e));
                    assert(unit_answer(file@, token_kinds(spec_tokenize(source@)->Ok_0), res));
                }
                return res;
            },
        };
        let ghost parsed = program@;
        proof {
            assert(parses_to(start.toks(), parsed));
        }
        proof {
            if !has_templates(parsed) {
                lemma_no_repeat(parsed, 0);
            }
        }
        match crate::mono::monomorphize(&mut program) {
            Ok(()) => {},
            Err(e) => {
                let res: Result<Vec<Expr>, String> = Err(prefixed_error(file, &e));
                proof {
                    assert(parses_to(start.toks(), parsed));
                    assert(unit_answer(file@, token_kinds(spec_tokenize(source@)->Ok_0), res));
                }
                return res;
            },
        }
        let mut checker = LinearChecker::new();
        let ghost c0 = checker;
        match checker.check_program(program.as_slice()) {
            Ok(()) => {
                let res: Result<Vec<Expr>, String> = Ok(program);
                proof {
                    assert(accepts(c0, res->Ok_0@, checker));
                    assert(parses_to(start.toks(), parsed));
                    assert(unit_answer(file@, token_kinds(spec_tokenize(source@)->Ok_0), res));
                }
                res
            },
            Err(e) => {
                let res: Result<Vec<Expr>, String> = Err(prefixed_error(file, &e));
                proof {
                    assert(parses_to(start.toks(), parsed));
                    assert(unit_answer(file@, token_kinds(spec_tokenize(source@)->Ok_0), res));
                }
                res
            },
        }
    }

    /// The line that ends a successful build.
    pub fn build_summary(exe: &str, total: usize, cached: usize) -> (r: String)
        ensures
            r@ == "✓ Built "@ + exe@ + " ("@ + decimal(total as nat) + " file"@ + plural(total as nat)
                + ", "@ + decimal(cached as nat) + " cached)"@,
    {
        let mut m = string_of("✓ Built ");
        push_str(&mut m, exe);
        push_str(&mut m, " (");
        push_usize(&mut m, total);
        push_str(&mut m, " file");
        if total != 1 {
            push_str(&mut m, "s");
        }
        push_str(&mut m, ", ");
        push_usize(&mut m, cached);
        push_str(&mut m, " cached)");
        proof {
            if total == 1 {
                assert(m@ =~= "✓ Built "@ + exe@ + " ("@ + decimal(total as nat) + " file"@ + plural(total as nat)
                    + ", "@ + decimal(cached as nat) + " cached)"@);
            }
        }
        m
    }

    /// The line that ends a successful check.
    pub fn check_summary(files: usize) -> (r: String)
        ensures
            r@ == "✓ Check passed ("@ + decimal(files as nat) + " file"@ + plural(files as nat) + ")"@,
    {
        let mut m = string_of("✓ Check passed (");
        push_usize(&mut m, files);
        push_str(&mut m, " file");
        if files != 1 {
            push_str(&mut m, "s");
        }
        push_str(&mut m, ")");
        proof {
            if files == 1 {
                assert(m@ =~= "✓ Check passed ("@ + decimal(files as nat) + " file"@ + plural(files as nat) + ")"@);
            }
        }
        m
    }

    /// The error of a check that found errors.
    pub fn errors_summary(count: usize) -> (r: String)
        ensures
            r@ == decimal(count as nat) + " error(s) found"@,
    {
        let mut m = String::new();
        push_usize(&mut m, count);
        push_str(&mut m, " error(s) found");
        m
    }

    /// The first line of a build or a check: `  Building name vversion`.
    pub fn banner(verb: &str, name: &str, version: &str) -> (r: String)
        ensures
            r@ == "  "@ + verb@ + " "@ + name@ + " v"@ + version@,
    {
        let mut m = string_of("  ");
        push_str(&mut m, verb);
        push_str(&mut m, " ");
        push_str(&mut m, name);
        push_str(&mut m, " v");
        push_str(&mut m, version);
        m
    }

    /// The line that reports a resolved dependency.
    pub fn dependency_line(dep: &ResolvedDep) -> (r: String)
        ensures
            r@ == "  Using dependency: "@ + dep.name@ + " v"@ + dep.version@ + match dep.source {
                DepSource::Local(p) => " (local path: "@ + p@ + ")"@,
                DepSource::Git { url, branch } => " (git: "@ + url@ + ", branch: "@
                    + crate::lexer::debug_opt_text(opt_text(branch)) + ")"@,
                DepSource::Registry(v) => " (registry version: "@ + v@ + ")"@,
            },
    {
        let mut m = string_of("  Using dependency: ");
        push_string(&mut m, &dep.name);
        push_str(&mut m, " v");
        push_string(&mut m, &dep.version);
        match &dep.source {
            DepSource::Local(p) => {
                push_str(&mut m, " (local path: ");
                push_string(&mut m, p);
                push_str(&mut m, ")");
            },
            DepSource::Git { url, branch } => {
                push_str(&mut m, " (git: ");
                push_string(&mut m, url);
                push_str(&mut m, ", branch: ");
                crate::lexer::push_debug_opt_text(&mut m, branch);
                push_str(&mut m, ")");
            },
            DepSource::Registry(v) => {
                push_str(&mut m, " (registry version: ");
                push_string(&mut m, v);
                push_str(&mut m, ")");
            },
        }
        m
    }
}

} // verus!
