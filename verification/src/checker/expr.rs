use vstd::prelude::*;
use crate::ast::{Expr, TrackType, TypeV};
use crate::checker::{LinearChecker, VariableState, quote};
use crate::checker::builtins::{builtin_functions, module_exports};
use crate::checker::flow::merge_branches;
use crate::checker::imports::{import_entries, normalize_path};
use crate::collections::{DeepCopy, StrSet};
use crate::lexer::Lexer;
use crate::parser::Parser;
use crate::text::{string_of, push_str, push_string, push_usize};

verus! {

/// `c` may follow `o`: the same known modules, every module loaded in `o`
/// still loaded, and every function and type alias known in `o` still
/// known.
pub open spec fn follows(c: LinearChecker, o: LinearChecker) -> bool {
    &&& c.wf()
    &&& c.modules == o.modules
    &&& o.loaded_modules.view().subset_of(c.loaded_modules.view())
    &&& o.functions.view().dom().subset_of(c.functions.view().dom())
    &&& o.type_aliases.view().dom().subset_of(c.type_aliases.view().dom())
}

/// Following keeps the count of modules not loaded from growing.
pub proof fn lemma_follows(c: LinearChecker, o: LinearChecker)
    requires
        o.wf(),
        follows(c, o),
    ensures
        0 <= c.unloaded() <= o.unloaded(),
{
    o.lemma_unloaded();
    c.lemma_unloaded();
    vstd::set_lib::lemma_len_subset(o.loaded_modules.view(), c.loaded_modules.view());
}

/// Following is transitive.
pub proof fn lemma_follows_trans(a: LinearChecker, b: LinearChecker, c: LinearChecker)
    requires
        follows(b, a),
        follows(c, b),
    ensures
        follows(c, a),
{
}

/// The names of the parameters.
pub open spec fn param_names(params: Seq<(String, TrackType)>) -> Set<Seq<char>> {
    Set::new(|n: Seq<char>| exists|k: int| 0 <= k < params.len() && (#[trigger] params[k]).0@ == n)
}

fn names_of_params(params: &Vec<(String, TrackType)>) -> (s: StrSet)
    ensures
        s.wf(),
        s.view() == param_names(params@),
{
    let mut s = StrSet::new();
    let mut i: usize = 0;
    while i < params.len()
        invariant
            s.wf(),
            i <= params.len(),
            s.view() == param_names(params@.take(i as int)),
        decreases params.len() - i,
    {
        proof {
            assert(param_names(params@.take(0)) =~= Set::<Seq<char>>::empty());
        }
        let ghost before = s.view();
        s.insert(params[i].0.clone());
        proof {
            let t = params@.take(i + 1);
            assert forall|n: Seq<char>| #[trigger] param_names(t).contains(n) == before.insert(params@[i as int].0@).contains(n) by {
                if param_names(t).contains(n) {
                    let k = choose|k: int| 0 <= k < t.len() && (#[trigger] t[k]).0@ == n;
                    if k < i {
                        assert(params@.take(i as int)[k] == t[k]);
                    }
                }
                if before.contains(n) {
                    let k = choose|k: int| 0 <= k < i && (#[trigger] params@.take(i as int)[k]).0@ == n;
                    assert(t[k] == params@.take(i as int)[k]);
                }
                if n == params@[i as int].0@ {
                    assert(t[i as int] == params@[i as int]);
                }
            }
            assert(param_names(t) =~= before.insert(params@[i as int].0@));
        }
        i += 1;
    }
    proof {
        assert(params@.take(params@.len() as int) =~= params@);
    }
    s
}

/// The error for consuming an outside linear resource in a loop; `long`
/// gives the reason.
pub open spec fn loop_text(name: Seq<char>, long: bool) -> Seq<char> {
    "Compile Error: Cannot consume linear resource '"@ + name + if long {
        "' inside a loop. It was declared outside the loop and would be double-freed/moved on subsequent iterations."@
    } else {
        "' inside a loop."@
    }
}

fn loop_message(name: &String, long: bool) -> (r: String)
    ensures
        r@ == loop_text(name@, long),
{
    let mut m = string_of("Compile Error: Cannot consume linear resource '");
    push_string(&mut m, name);
    if long {
        push_str(
            &mut m,
            "' inside a loop. It was declared outside the loop and would be double-freed/moved on subsequent iterations.",
        );
    } else {
        push_str(&mut m, "' inside a loop.");
    }
    m
}

fn qualified_name(ns: &String, n: &String) -> (r: String)
    ensures
        r@ == ns@ + "::"@ + n@,
{
    let mut m = ns.clone();
    push_str(&mut m, "::");
    push_string(&mut m, n);
    m
}

fn wrap_error(prefix: &str, cand: &String, e: &String) -> (r: String)
    ensures
        r@ == prefix@ + cand@ + "': "@ + e@,
{
    let mut m = string_of(prefix);
    push_string(&mut m, cand);
    push_str(&mut m, "': ");
    push_string(&mut m, e);
    m
}

/// What checking one expression is known to answer, by its form: a
/// variable is read (moved unless it is a copy or a lens); a literal passes;
/// a call of a compiler-managed function, `@compile_error`, a lens on a
/// resource that is not `Active` and an import of an unknown module are
/// refused, each leaving the state as it was.
pub open spec fn expr_answer(c: LinearChecker, e: Expr, d: LinearChecker, r: Result<(), String>) -> bool
    decreases e, 3nat, 0int,
{
    match e {
        Expr::Variable(n) => {
            &&& d.same_but_registry(&c)
            &&& d.registry.view() == crate::checker::moved_registry(
                c.registry.view(),
                c.copy_var(n@),
                c.lens_aliases.view().contains(n@),
                n@,
            )
            &&& match (r, crate::checker::move_result(c.registry.view(), n@)) {
                (Ok(_), Ok(_)) => true,
                (Err(m), Err(x)) => m@ == x,
                _ => false,
            }
        },
        Expr::IntLiteral(_) | Expr::StringLiteral(_) | Expr::BoolLiteral(_) | Expr::TypeAlias { .. } => {
            r is Ok && d == c
        },
        Expr::AddressOf { target } => borrow_answer(c, *target, d, r),
        Expr::UnaryOp { expr: inner, .. } => expr_answer(c, *inner, d, r),
        Expr::BinaryOp { left, right, .. } => (r is Err && borrow_answer(c, *left, d, r)) || exists|c1: LinearChecker|
            borrow_answer(c, *left, c1, Ok(())) && #[trigger] follows(c1, c) && borrow_answer(c1, *right, d, r),
        Expr::ArrayIndex { target, index } => (r is Err && borrow_answer(c, *target, d, r)) || exists|c1: LinearChecker|
            borrow_answer(c, *target, c1, Ok(())) && #[trigger] follows(c1, c) && borrow_answer(c1, *index, d, r),
        Expr::Range { start, end } => (r is Err && borrow_answer(c, *start, d, r)) || exists|c1: LinearChecker|
            borrow_answer(c, *start, c1, Ok(())) && #[trigger] follows(c1, c) && borrow_answer(c1, *end, d, r),
        Expr::ConstDef { name, value } => (r is Err && expr_answer(c, *value, d, r)) || exists|c1: LinearChecker|
            expr_answer(c, *value, c1, Ok(())) && #[trigger] follows(c1, c) && r is Ok && d.registry.view()
                == crate::checker::settle(
                c1.registry.view().insert(name@, VariableState::Active),
                d.borrows.view(),
                c1.lens_locked.view(),
            ),
        Expr::ArrayLiteral { .. } | Expr::TupleLiteral { .. } => args_answer(c, e, d, r),
        Expr::FunctionCall { name, args } => {
            &&& crate::checker::calls::is_forbidden(name@) ==> {
                &&& r is Err
                &&& r->Err_0@ == crate::checker::calls::forbidden_msg(name@)
                &&& d == c
            }
            &&& match crate::checker::calls::call_answer(c.functions.view(), c.functions.key_seq(), name@) {
                Err(m) => r is Err && r->Err_0@ == m && d == c,
                Ok(_) => args_answer(c, e, d, r),
            }
        },
        Expr::MacroCall { name, args, .. } => if name@ == "compile_error"@ {
            &&& r is Err
            &&& d == c
            &&& r->Err_0@ == (if args@.len() > 0 && args@[0] is StringLiteral {
                "Compile Error: "@ + args@[0]->StringLiteral_0@
            } else {
                "Compile Error: @compile_error requires a string message"@
            })
        } else {
            macro_answer(c, e, d, r)
        },
        Expr::LensBlock { target, .. } => if !(c.registry.view().contains_key(target@)
            && c.registry.view()[target@] == VariableState::Active) {
            &&& r is Err
            &&& r->Err_0@ == crate::checker::lens_inactive_msg(target@)
            &&& d == c
        } else {
            lens_answer(c, e, d, r)
        },
        Expr::Use { path, imports, alias } => {
            let norm = crate::checker::imports::replace_dc(path@);
            &&& (crate::checker::builtins::std_exports(norm) is None && crate::checker::imports::first_known(
                crate::checker::imports::module_candidates(path@, norm),
                c.modules.view().dom(),
                0,
            ) is None) ==> {
                &&& r is Err
                &&& r->Err_0@ == "Compile Error: Unknown module '"@ + path@ + "'"@
                &&& d == c
            }
            &&& crate::checker::builtins::std_exports(norm) matches Some(provided) ==> match crate::checker::imports::import_plan(
                path@,
                crate::checker::imports::opt_names(imports),
                crate::checker::imports::opt_str(alias),
                provided,
            ) {
                Err(m) => r is Err && r->Err_0@ == m && d == c,
                Ok(entries) => r is Ok && d.functions.view() == crate::checker::builtins::insert_all(
                    c.functions.view(),
                    entries,
                ) && d.registry == c.registry && d.types == c.types && d.borrows == c.borrows && d.mutables
                    == c.mutables && d.lens_locked == c.lens_locked && d.lens_aliases == c.lens_aliases,
            }
        },
        Expr::WhileLoop { condition, body } => (r is Err && expr_answer(c, *condition, d, r)) || exists|
            c1: LinearChecker,
        |
            expr_answer(c, *condition, c1, Ok(())) && #[trigger] follows(c1, c) && loop_answer(c1, c1, body@, d, r, true),
        Expr::LetDef { name, mutable, ty, value } => match crate::checker::lens::lens_in(c.lens_aliases.view(), *value) {
            Some(n) => r is Err && r->Err_0@ == crate::checker::lens::lens_escape_msg(n) && d == c,
            None => (r is Err && expr_answer(c, *value, d, r)) || exists|c1: LinearChecker|
                expr_answer(c, *value, c1, Ok(())) && #[trigger] follows(c1, c) && r is Ok && d.registry.view()
                    == crate::checker::settle(
                    c1.registry.view().insert(name@, VariableState::Active),
                    d.borrows.view(),
                    c1.lens_locked.view(),
                ) && d.types.view() == c1.types.view().insert(name@, let_type(c1, ty, *value)) && d.mutables.view() == (
                if mutable {
                    c1.mutables.view().insert(name@)
                } else {
                    c1.mutables.view()
                }) && same_frame(d, c1) && d.borrows.view() == (if let_type(c1, ty, *value) is Ref {
                    c1.borrows.view().insert(
                        name@,
                        crate::checker::prov::prov(d.types.view(), c1.functions.view(), c1.borrows.view(), *value),
                    )
                } else {
                    c1.borrows.view()
                }),
        },
        Expr::IfElse { condition, then_body, else_body } => (r is Err && expr_answer(c, *condition, d, r)) || exists|
            c1: LinearChecker,
        |
            expr_answer(c, *condition, c1, Ok(())) && #[trigger] follows(c1, c) && if_answer(c1, e, d, r),
        Expr::Assign { target, value } => match crate::checker::lens::lens_in(c.lens_aliases.view(), *value) {
            Some(n) => r is Err && r->Err_0@ == crate::checker::lens::lens_escape_msg(n) && d == c,
            None => (r is Err && expr_answer(c, *value, d, r)) || exists|c1: LinearChecker|
                expr_answer(c, *value, c1, Ok(())) && #[trigger] follows(c1, c) && match *target {
                    Expr::Variable(n) => if !c1.mutables.view().contains(n@) && c1.registry.view().contains_key(n@) {
                        r is Err && r->Err_0@ == immutable_text(n@)
                    } else {
                        r is Ok && d.registry.view() == crate::checker::settle(
                            c1.registry.view().insert(n@, VariableState::Active),
                            d.borrows.view(),
                            c1.lens_locked.view(),
                        ) && same_frame(d, c1) && d.mutables == c1.mutables
                    },
                    _ => r is Ok && d.registry.view() == c1.settled() && same_frame(d, c1) && d.mutables
                        == c1.mutables && d.types == c1.types && d.borrows == c1.borrows,
                },
        },
        Expr::Return { value } => match value {
            None => r is Ok && d == c,
            Some(v) => match crate::checker::lens::lens_in(c.lens_aliases.view(), *v) {
                Some(n) => r is Err && r->Err_0@ == crate::checker::lens::lens_escape_msg(n) && d == c,
                None => (r is Err && expr_answer(c, *v, d, r)) || exists|c1: LinearChecker|
                    expr_answer(c, *v, c1, Ok(())) && #[trigger] follows(c1, c) && d == c1 && if c1.current_return_type
                        matches Some(TrackType::Ref(_)) {
                        (r is Ok <==> escapes_nothing(c1, *v)) && (r matches Err(m) ==> m@ == escape_error(c1, *v))
                    } else {
                        r is Ok
                    },
            },
        },
        Expr::FnDef { generics, params, return_type, body, .. } => if generics@.len() > 0 {
            r is Ok && d == c
        } else {
            fn_answer(c, e, d, r)
        },
        Expr::Match { target, .. } => (r is Err && expr_answer(c, *target, d, r)) || exists|c1: LinearChecker|
            expr_answer(c, *target, c1, Ok(())) && #[trigger] follows(c1, c) && match_answer(
                c1,
                e,
                match_type(c1, *target),
                d,
                r,
            ),
        Expr::UnionDef { name, variants } => {
            &&& r is Ok
            &&& forall|k: int| 0 <= k < variants@.len() ==> #[trigger] variant_declared(d, name@, variants@[k])
            &&& d.mutables == c.mutables
            &&& d.lens_locked == c.lens_locked
            &&& d.lens_aliases == c.lens_aliases
            &&& d.borrows == c.borrows
            &&& d.current_params == c.current_params
            &&& d.current_return_type == c.current_return_type
        },
        Expr::LetDestructure { pattern, mutable, value } => match crate::checker::lens::lens_in(
            c.lens_aliases.view(),
            *value,
        ) {
            Some(n) => r is Err && r->Err_0@ == crate::checker::lens::lens_escape_msg(n) && d == c,
            None => (r is Err && expr_answer(c, *value, d, r)) || exists|c1: LinearChecker, b: LinearChecker|
                #[trigger] state_pair(c1, b) && expr_answer(c, *value, c1, Ok(())) && follows(c1, c)
                    && crate::checker::patterns::bound_into(
                    b,
                    c1,
                    crate::checker::patterns::binds(pattern, match_type(c1, *value)),
                    mutable,
                ) && r is Ok && d.wf() && d.registry.view() == b.settled() && d.same_but_registry(&b),
        },
        Expr::StructInitialization { .. } => struct_answer(c, e, d, r),
        Expr::EnumDef { .. } => enum_answer(c, e, d, r),
        Expr::SliceIndex { target, start, end } => (r is Err && borrow_answer(c, *target, d, r)) || exists|
            c1: LinearChecker,
            c2: LinearChecker,
        |
            #[trigger] state_pair(c1, c2) && borrow_answer(c, *target, c1, Ok(())) && follows(c1, c) && ((start matches Some(
                x,
            ) && r is Err && borrow_answer(c1, *x, d, r)) || (match start {
                Some(x) => borrow_answer(c1, *x, c2, Ok(())),
                None => c2 == c1,
            } && follows(c2, c) && match end {
                Some(y) => borrow_answer(c2, *y, d, r),
                None => r is Ok && d == c2,
            })),
        Expr::MacroDef { .. } => macro_def_answer(c, e, d, r),
        Expr::TupleIndex { target, index } => (r is Err && borrow_answer(c, *target, d, r)) || exists|c1: LinearChecker|
            borrow_answer(c, *target, c1, Ok(())) && #[trigger] follows(c1, c) && d == c1 && match tuple_len(
                crate::checker::infer::infer(c1.types.view(), c1.functions.view(), *target),
            ) {
                Some(n) => if index >= n {
                    r is Err && r->Err_0@ == tuple_index_text(index as nat, n)
                } else {
                    r is Ok
                },
                None => r is Ok,
            },
        Expr::ForIn { var, iter, body } => (r is Err && expr_answer(c, *iter, d, r)) || exists|
            c1: LinearChecker,
            cs: LinearChecker,
        |
            #[trigger] state_pair(c1, cs) && expr_answer(c, *iter, c1, Ok(())) && follows(c1, c) && loop_start(c1, cs, var@)
                && loop_answer(c1, cs, body@, d, r, false),
    }
}

/// Names a pair of states, to instantiate statements about them.
pub open spec fn state_pair(a: LinearChecker, b: LinearChecker) -> bool {
    true
}

/// `cs` is `c1` with the loop variable `var` declared `Active`, with a type.
pub open spec fn loop_start(c1: LinearChecker, cs: LinearChecker, var: Seq<char>) -> bool {
    &&& cs.wf()
    &&& cs.registry.view() == c1.registry.view().insert(var, VariableState::Active)
    &&& cs.types.view().contains_key(var)
    &&& cs.types.view() == c1.types.view().insert(var, cs.types.view()[var])
    &&& cs == (LinearChecker { registry: cs.registry, types: cs.types, ..c1 })
}

/// Names a pair of state sequences, to instantiate statements about traces.
pub open spec fn trace_pair(states: Seq<LinearChecker>, mids: Seq<LinearChecker>) -> bool {
    true
}

/// Names a trace prefix of length `j`, to instantiate statements about it.
pub open spec fn trace_at(states: Seq<LinearChecker>, mids: Seq<LinearChecker>, j: int) -> bool {
    true
}

/// The first variable that was `Active` in `pre`, is no copy and is spent
/// in `after`: a loop body that ended in `after` may not have spent it.
pub open spec fn loop_refusal(pre: LinearChecker, after: LinearChecker) -> Option<Seq<char>> {
    let keys = pre.registry.key_seq();
    let j = crate::checker::flow::first_loop_violation(keys, pre.registry.view(), after, 0);
    if j < keys.len() {
        Some(keys[j])
    } else {
        None
    }
}

/// What checking a loop body `body` from `start` answers, where `pre` is
/// the state before the loop: a body that fails fails the loop; a body
/// that spends a linear resource from before the loop is refused with
/// `loop_text`; otherwise the registry, types and borrows from before the
/// loop come back, with lock states brought up to date.
pub open spec fn loop_answer(
    pre: LinearChecker,
    start: LinearChecker,
    body: Seq<Expr>,
    d: LinearChecker,
    r: Result<(), String>,
    long: bool,
) -> bool
    decreases body, 2nat, 0int,
{
    &&& r is Ok ==> exists|states: Seq<LinearChecker>, mids: Seq<LinearChecker>|
        #[trigger] trace_pair(states, mids) && block_trace(body, true, states, mids, body.len() as int) && states[0] == start && loop_refusal(
            pre,
            states.last(),
        ) is None && d.registry.view() == crate::checker::settle(
            pre.registry.view(),
            pre.borrows.view(),
            states.last().lens_locked.view(),
        ) && d.types.view() == pre.types.view() && d.borrows.view() == pre.borrows.view() && d.mutables
            == states.last().mutables && d.functions == states.last().functions
    &&& r matches Err(m) ==> (exists|states: Seq<LinearChecker>, mids: Seq<LinearChecker>, j: int|
        #[trigger] trace_at(states, mids, j) && 0 <= j < body.len() && block_trace(body, true, states, mids, j) && states[0] == start
            && expr_answer(states[j], body[j], d, r)) || (exists|states: Seq<LinearChecker>, mids: Seq<LinearChecker>|
        #[trigger] trace_pair(states, mids) && block_trace(body, true, states, mids, body.len() as int) && states[0]
            == start && loop_refusal(
            pre,
            states.last(),
        ) is Some && m@ == loop_text(loop_refusal(pre, states.last())->Some_0, long))
}

/// `cs` is where the body of a function with `params` and `ret` starts,
/// from `c`: only its parameters are in scope for escapes, no lens or borrow
/// is open, and each parameter is declared with a type.
pub open spec fn fn_start(
    c: LinearChecker,
    cs: LinearChecker,
    params: Seq<(String, TrackType)>,
    ret: Option<TrackType>,
) -> bool {
    &&& follows(cs, c)
    &&& cs.mutables == c.mutables
    &&& cs.functions == c.functions
    &&& cs.unions == c.unions
    &&& cs.type_aliases == c.type_aliases
    &&& cs.current_params.view() == param_names(params)
    &&& crate::ast::opt_type_v(cs.current_return_type) == crate::ast::opt_type_v(ret)
    &&& cs.borrows.view() == Map::<Seq<char>, Seq<Seq<char>>>::empty()
    &&& cs.lens_locked.view() == Set::<Seq<char>>::empty()
    &&& cs.lens_aliases.view() == Set::<Seq<char>>::empty()
    &&& forall|k: int|
        0 <= k < params.len() ==> cs.registry.view().contains_key((#[trigger] params[k]).0@)
            && cs.types.view().contains_key(params[k].0@)
}

/// The body of a function returning a reference ends in a value that is
/// returned without `return`, which must borrow only from the parameters.
pub open spec fn tail_returned(ret: Option<TrackType>, body: Seq<Expr>) -> bool {
    &&& ret matches Some(TrackType::Ref(_))
    &&& body.len() > 0
    &&& forall|j: int| 0 <= j < body.len() ==> !((#[trigger] body[j]) is Return)
}

/// What checking a function definition `e` from `c` answers: its body is
/// checked in turn from `fn_start`; a statement that fails fails the
/// definition; a reference returned by the last value must borrow from the
/// parameters; and on success the scope from before comes back.
pub open spec fn fn_answer(c: LinearChecker, e: Expr, d: LinearChecker, r: Result<(), String>) -> bool
    decreases e, 2nat, 0int,
{
    match e {
        Expr::FnDef { params, return_type, body: bv, .. } => {
            let body = bv@;
            &&& r is Ok ==> {
                &&& exists|cs: LinearChecker, sts: Seq<LinearChecker>, ms: Seq<LinearChecker>|
                    #![trigger state_pair(c, cs), trace_pair(sts, ms)]
                    state_pair(c, cs) && trace_pair(sts, ms) && fn_start(c, cs, params@, return_type) && block_trace(
                        body,
                        true,
                        sts,
                        ms,
                        body.len() as int,
                    ) && sts[0] == cs && (tail_returned(return_type, body) ==> escapes_nothing(
                        sts.last(),
                        body.last(),
                    ))
                &&& d.registry.view() == c.registry.view()
                &&& d.types.view() == c.types.view()
                &&& d.borrows.view() == c.borrows.view()
                &&& d.lens_locked.view() == c.lens_locked.view()
                &&& d.lens_aliases.view() == c.lens_aliases.view()
                &&& d.current_params.view() == c.current_params.view()
            }
            &&& r is Err ==> {
                ||| exists|cs: LinearChecker, sts: Seq<LinearChecker>, ms: Seq<LinearChecker>, j: int|
                    #![trigger state_pair(c, cs), trace_at(sts, ms, j)]
                    state_pair(c, cs) && trace_at(sts, ms, j) && fn_start(c, cs, params@, return_type) && 0 <= j
                        < body.len() && block_trace(body, true, sts, ms, j) && sts[0] == cs && expr_answer(
                        sts[j],
                        body[j],
                        d,
                        r,
                    )
                ||| exists|cs: LinearChecker, sts: Seq<LinearChecker>, ms: Seq<LinearChecker>|
                    #![trigger state_pair(c, cs), trace_pair(sts, ms)]
                    state_pair(c, cs) && trace_pair(sts, ms) && fn_start(c, cs, params@, return_type) && block_trace(
                        body,
                        true,
                        sts,
                        ms,
                        body.len() as int,
                    ) && sts[0] == cs && tail_returned(return_type, body) && !escapes_nothing(
                        sts.last(),
                        body.last(),
                    )
            }
        },
        _ => true,
    }
}

/// The position of the first name from `i` on that is not a parameter.
pub open spec fn first_outside(p: Seq<Seq<char>>, params: Set<Seq<char>>, i: int) -> int
    decreases p.len() - i,
{
    if i < 0 || i >= p.len() || !params.contains(p[i]) {
        i
    } else {
        first_outside(p, params, i + 1)
    }
}

/// The error for returning a reference that borrows the local `n`.
pub open spec fn escape_text(n: Seq<char>) -> Seq<char> {
    crate::checker::quoted(
        "Compile Error: Cannot return reference to local variable '"@,
        n,
        "' (escapes function scope)."@,
    )
}

/// The error for returning `v` from `c`: it names the first variable that
/// the reference borrows and that is not a parameter.
pub open spec fn escape_error(c: LinearChecker, v: Expr) -> Seq<char> {
    let p = crate::checker::prov::prov(c.types.view(), c.functions.view(), c.borrows.view(), v);
    escape_text(p[first_outside(p, c.current_params.view(), 0)])
}

/// A returned reference `v` borrows only from the function's parameters.
pub open spec fn escapes_nothing(c: LinearChecker, v: Expr) -> bool {
    let p = crate::checker::prov::prov(c.types.view(), c.functions.view(), c.borrows.view(), v);
    forall|j: int| 0 <= j < p.len() ==> c.current_params.view().contains(#[trigger] p[j])
}

/// The error for assigning to a variable that was not declared `mut`.
pub open spec fn immutable_text(n: Seq<char>) -> Seq<char> {
    "Compile Error: Cannot mutate immutable variable '"@ + n + "'. Use 'let mut "@ + n
        + "' to declare a mutable variable."@
}

/// `s` is where the second branch of an `if` starts: the registry, types
/// and borrows of `c1`, from before the branches, and the rest as the first
/// branch left it in `ct`.
pub open spec fn branch_start(c1: LinearChecker, ct: LinearChecker, s: LinearChecker) -> bool {
    &&& s.wf()
    &&& s.registry.view() == c1.registry.view()
    &&& s.types.view() == c1.types.view()
    &&& s.borrows.view() == c1.borrows.view()
    &&& s == (LinearChecker { registry: s.registry, types: s.types, borrows: s.borrows, ..ct })
}

/// The first variable from before an `if` that the branches leave in
/// different states, if any.
pub open spec fn if_conflict(c1: LinearChecker, ct: LinearChecker, ce: LinearChecker) -> Option<Seq<char>> {
    let keys = c1.registry.key_seq();
    let j = crate::checker::flow::first_conflict(keys, ct.registry.view(), ce.registry.view(), 0);
    if j < keys.len() {
        Some(keys[j])
    } else {
        None
    }
}

/// What checking the branches of an `if` from `c1` answers: a branch that
/// fails fails the `if`; branches that leave a variable from before it in
/// different states are refused with the first such; otherwise the joined
/// registry, borrows and types, with lock states brought up to date.
pub open spec fn if_answer(c1: LinearChecker, e: Expr, d: LinearChecker, r: Result<(), String>) -> bool
    decreases e, 2nat, 0int,
{
    match e {
        Expr::IfElse { then_body: tv, else_body: ev, .. } => {
            let then_body = tv@;
            let else_body = ev@;
            &&& r is Ok ==> exists|s1: Seq<LinearChecker>, m1: Seq<LinearChecker>, s2: Seq<LinearChecker>, m2: Seq<LinearChecker>|
                #![trigger trace_pair(s1, m1), trace_pair(s2, m2)]
                trace_pair(s1, m1) && trace_pair(s2, m2) && block_trace(then_body, true, s1, m1, then_body.len() as int)
                    && s1[0] == c1 && branch_start(c1, s1.last(), s2[0]) && block_trace(
                    else_body,
                    true,
                    s2,
                    m2,
                    else_body.len() as int,
                ) && if_conflict(c1, s1.last(), s2.last()) is None && d.registry.view() == crate::checker::settle(
                    crate::checker::flow::merged_states(c1.registry.view(), s1.last().registry.view()),
                    crate::checker::flow::merged_borrows(
                        c1.registry.view(),
                        s1.last().borrows.view(),
                        s2.last().borrows.view(),
                    ),
                    s2.last().lens_locked.view(),
                ) && d.types.view() == crate::checker::flow::merged_types(c1.registry.view(), c1.types.view())
                && d.mutables == s2.last().mutables && d.functions == s2.last().functions
            &&& r matches Err(m) ==> {
                ||| exists|s1: Seq<LinearChecker>, m1: Seq<LinearChecker>, j: int|
                    #[trigger] trace_at(s1, m1, j) && 0 <= j < then_body.len() && block_trace(then_body, true, s1, m1, j)
                        && s1[0] == c1 && expr_answer(s1[j], then_body[j], d, r)
                ||| exists|s1: Seq<LinearChecker>, m1: Seq<LinearChecker>, s2: Seq<LinearChecker>, m2: Seq<LinearChecker>, j: int|
                    #![trigger trace_pair(s1, m1), trace_at(s2, m2, j)]
                    trace_pair(s1, m1) && trace_at(s2, m2, j) && block_trace(then_body, true, s1, m1, then_body.len() as int)
                        && s1[0] == c1 && branch_start(c1, s1.last(), s2[0]) && 0 <= j < else_body.len() && block_trace(
                        else_body,
                        true,
                        s2,
                        m2,
                        j,
                    ) && expr_answer(s2[j], else_body[j], d, r)
                ||| exists|s1: Seq<LinearChecker>, m1: Seq<LinearChecker>, s2: Seq<LinearChecker>, m2: Seq<LinearChecker>|
                    #![trigger trace_pair(s1, m1), trace_pair(s2, m2)]
                    trace_pair(s1, m1) && trace_pair(s2, m2) && block_trace(then_body, true, s1, m1, then_body.len() as int)
                        && s1[0] == c1 && branch_start(c1, s1.last(), s2[0]) && block_trace(
                        else_body,
                        true,
                        s2,
                        m2,
                        else_body.len() as int,
                    ) && if_conflict(c1, s1.last(), s2.last()) is Some && m@ == crate::checker::flow::inconsistent_msg(
                        if_conflict(c1, s1.last(), s2.last())->Some_0,
                        crate::checker::flow::state_or_spent(
                            s1.last().registry.view(),
                            if_conflict(c1, s1.last(), s2.last())->Some_0,
                        ),
                        crate::checker::flow::state_or_spent(
                            s2.last().registry.view(),
                            if_conflict(c1, s1.last(), s2.last())->Some_0,
                        ),
                    )
            }
        },
        _ => true,
    }
}

/// `cs` is where the body of a lens on `target` named `lens` starts: the
/// target locked in the lens and the lens declared as its alias.
pub open spec fn lens_start(c: LinearChecker, cs: LinearChecker, target: Seq<char>, lens: Seq<char>) -> bool {
    &&& follows(cs, c)
    &&& cs.registry.view() == c.registry.view().insert(target, VariableState::Locked).insert(lens, VariableState::Active)
    &&& cs.lens_locked.view() == c.lens_locked.view().insert(target)
    &&& cs.lens_aliases.view() == c.lens_aliases.view().insert(lens)
}

/// What checking a lens block `e` on an `Active` target from `c` answers:
/// its body is checked in turn; a statement that fails fails the block; on
/// success the target leaves the lens, reopened, and the alias is gone.
pub open spec fn lens_answer(c: LinearChecker, e: Expr, d: LinearChecker, r: Result<(), String>) -> bool
    decreases e, 2nat, 0int,
{
    match e {
        Expr::LensBlock { target, lens_name, body: bv } => {
            let body = bv@;
            let t = target@;
            let l = lens_name@;
            &&& r is Ok ==> exists|cs: LinearChecker, sts: Seq<LinearChecker>, ms: Seq<LinearChecker>|
                #![trigger state_pair(c, cs), trace_pair(sts, ms)]
                state_pair(c, cs) && trace_pair(sts, ms) && lens_start(c, cs, t, l) && block_trace(
                    body,
                    false,
                    sts,
                    ms,
                    body.len() as int,
                ) && sts[0] == cs && d.registry.view() == crate::checker::settle(
                    crate::checker::reopened(sts.last().registry.view(), t),
                    sts.last().borrows.view(),
                    sts.last().lens_locked.view().remove(t),
                ).remove(l) && d.lens_locked.view() == sts.last().lens_locked.view().remove(t)
                    && d.lens_aliases.view() == sts.last().lens_aliases.view().remove(l) && d.mutables
                    == sts.last().mutables && d.functions == sts.last().functions
            &&& r is Err ==> exists|cs: LinearChecker, sts: Seq<LinearChecker>, ms: Seq<LinearChecker>, j: int|
                #![trigger state_pair(c, cs), trace_at(sts, ms, j)]
                state_pair(c, cs) && trace_at(sts, ms, j) && lens_start(c, cs, t, l) && 0 <= j < body.len()
                    && block_trace(body, false, sts, ms, j) && sts[0] == cs && expr_answer(sts[j], body[j], d, r)
        },
        _ => true,
    }
}

/// What checking a value without consuming it answers: a name is borrowed
/// as `borrow_result` says, leaving the state as it was; anything else is
/// checked as usual.
pub open spec fn borrow_answer(c: LinearChecker, e: Expr, d: LinearChecker, r: Result<(), String>) -> bool
    decreases e, 4nat, 0int,
{
    match e {
        Expr::Variable(n) => d == c && match (
            r,
            crate::checker::borrow_result(c.registry.view(), c.lens_locked.view(), n@),
        ) {
            (Ok(_), Ok(_)) => true,
            (Err(m), Err(x)) => m@ == x,
            _ => false,
        },
        _ => expr_answer(c, e, d, r),
    }
}

/// What checking the arguments of a call, or the elements of an array or a
/// tuple `e`, from `c` answers: each is checked in turn, and the first that
/// fails fails the whole.
pub open spec fn args_answer(c: LinearChecker, e: Expr, d: LinearChecker, r: Result<(), String>) -> bool
    decreases e, 2nat, 0int,
{
    let args_v: Option<Seq<Expr>> = match e {
        Expr::FunctionCall { args: av, .. } => Some(av@),
        Expr::ArrayLiteral { elements: av } => Some(av@),
        Expr::TupleLiteral { elements: av } => Some(av@),
        _ => None,
    };
    match args_v {
        Some(args) => {
            &&& r is Ok ==> exists|sts: Seq<LinearChecker>, ms: Seq<LinearChecker>|
                #[trigger] trace_pair(sts, ms) && block_trace(args, false, sts, ms, args.len() as int) && sts[0] == c
                    && sts.last() == d
            &&& r is Err ==> exists|sts: Seq<LinearChecker>, ms: Seq<LinearChecker>, j: int|
                #[trigger] trace_at(sts, ms, j) && 0 <= j < args.len() && block_trace(args, false, sts, ms, j)
                    && sts[0] == c && expr_answer(sts[j], args[j], d, r)
        },
        _ => true,
    }
}

/// The type a `let` gives its name: the annotation, else the inferred type
/// of the value, else `void`.
pub open spec fn let_type(c1: LinearChecker, ty: Option<TrackType>, value: Expr) -> TypeV {
    match ty {
        Some(t) => t@,
        None => match crate::checker::infer::infer(c1.types.view(), c1.functions.view(), value) {
            Some(t) => t,
            None => TypeV::Void,
        },
    }
}

/// All fields but the registry, types, borrows and mutable names are those
/// of `o`.
pub open spec fn same_frame(d: LinearChecker, o: LinearChecker) -> bool {
    &&& d.functions == o.functions
    &&& d.lens_locked == o.lens_locked
    &&& d.lens_aliases == o.lens_aliases
    &&& d.unions == o.unions
    &&& d.type_aliases == o.type_aliases
    &&& d.current_params == o.current_params
    &&& d.current_return_type == o.current_return_type
    &&& d.barebones == o.barebones
    &&& d.loaded_modules == o.loaded_modules
    &&& d.modules == o.modules
}

/// The type that the patterns of a match are bound against: the target's
/// inferred type, else `i32`.
pub open spec fn match_type(c1: LinearChecker, target: Expr) -> TypeV {
    match crate::checker::infer::infer(c1.types.view(), c1.functions.view(), target) {
        Some(t) => t,
        None => TypeV::I32,
    }
}

/// After arm `k`, the registry, types, borrows and lens sets come back to
/// those of `s` (before the arm); the rest is as the arm left it in `e`.
pub open spec fn arm_restored(s: LinearChecker, e: LinearChecker, n: LinearChecker) -> bool {
    &&& n.wf()
    &&& n.registry.view() == s.registry.view()
    &&& n.types.view() == s.types.view()
    &&& n.borrows.view() == s.borrows.view()
    &&& n.lens_locked.view() == s.lens_locked.view()
    &&& n.lens_aliases.view() == s.lens_aliases.view()
    &&& n == (LinearChecker {
        registry: n.registry,
        types: n.types,
        borrows: n.borrows,
        lens_locked: n.lens_locked,
        lens_aliases: n.lens_aliases,
        ..e
    })
}

/// One arm checked from `s`: its pattern bound against `ty`, its guard (if
/// any) and its body accepted, ending in `e`.
pub open spec fn arm_accepted(s: LinearChecker, arm: crate::ast::MatchArm, ty: TypeV, e: LinearChecker) -> bool
    decreases arm, 1nat, 0int,
{
    exists|b: LinearChecker, g: LinearChecker|
        #[trigger] state_pair(b, g) && crate::checker::patterns::bound_into(
            b,
            s,
            crate::checker::patterns::binds(arm.pattern, ty),
            false,
        ) && follows(b, s) && match arm.guard {
            Some(x) => expr_answer(b, x, g, Ok(())),
            None => g == b,
        } && expr_answer(g, arm.body, e, Ok(()))
}

/// One arm checked from `s` failing with `r`, in its guard or its body.
pub open spec fn arm_refused(s: LinearChecker, arm: crate::ast::MatchArm, ty: TypeV, d: LinearChecker, r: Result<(), String>) -> bool
    decreases arm, 1nat, 0int,
{
    exists|b: LinearChecker, g: LinearChecker|
        #[trigger] state_pair(b, g) && crate::checker::patterns::bound_into(
            b,
            s,
            crate::checker::patterns::binds(arm.pattern, ty),
            false,
        ) && follows(b, s) && ((arm.guard matches Some(x) && expr_answer(b, x, d, r)) || (match arm.guard {
            Some(x) => expr_answer(b, x, g, Ok(())),
            None => g == b,
        } && expr_answer(g, arm.body, d, r)))
}

/// The first `n` arms were checked in turn through `states`, arm `k`
/// ending in `ends[k]`.
pub open spec fn arms_trace(
    arms: Seq<crate::ast::MatchArm>,
    ty: TypeV,
    states: Seq<LinearChecker>,
    ends: Seq<LinearChecker>,
    n: int,
) -> bool
    decreases arms, 2nat, n,
{
    if n <= 0 {
        n == 0 && states.len() == 1 && ends.len() == 0
    } else {
        &&& n <= arms.len()
        &&& states.len() == n + 1
        &&& ends.len() == n
        &&& arms_trace(arms, ty, states.drop_last(), ends.drop_last(), n - 1)
        &&& arm_accepted(states[n - 1], arms[n - 1], ty, ends[n - 1])
        &&& arm_restored(states[n - 1], ends[n - 1], states[n])
    }
}

/// What checking the arms of a match `e` from `c1` answers: each arm is
/// checked in turn from the state before it, which then comes back; the
/// first arm that fails fails the match.
pub open spec fn match_answer(c1: LinearChecker, e: Expr, ty: TypeV, d: LinearChecker, r: Result<(), String>) -> bool
    decreases e, 2nat, 0int,
{
    match e {
        Expr::Match { arms: av, .. } => {
            let arms = av@;
            &&& r is Ok ==> exists|sts: Seq<LinearChecker>, es: Seq<LinearChecker>|
                #[trigger] trace_pair(sts, es) && arms_trace(arms, ty, sts, es, arms.len() as int) && sts[0] == c1
                    && sts.last() == d
            &&& r is Err ==> exists|sts: Seq<LinearChecker>, es: Seq<LinearChecker>, j: int|
                #[trigger] trace_at(sts, es, j) && 0 <= j < arms.len() && arms_trace(arms, ty, sts, es, j) && sts[0]
                    == c1 && arm_refused(sts[j], arms[j], ty, d, r)
        },
        _ => true,
    }
}

/// Extends an arms trace by one accepted arm.
pub proof fn lemma_arms_push(
    arms: Seq<crate::ast::MatchArm>,
    ty: TypeV,
    states: Seq<LinearChecker>,
    ends: Seq<LinearChecker>,
    n: int,
    e: LinearChecker,
    next: LinearChecker,
)
    requires
        arms_trace(arms, ty, states, ends, n),
        n < arms.len(),
        arm_accepted(states[n], arms[n], ty, e),
        arm_restored(states[n], e, next),
    ensures
        arms_trace(arms, ty, states.push(next), ends.push(e), n + 1),
{
    reveal_with_fuel(arms_trace, 2);
    let s2 = states.push(next);
    let e2 = ends.push(e);
    assert(s2.drop_last() =~= states);
    assert(e2.drop_last() =~= ends);
    assert(s2[n] == states[n] && e2[n] == e && s2[n + 1] == next);
    assert(arm_accepted(s2[n], arms[n], ty, e2[n]));
    assert(arm_restored(s2[n], e2[n], s2[n + 1]));
}

/// The first `n` field values of a struct literal were checked in turn
/// through `states`, none of them a lens.
pub open spec fn fields_trace(fields: Seq<(String, Expr)>, states: Seq<LinearChecker>, n: int) -> bool
    decreases fields, 1nat, n,
{
    if n <= 0 {
        n == 0 && states.len() == 1
    } else {
        &&& n <= fields.len()
        &&& states.len() == n + 1
        &&& fields_trace(fields, states.drop_last(), n - 1)
        &&& crate::checker::lens::lens_in(states[n - 1].lens_aliases.view(), fields[n - 1].1) is None
        &&& expr_answer(states[n - 1], fields[n - 1].1, states[n], Ok(()))
    }
}

/// What checking a struct literal `e` from `c` answers: each field value
/// in turn, where a lens is refused and the first failure fails the whole.
pub open spec fn struct_answer(c: LinearChecker, e: Expr, d: LinearChecker, r: Result<(), String>) -> bool
    decreases e, 2nat, 0int,
{
    match e {
        Expr::StructInitialization { fields: fv, .. } => {
            let fields = fv@;
            &&& r is Ok ==> exists|sts: Seq<LinearChecker>, ms: Seq<LinearChecker>|
                #[trigger] trace_pair(sts, ms) && fields_trace(fields, sts, fields.len() as int) && sts[0] == c
                    && sts.last() == d
            &&& r matches Err(m) ==> exists|sts: Seq<LinearChecker>, ms: Seq<LinearChecker>, j: int|
                #[trigger] trace_at(sts, ms, j) && 0 <= j < fields.len() && fields_trace(fields, sts, j) && sts[0] == c
                    && match crate::checker::lens::lens_in(sts[j].lens_aliases.view(), fields[j].1) {
                    Some(n) => m@ == crate::checker::lens::lens_escape_msg(n) && d == sts[j],
                    None => expr_answer(sts[j], fields[j].1, d, r),
                }
        },
        _ => true,
    }
}

proof fn lemma_fields_push(fields: Seq<(String, Expr)>, states: Seq<LinearChecker>, n: int, next: LinearChecker)
    requires
        fields_trace(fields, states, n),
        n < fields.len(),
        crate::checker::lens::lens_in(states[n].lens_aliases.view(), fields[n].1) is None,
        expr_answer(states[n], fields[n].1, next, Ok(())),
    ensures
        fields_trace(fields, states.push(next), n + 1),
{
    reveal_with_fuel(fields_trace, 2);
    let s2 = states.push(next);
    assert(s2.drop_last() =~= states);
    assert(s2[n] == states[n] && s2[n + 1] == next);
    assert(expr_answer(s2[n], fields[n].1, s2[n + 1], Ok(())));
}

/// The length of a tuple type, or of the tuple a reference points to.
pub open spec fn tuple_len(t: Option<TypeV>) -> Option<nat> {
    match t {
        Some(TypeV::Tuple(ts)) => Some(ts.len()),
        Some(TypeV::Ref(inner)) => match *inner {
            TypeV::Tuple(ts) => Some(ts.len()),
            _ => None,
        },
        _ => None,
    }
}

/// The error for a tuple index past the tuple's end.
pub open spec fn tuple_index_text(i: nat, n: nat) -> Seq<char> {
    "Compile Error: Tuple index "@ + crate::text::decimal(i) + " out of bounds for tuple of length "@
        + crate::text::decimal(n)
}

/// What checking a macro call `e` (other than `@compile_error`) from `c`
/// answers: its arguments in turn, then its block, if any, statement by
/// statement; the first failure fails the call.
pub open spec fn macro_answer(c: LinearChecker, e: Expr, d: LinearChecker, r: Result<(), String>) -> bool
    decreases e, 2nat, 0int,
{
    match e {
        Expr::MacroCall { args: av, body, .. } => {
            let args = av@;
            &&& r is Ok ==> exists|s1: Seq<LinearChecker>, m1: Seq<LinearChecker>|
                #[trigger] trace_pair(s1, m1) && block_trace(args, false, s1, m1, args.len() as int) && s1[0] == c
                    && match body {
                    None => s1.last() == d,
                    Some(bv) => exists|s2: Seq<LinearChecker>, m2: Seq<LinearChecker>|
                        #[trigger] trace_pair(s2, m2) && block_trace(bv@, true, s2, m2, bv@.len() as int) && s2[0]
                            == s1.last() && s2.last() == d,
                }
            &&& r is Err ==> (exists|s1: Seq<LinearChecker>, m1: Seq<LinearChecker>, j: int|
                #[trigger] trace_at(s1, m1, j) && 0 <= j < args.len() && block_trace(args, false, s1, m1, j) && s1[0]
                    == c && expr_answer(s1[j], args[j], d, r)) || (exists|s1: Seq<LinearChecker>, m1: Seq<LinearChecker>|
                #[trigger] trace_pair(s1, m1) && block_trace(args, false, s1, m1, args.len() as int) && s1[0] == c
                    && match body {
                    None => false,
                    Some(bv) => exists|s2: Seq<LinearChecker>, m2: Seq<LinearChecker>, j: int|
                        #[trigger] trace_at(s2, m2, j) && 0 <= j < bv@.len() && block_trace(bv@, true, s2, m2, j)
                            && s2[0] == s1.last() && expr_answer(s2[j], bv@[j], d, r),
                })
        },
        _ => true,
    }
}

/// `m` is `s` with the variant `v` of the enum `name` declared: an `Active`
/// constant of the enum's type.
pub open spec fn variant_added(s: LinearChecker, name: Seq<char>, v: (String, Option<Expr>), m: LinearChecker) -> bool {
    let full = name + "::"@ + v.0@;
    &&& m.wf()
    &&& m.registry.view() == s.registry.view().insert(full, VariableState::Active)
    &&& m.types.view() == s.types.view().insert(full, TypeV::Custom(name))
    &&& m == (LinearChecker { registry: m.registry, types: m.types, ..s })
}

/// The first `n` variants of an enum were declared in turn through
/// `states`, each value (if any) checked after its variant is declared.
pub open spec fn enum_trace(
    name: Seq<char>,
    variants: Seq<(String, Option<Expr>)>,
    states: Seq<LinearChecker>,
    mids: Seq<LinearChecker>,
    n: int,
) -> bool
    decreases variants, 1nat, n,
{
    if n <= 0 {
        n == 0 && states.len() == 1 && mids.len() == 0
    } else {
        &&& n <= variants.len()
        &&& states.len() == n + 1
        &&& mids.len() == n
        &&& enum_trace(name, variants, states.drop_last(), mids.drop_last(), n - 1)
        &&& variant_added(states[n - 1], name, variants[n - 1], mids[n - 1])
        &&& match variants[n - 1].1 {
            Some(v) => expr_answer(mids[n - 1], v, states[n], Ok(())),
            None => states[n] == mids[n - 1],
        }
    }
}

/// What checking an enum definition `e` from `c` answers: each variant is
/// declared in turn and its value checked; the first value that fails
/// fails the definition.
pub open spec fn enum_answer(c: LinearChecker, e: Expr, d: LinearChecker, r: Result<(), String>) -> bool
    decreases e, 2nat, 0int,
{
    match e {
        Expr::EnumDef { name, variants: vv, .. } => {
            let vs = vv@;
            &&& r is Ok ==> exists|sts: Seq<LinearChecker>, ms: Seq<LinearChecker>|
                #[trigger] trace_pair(sts, ms) && enum_trace(name@, vs, sts, ms, vs.len() as int) && sts[0] == c
                    && sts.last() == d
            &&& r is Err ==> exists|sts: Seq<LinearChecker>, ms: Seq<LinearChecker>, j: int, m: LinearChecker|
                #![trigger trace_at(sts, ms, j), state_pair(m, d)]
                trace_at(sts, ms, j) && state_pair(m, d) && 0 <= j < vs.len() && enum_trace(name@, vs, sts, ms, j)
                    && sts[0] == c && variant_added(sts[j], name@, vs[j], m) && match vs[j].1 {
                    Some(v) => expr_answer(m, v, d, r),
                    None => false,
                }
        },
        _ => true,
    }
}

proof fn lemma_enum_push(
    name: Seq<char>,
    variants: Seq<(String, Option<Expr>)>,
    states: Seq<LinearChecker>,
    mids: Seq<LinearChecker>,
    n: int,
    m: LinearChecker,
    next: LinearChecker,
)
    requires
        enum_trace(name, variants, states, mids, n),
        n < variants.len(),
        variant_added(states[n], name, variants[n], m),
        match variants[n].1 {
            Some(v) => expr_answer(m, v, next, Ok(())),
            None => next == m,
        },
    ensures
        enum_trace(name, variants, states.push(next), mids.push(m), n + 1),
{
    reveal_with_fuel(enum_trace, 2);
    let s2 = states.push(next);
    let m2 = mids.push(m);
    assert(s2.drop_last() =~= states);
    assert(m2.drop_last() =~= mids);
    assert(s2[n] == states[n] && m2[n] == m && s2[n + 1] == next);
}

/// `cs` is where the body of a macro `name` with `params` and `ret`
/// starts, from `c`: the macro is known as a function, and the body sees
/// only its parameters.
pub open spec fn macro_start(
    c: LinearChecker,
    cs: LinearChecker,
    name: Seq<char>,
    params: Seq<(String, TrackType)>,
    ret: Option<TrackType>,
) -> bool {
    &&& follows(cs, c)
    &&& cs.mutables == c.mutables
    &&& cs.functions.view() == c.functions.view().insert(name, crate::ast::opt_type_v(ret))
    &&& cs.current_params.view() == param_names(params)
    &&& crate::ast::opt_type_v(cs.current_return_type) == crate::ast::opt_type_v(ret)
    &&& cs.borrows.view() == Map::<Seq<char>, Seq<Seq<char>>>::empty()
    &&& cs.lens_locked.view() == Set::<Seq<char>>::empty()
    &&& cs.lens_aliases.view() == Set::<Seq<char>>::empty()
    &&& forall|k: int|
        0 <= k < params.len() ==> cs.registry.view().contains_key((#[trigger] params[k]).0@)
            && cs.types.view().contains_key(params[k].0@)
}

/// What checking a macro definition `e` from `c` answers: its body is
/// checked statement by statement from `macro_start`; on success the scope
/// from before comes back.
pub open spec fn macro_def_answer(c: LinearChecker, e: Expr, d: LinearChecker, r: Result<(), String>) -> bool
    decreases e, 2nat, 0int,
{
    match e {
        Expr::MacroDef { name, params, return_type, body: bv } => {
            let body = bv@;
            &&& r is Ok ==> {
                &&& exists|cs: LinearChecker, sts: Seq<LinearChecker>, ms: Seq<LinearChecker>|
                    #![trigger state_pair(c, cs), trace_pair(sts, ms)]
                    state_pair(c, cs) && trace_pair(sts, ms) && macro_start(c, cs, name@, params@, return_type)
                        && block_trace(body, true, sts, ms, body.len() as int) && sts[0] == cs && d.functions
                        == sts.last().functions
                &&& d.registry.view() == c.registry.view()
                &&& d.types.view() == c.types.view()
                &&& d.borrows.view() == c.borrows.view()
                &&& d.lens_locked.view() == c.lens_locked.view()
                &&& d.lens_aliases.view() == c.lens_aliases.view()
                &&& d.current_params.view() == c.current_params.view()
            }
            &&& r is Err ==> exists|cs: LinearChecker, sts: Seq<LinearChecker>, ms: Seq<LinearChecker>, j: int|
                #![trigger state_pair(c, cs), trace_at(sts, ms, j)]
                state_pair(c, cs) && trace_at(sts, ms, j) && macro_start(c, cs, name@, params@, return_type) && 0
                    <= j < body.len() && block_trace(body, true, sts, ms, j) && sts[0] == cs && expr_answer(
                    sts[j],
                    body[j],
                    d,
                    r,
                )
        },
        _ => true,
    }
}

/// The variant `v` of the enum or union `name` is declared: one with a
/// payload as a constructor function, one without as an `Active` constant
/// of the type.
pub open spec fn variant_declared(c: LinearChecker, name: Seq<char>, v: (String, Option<TrackType>)) -> bool {
    let full = name + "::"@ + v.0@;
    if v.1 is Some {
        c.functions.view().contains_key(full)
    } else {
        &&& c.types.view().contains_key(full)
        &&& c.types.view()[full] == TypeV::Custom(name)
        &&& c.registry.view().contains_key(full)
        &&& c.registry.view()[full] == VariableState::Active
    }
}

/// Checking `program` from `c0` accepts it and ends in `c1`: after the
/// declarations are added, every statement is accepted in turn.
pub open spec fn accepts(c0: LinearChecker, program: Seq<Expr>, c1: LinearChecker) -> bool {
    exists|states: Seq<LinearChecker>, mids: Seq<LinearChecker>|
        #[trigger] block_trace(program, false, states, mids, program.len() as int) && prepared(c0, states[0])
            && states.last() == c1
}

/// `s0` is `c0` with the built-in functions (unless barebones) and the
/// program's declarations added: no variable's mutability, lens or borrow,
/// nor the function scope, changes.
pub open spec fn prepared(c0: LinearChecker, s0: LinearChecker) -> bool {
    &&& follows(s0, c0)
    &&& s0.mutables == c0.mutables
    &&& s0.lens_locked == c0.lens_locked
    &&& s0.lens_aliases == c0.lens_aliases
    &&& s0.borrows == c0.borrows
    &&& s0.current_params == c0.current_params
    &&& s0.current_return_type == c0.current_return_type
    &&& !c0.barebones ==> forall|k: int|
        0 <= k < crate::checker::builtins::builtin_entries().len() ==> s0.functions.view().contains_key(
            #[trigger] crate::checker::builtins::builtin_entries()[k].0,
        )
}

/// Checking `program` from `c0` refuses it with `m`, ending in `c1`: every
/// statement before one is accepted in turn, and that one is refused with
/// `m`.
pub open spec fn refuses(c0: LinearChecker, program: Seq<Expr>, c1: LinearChecker, m: String) -> bool {
    exists|states: Seq<LinearChecker>, mids: Seq<LinearChecker>, j: int|
        0 <= j < program.len() && #[trigger] block_trace(program, false, states, mids, j) && prepared(c0, states[0])
            && expr_answer(states[j], program[j], c1, Err(m))
}

/// Statement `k` of a block, checked from `states[k]`, gave `mids[k]` and
/// was accepted; with `settle`, lock states were then brought up to date,
/// giving `states[k + 1]`.
pub open spec fn step_in_block(
    body: Seq<Expr>,
    settle: bool,
    states: Seq<LinearChecker>,
    mids: Seq<LinearChecker>,
    k: int,
) -> bool
    decreases body, 0nat, 0int,
{
    &&& 0 <= k < body.len()
    &&& expr_answer(states[k], body[k], mids[k], Ok(()))
    &&& follows(mids[k], states[k])
    &&& if settle {
        &&& states[k + 1].wf()
        &&& states[k + 1].same_but_registry(&mids[k])
        &&& states[k + 1].registry.view() == mids[k].settled()
    } else {
        states[k + 1] == mids[k]
    }
}

/// The first `n` statements of a block were checked in turn, through the
/// states in `states`.
pub open spec fn block_trace(
    body: Seq<Expr>,
    settle: bool,
    states: Seq<LinearChecker>,
    mids: Seq<LinearChecker>,
    n: int,
) -> bool
    decreases body, 1nat, n,
{
    if n <= 0 {
        n == 0 && states.len() == 1 && mids.len() == 0
    } else {
        &&& n <= body.len()
        &&& states.len() == n + 1
        &&& mids.len() == n
        &&& block_trace(body, settle, states.drop_last(), mids.drop_last(), n - 1)
        &&& step_in_block(body, settle, states, mids, n - 1)
    }
}

/// Extends a block trace by one accepted statement.
pub proof fn lemma_block_trace_push(
    body: Seq<Expr>,
    settle: bool,
    states: Seq<LinearChecker>,
    mids: Seq<LinearChecker>,
    n: int,
    mid: LinearChecker,
    next: LinearChecker,
)
    requires
        block_trace(body, settle, states, mids, n),
        n < body.len(),
        expr_answer(states[n], body[n], mid, Ok(())),
        follows(mid, states[n]),
        if settle {
            &&& next.wf()
            &&& next.same_but_registry(&mid)
            &&& next.registry.view() == mid.settled()
        } else {
            next == mid
        },
    ensures
        block_trace(body, settle, states.push(next), mids.push(mid), n + 1),
{
    reveal_with_fuel(block_trace, 2);
    reveal_with_fuel(step_in_block, 2);
    let s2 = states.push(next);
    let m2 = mids.push(mid);
    assert(s2.drop_last() =~= states);
    assert(m2.drop_last() =~= mids);
    assert(s2[n] == states[n] && m2[n] == mid && s2[n + 1] == next);
    assert(step_in_block(body, settle, s2, m2, n));
}

impl LinearChecker {
    /// Checks each statement of `body` in order, bringing lock states up to
    /// date after each one where `settle` is set.
    fn check_block(&mut self, whole: &Expr, body: &Vec<Expr>, settle: bool) -> (r: Result<(), String>)
        requires
            old(self).wf(),
            crate::ast::decreases_into(*whole, body@),
        ensures
            follows(*final(self), *old(self)),
            r is Ok ==> exists|states: Seq<LinearChecker>, mids: Seq<LinearChecker>|
                #[trigger] block_trace(body@, settle, states, mids, body@.len() as int) && states[0] == *old(self)
                    && states.last() == *final(self),
            r is Err ==> exists|states: Seq<LinearChecker>, mids: Seq<LinearChecker>, j: int|
                0 <= j < body@.len() && #[trigger] block_trace(body@, settle, states, mids, j) && states[0] == *old(
                    self,
                ) && expr_answer(states[j], body@[j], *final(self), r),
        decreases 3 * old(self).unloaded() + 1, whole, 0nat,
    {
        let ghost start = *self;
        proof {
            start.lemma_unloaded();
        }
        let ghost mut states: Seq<LinearChecker> = seq![start];
        let ghost mut mids: Seq<LinearChecker> = Seq::empty();
        let mut i: usize = 0;
        while i < body.len()
            invariant
                start == *old(self),
                start.wf(),
                follows(*self, start),
                crate::ast::decreases_into(*whole, body@),
                i <= body.len(),
                block_trace(body@, settle, states, mids, i as int),
                states[0] == start,
                states.last() == *self,
            decreases body.len() - i,
        {
            proof {
                lemma_follows(*self, start);
                crate::ast::lemma_decreases_into(*whole, body@, i as int);
            }
            let ghost before = *self;
            let res = self.check_expr(&body[i]);
            if res.is_err() {
                proof {
                    lemma_follows_trans(start, before, *self);
                    assert(block_trace(body@, settle, states, mids, i as int));
                }
                return res;
            }
            let ghost mid = *self;
            if settle {
                self.update_borrow_states();
            }
            proof {
                lemma_follows_trans(start, before, *self);
                assert(res->Ok_0 == ());
                assert(res == Ok::<(), String>(()));
                assert(states.len() == i + 1);
                assert(states[i as int] == before);
                lemma_block_trace_push(body@, settle, states, mids, i as int, mid, *self);
                states = states.push(*self);
                mids = mids.push(mid);
            }
            i += 1;
        }
        Ok(())
    }

    /// Checks an expression without consuming it: a variable is borrowed,
    /// anything else is checked as usual.
    fn check_borrow(&mut self, expr: &Expr) -> (r: Result<(), String>)
        requires
            old(self).wf(),
        ensures
            follows(*final(self), *old(self)),
            (*expr) is Variable ==> *final(self) == *old(self) && match (
                r,
                crate::checker::borrow_result(old(self).registry.view(), old(self).lens_locked.view(), (*expr)->Variable_0@),
            ) {
                (Ok(_), Ok(_)) => true,
                (Err(m), Err(e)) => m@ == e,
                _ => false,
            },
            borrow_answer(*old(self), *expr, *final(self), r),
        decreases 3 * old(self).unloaded() + 1, expr, 3nat,
    {
        match expr {
            Expr::Variable(name) => self.borrow_var(name.as_str()),
            _ => self.check_expr(expr),
        }
    }

    /// Refuses a returned reference into anything but the parameters.
    fn check_escape(&self, prov: &Vec<String>) -> (r: Result<(), String>)
        requires
            self.wf(),
        ensures
            r is Ok <==> forall|j: int|
                0 <= j < prov@.len() ==> self.current_params.view().contains(#[trigger] prov@[j]@),
            r matches Err(m) ==> m@ == escape_text(
                crate::checker::prov::names_view(prov@)[first_outside(
                    crate::checker::prov::names_view(prov@),
                    self.current_params.view(),
                    0,
                )],
            ),
    {
        let ghost nv = crate::checker::prov::names_view(prov@);
        let ghost cp = self.current_params.view();
        let mut i: usize = 0;
        while i < prov.len()
            invariant
                self.wf(),
                i <= prov.len(),
                nv == crate::checker::prov::names_view(prov@),
                cp == self.current_params.view(),
                forall|j: int| 0 <= j < i ==> self.current_params.view().contains(#[trigger] prov@[j]@),
                first_outside(nv, cp, 0) == first_outside(nv, cp, i as int),
            decreases prov.len() - i,
        {
            if !self.current_params.contains(prov[i].as_str()) {
                proof {
                    assert(nv[i as int] == prov@[i as int]@);
                }
                return Err(
                    quote(
                        "Compile Error: Cannot return reference to local variable '",
                        prov[i].as_str(),
                        "' (escapes function scope).",
                    ),
                );
            }
            proof {
                assert(nv[i as int] == prov@[i as int]@);
            }
            i += 1;
        }
        Ok(())
    }

    /// Adds the variants of an enum or union: payload-free variants become
    /// copy constants of the type, union variants with a payload become
    /// constructor functions.
    fn declare_variants_union(&mut self, name: &String, variants: &Vec<(String, Option<TrackType>)>)
        requires
            old(self).wf(),
        ensures
            follows(*final(self), *old(self)),
            final(self).loaded_modules == old(self).loaded_modules,
            final(self).type_aliases == old(self).type_aliases,
            forall|k: int| 0 <= k < variants@.len() ==> #[trigger] variant_declared(*final(self), name@, variants@[k]),
            final(self).mutables == old(self).mutables,
            final(self).lens_locked == old(self).lens_locked,
            final(self).lens_aliases == old(self).lens_aliases,
            final(self).borrows == old(self).borrows,
            final(self).current_params == old(self).current_params,
            final(self).current_return_type == old(self).current_return_type,
    {
        let mut i: usize = 0;
        while i < variants.len()
            invariant
                self.mutables == old(self).mutables,
                self.lens_locked == old(self).lens_locked,
                self.lens_aliases == old(self).lens_aliases,
                self.borrows == old(self).borrows,
                self.current_params == old(self).current_params,
                self.current_return_type == old(self).current_return_type,
                self.wf(),
                follows(*self, *old(self)),
                self.loaded_modules == old(self).loaded_modules,
                self.type_aliases == old(self).type_aliases,
                i <= variants.len(),
                self.modules == old(self).modules,
                self.loaded_modules == old(self).loaded_modules,
                forall|k: int| 0 <= k < i ==> #[trigger] variant_declared(*self, name@, variants@[k]),
            decreases variants.len() - i,
        {
            let ghost prev = *self;
            let fullname = qualified_name(name, &variants[i].0);
            if variants[i].1.is_some() {
                self.functions.insert(fullname, Some(TrackType::Custom(name.clone())));
            } else {
                self.types.insert(fullname.clone(), TrackType::Custom(name.clone()));
                self.declare(fullname);
            }
            proof {
                assert forall|k: int| 0 <= k < i + 1 implies #[trigger] variant_declared(*self, name@, variants@[k]) by {
                    if k < i {
                        assert(variant_declared(prev, name@, variants@[k]));
                    }
                }
            }
            i += 1;
        }
    }

    /// Adds the declarations of a program's top level before any statement is
    /// checked: type aliases, enum and union variants, and the signatures of
    /// non-generic functions.
    fn predeclare(&mut self, program: &[Expr])
        requires
            old(self).wf(),
        ensures
            follows(*final(self), *old(self)),
            final(self).loaded_modules == old(self).loaded_modules,
            final(self).mutables == old(self).mutables,
            final(self).lens_locked == old(self).lens_locked,
            final(self).lens_aliases == old(self).lens_aliases,
            final(self).borrows == old(self).borrows,
            final(self).current_params == old(self).current_params,
            final(self).current_return_type == old(self).current_return_type,
            forall|i: int|
                0 <= i < program@.len() ==> match #[trigger] program@[i] {
                    Expr::FnDef { name, generics, .. } => generics@.len() == 0 ==> final(self).functions.view().contains_key(name@),
                    Expr::TypeAlias { name, .. } => final(self).type_aliases.view().contains_key(name@),
                    _ => true,
                },
            program@.len() == 0 ==> *final(self) == *old(self),
    {
        let mut i: usize = 0;
        while i < program.len()
            invariant
                self.mutables == old(self).mutables,
                self.lens_locked == old(self).lens_locked,
                self.lens_aliases == old(self).lens_aliases,
                self.borrows == old(self).borrows,
                self.current_params == old(self).current_params,
                self.current_return_type == old(self).current_return_type,
                self.wf(),
                follows(*self, *old(self)),
                self.loaded_modules == old(self).loaded_modules,
                i <= program.len(),
                i == 0 ==> *self == *old(self),
                forall|k: int|
                    0 <= k < i ==> match #[trigger] program@[k] {
                        Expr::FnDef { name, generics, .. } => generics@.len() == 0 ==> self.functions.view().contains_key(name@),
                        Expr::TypeAlias { name, .. } => self.type_aliases.view().contains_key(name@),
                        _ => true,
                    },
            decreases program.len() - i,
        {
            let ghost before = *self;
            match &program[i] {
                Expr::TypeAlias { name, target } => {
                    self.type_aliases.insert(name.clone(), target.copy());
                },
                Expr::EnumDef { name, variants, .. } => {
                    let mut k: usize = 0;
                    while k < variants.len()
                        invariant
                            self.mutables == before.mutables,
                            self.lens_locked == before.lens_locked,
                            self.lens_aliases == before.lens_aliases,
                            self.borrows == before.borrows,
                            self.current_params == before.current_params,
                            self.current_return_type == before.current_return_type,
                            self.wf(),
                            follows(*self, before),
                            self.loaded_modules == before.loaded_modules,
                            self.functions == before.functions,
                            self.type_aliases == before.type_aliases,
                            k <= variants.len(),
                        decreases variants.len() - k,
                    {
                        let fullname = qualified_name(name, &variants[k].0);
                        self.types.insert(fullname.clone(), TrackType::Custom(name.clone()));
                        self.declare(fullname);
                        k += 1;
                    }
                },
                Expr::UnionDef { name, variants } => {
                    self.unions.insert(name.clone(), variants.deep_copy());
                    let ghost mid = *self;
                    self.declare_variants_union(name, variants);
                    proof {
                        lemma_follows_trans(before, mid, *self);
                    }
                },
                Expr::FnDef { name, generics, return_type, .. } => {
                    if generics.len() == 0 {
                        let rt = match return_type {
                            Some(t) => Some(t.copy()),
                            None => None,
                        };
                        self.functions.insert(name.clone(), rt);
                    }
                },
                _ => {},
            }
            proof {
                lemma_follows_trans(*old(self), before, *self);
                assert forall|k: int|
                    0 <= k < i + 1 implies match #[trigger] program@[k] {
                        Expr::FnDef { name, generics, .. } => generics@.len() == 0 ==> self.functions.view().contains_key(name@),
                        Expr::TypeAlias { name, .. } => self.type_aliases.view().contains_key(name@),
                        _ => true,
                    } by {
                    if k < i {
                        match program@[k] {
                            Expr::FnDef { name, generics, .. } => {
                                if generics@.len() == 0 {
                                    assert(before.functions.view().contains_key(name@));
                                }
                            },
                            Expr::TypeAlias { name, .. } => {
                                assert(before.type_aliases.view().contains_key(name@));
                            },
                            _ => {},
                        }
                    }
                }
            }
            i += 1;
        }
    }

    /// Checks a whole program: adds the built-in functions (unless the
    /// checker is barebones) and the top-level declarations, then checks each
    /// statement in order, stopping at the first error.
    pub fn check_program(&mut self, program: &[Expr]) -> (r: Result<(), String>)
        requires
            old(self).wf(),
        ensures
            follows(*final(self), *old(self)),
            !old(self).barebones ==> forall|k: int|
                0 <= k < crate::checker::builtins::builtin_entries().len() ==> final(self).functions.view().contains_key(
                    #[trigger] crate::checker::builtins::builtin_entries()[k].0,
                ),
            forall|i: int|
                0 <= i < program@.len() ==> match #[trigger] program@[i] {
                    Expr::FnDef { name, generics, .. } => generics@.len() == 0 ==> final(self).functions.view().contains_key(name@),
                    Expr::TypeAlias { name, .. } => final(self).type_aliases.view().contains_key(name@),
                    _ => true,
                },
            program@.len() == 0 ==> r is Ok && final(self).functions.view() == (if old(self).barebones {
                old(self).functions.view()
            } else {
                crate::checker::builtins::insert_all(old(self).functions.view(), crate::checker::builtins::builtin_entries())
            }),
            r is Ok ==> accepts(*old(self), program@, *final(self)),
            r matches Err(m) ==> refuses(*old(self), program@, *final(self), m),
        decreases 3 * old(self).unloaded() + 2, Expr::IntLiteral(0), 0nat,
    {
        let ghost start = *self;
        proof {
            start.lemma_unloaded();
        }
        if !self.barebones {
            let b = builtin_functions();
            self.add_functions(&b);
            proof {
                crate::checker::builtins::lemma_insert_all_dom(start.functions.view(), crate::checker::builtins::builtin_entries());
            }
        }
        let ghost after_builtins = *self;
        self.predeclare(program);
        let ghost declared = *self;
        proof {
            lemma_follows_trans(start, after_builtins, declared);
            assert(prepared(start, declared));
        }
        let ghost mut states: Seq<LinearChecker> = seq![declared];
        let ghost mut mids: Seq<LinearChecker> = Seq::empty();
        let mut i: usize = 0;
        while i < program.len()
            invariant
                block_trace(program@, false, states, mids, i as int),
                states[0] == declared,
                prepared(*old(self), declared),
                states.last() == *self,
                start == *old(self),
                start.wf(),
                follows(*self, declared),
                follows(declared, start),
                !start.barebones ==> forall|k: int|
                    0 <= k < crate::checker::builtins::builtin_entries().len() ==> declared.functions.view().contains_key(
                        #[trigger] crate::checker::builtins::builtin_entries()[k].0,
                    ),
                forall|k: int|
                    0 <= k < program@.len() ==> match #[trigger] program@[k] {
                        Expr::FnDef { name, generics, .. } => generics@.len() == 0 ==> declared.functions.view().contains_key(name@),
                        Expr::TypeAlias { name, .. } => declared.type_aliases.view().contains_key(name@),
                        _ => true,
                    },
                i <= program.len(),
            decreases program.len() - i,
        {
            proof {
                lemma_follows_trans(start, declared, *self);
                lemma_follows(*self, start);
            }
            let ghost before = *self;
            let stmt = &program[i];
            proof {
                assert(*stmt == program@[i as int]);
            }
            let res = self.check_expr(stmt);
            if res.is_err() {
                proof {
                    lemma_follows_trans(declared, before, *self);
                    assert(block_trace(program@, false, states, mids, i as int));
                }
                return res;
            }
            proof {
                lemma_follows_trans(declared, before, *self);
                assert(res->Ok_0 == ());
                assert(res == Ok::<(), String>(()));
                assert(states.len() == i + 1);
                assert(states[i as int] == before);
                lemma_block_trace_push(program@, false, states, mids, i as int, *self, *self);
                states = states.push(*self);
                mids = mids.push(*self);
            }
            i += 1;
        }
        proof {
            lemma_follows_trans(start, declared, *self);
            assert(block_trace(program@, false, states, mids, program@.len() as int));
        }
        Ok(())
    }

    /// Loads a local module: each known module is checked once, into this
    /// checker, so that its declarations become visible to the importer.
    fn load_module(&mut self, cand: String) -> (r: Result<(), String>)
        requires
            old(self).wf(),
            old(self).modules.view().contains_key(cand@),
        ensures
            follows(*final(self), *old(self)),
            old(self).loaded_modules.view().contains(cand@) ==> r is Ok && *final(self) == *old(self),
            final(self).loaded_modules.view().contains(cand@),
            !old(self).loaded_modules.view().contains(cand@) ==> match crate::lexer::spec_tokenize(
                old(self).modules.view()[cand@],
            ) {
                Err((a, b)) => r is Err && r->Err_0@ == "Lexer error in '"@ + cand@ + "': "@
                    + crate::lexer::lex_error_message(old(self).modules.view()[cand@], a, b),
                Ok(_) => true,
            },
        decreases 3 * old(self).unloaded(), Expr::IntLiteral(0), 0nat,
    {
        proof {
            self.lemma_unloaded();
        }
        if self.loaded_modules.contains(cand.as_str()) {
            return Ok(());
        }
        let ghost before = *self;
        self.loaded_modules.insert(cand.clone());
        proof {
            self.lemma_unloaded();
            before.lemma_unloaded();
            assert(self.loaded_modules.view().len() == before.loaded_modules.view().len() + 1);
            assert(self.unloaded() == before.unloaded() - 1);
        }
        let src = match self.modules.get(cand.as_str()) {
            Some(s) => s.clone(),
            None => String::new(),
        };
        let tokens = match Lexer::tokenize(src.as_str()) {
            Ok(t) => t,
            Err(e) => {
                return Err(wrap_error("Lexer error in '", &cand, &e));
            },
        };
        let mut p = Parser::new(tokens, src);
        let mut prog = match p.parse_program() {
            Ok(prog) => prog,
            Err(e) => {
                return Err(wrap_error("Parse error in '", &cand, &e));
            },
        };
        match crate::mono::monomorphize(&mut prog) {
            Ok(()) => {},
            Err(e) => {
                return Err(wrap_error("Monomorphize error in '", &cand, &e));
            },
        }
        let ghost mid = *self;
        let res = self.check_program(prog.as_slice());
        proof {
            lemma_follows_trans(before, mid, *self);
        }
        res
    }

    /// Checks a non-generic function definition: its body in a scope of its
    /// own, then the escape of a reference returned by its last value.
    fn check_fn(&mut self, expr: &Expr) -> (r: Result<(), String>)
        requires
            old(self).wf(),
            (*expr) is FnDef,
            (*expr)->FnDef_generics@.len() == 0,
        ensures
            follows(*final(self), *old(self)),
            fn_answer(*old(self), *expr, *final(self), r),
        decreases 3 * old(self).unloaded() + 1, expr, 1nat,
    {
        let ghost start = *self;
        proof {
            start.lemma_unloaded();
        }
        let (params, body, return_type) = match expr {
            Expr::FnDef { params, body, return_type, .. } => (params, body, return_type),
            _ => {
                return Ok(());
            },
        };
        let saved_registry = self.registry.deep_copy();
        let saved_types = self.types.deep_copy();
        let saved_borrows = self.borrows.take();
        let saved_lens = self.lens_locked.take();
        let saved_lens_aliases = self.lens_aliases.take();
        let saved_params = self.current_params.take();
        let saved_ret = match &self.current_return_type {
            Some(t) => Some(t.copy()),
            None => None,
        };
        self.current_params = names_of_params(params);
        self.current_return_type = match return_type {
            Some(t) => Some(t.copy()),
            None => None,
        };
        let mut k: usize = 0;
        while k < params.len()
            invariant
                self.mutables == start.mutables,
                self.functions == start.functions,
                self.unions == start.unions,
                self.type_aliases == start.type_aliases,
                start == *old(self),
                start.wf(),
                follows(*self, start),
                k <= params.len(),
                self.current_params.view() == param_names(params@),
                crate::ast::opt_type_v(self.current_return_type) == crate::ast::opt_type_v(*return_type),
                self.borrows.view() == Map::<Seq<char>, Seq<Seq<char>>>::empty(),
                self.lens_locked.view() == Set::<Seq<char>>::empty(),
                self.lens_aliases.view() == Set::<Seq<char>>::empty(),
                forall|k2: int|
                    0 <= k2 < k ==> self.registry.view().contains_key((#[trigger] params@[k2]).0@)
                        && self.types.view().contains_key(params@[k2].0@),
            decreases params.len() - k,
        {
            let ghost m0 = *self;
            self.declare(params[k].0.clone());
            self.types.insert(params[k].0.clone(), params[k].1.copy());
            proof {
                lemma_follows_trans(start, m0, *self);
            }
            k += 1;
        }
        let ghost before_settle = *self;
        self.update_borrow_states();
        proof {
            lemma_follows(*self, start);
            crate::ast::lemma_vec_field(*expr, *body);
            self.registry.lemma_keys();
            before_settle.registry.lemma_keys();
            assert(self.registry.view().dom() =~= before_settle.registry.view().dom());
        }
        let ghost cs = *self;
        proof {
            assert(fn_start(start, cs, params@, *return_type));
            assert(state_pair(start, cs));
        }
        let rb = self.check_block(expr, body, true);
        if rb.is_err() {
            proof {
                lemma_follows_trans(start, cs, *self);
                let (sts, ms, j) = choose|states: Seq<LinearChecker>, mids: Seq<LinearChecker>, j: int|
                    0 <= j < body@.len() && #[trigger] block_trace(body@, true, states, mids, j) && states[0] == cs
                        && expr_answer(states[j], body@[j], *self, rb);
                assert(trace_at(sts, ms, j));
                assert(fn_answer(start, *expr, *self, rb));
            }
            return rb;
        }
        let ghost ce = *self;
        let ghost (sts, ms) = choose|states: Seq<LinearChecker>, mids: Seq<LinearChecker>|
            #[trigger] block_trace(body@, true, states, mids, body@.len() as int) && states[0] == cs
                && states.last() == ce;
        proof {
            lemma_follows_trans(start, cs, *self);
            assert(trace_pair(sts, ms));
        }
        let ret_is_ref = match return_type {
            Some(TrackType::Ref(_)) => true,
            _ => false,
        };
        if ret_is_ref {
            let mut has_explicit_return = false;
            let mut j: usize = 0;
            while j < body.len()
                invariant
                    j <= body.len(),
                    has_explicit_return == exists|j2: int| 0 <= j2 < j && (#[trigger] body@[j2]) is Return,
                decreases body.len() - j,
            {
                match &body[j] {
                    Expr::Return { .. } => {
                        has_explicit_return = true;
                    },
                    _ => {},
                }
                j += 1;
            }
            proof {
                assert(tail_returned(*return_type, body@) == (!has_explicit_return && body@.len() > 0));
            }
            if !has_explicit_return && body.len() > 0 {
                let last = &body[body.len() - 1];
                proof {
                    assert(*last == body@.last());
                }
                let prov = self.get_provenance(last);
                let esc = self.check_escape(&prov);
                proof {
                    let nv = crate::checker::prov::names_view(prov@);
                    let cp = self.current_params.view();
                    if escapes_nothing(*self, *last) {
                        assert forall|j: int| 0 <= j < prov@.len() implies cp.contains(#[trigger] prov@[j]@) by {
                            assert(nv[j] == prov@[j]@);
                        }
                    }
                    if forall|j: int| 0 <= j < prov@.len() ==> cp.contains(#[trigger] prov@[j]@) {
                        assert forall|j: int| 0 <= j < nv.len() implies cp.contains(#[trigger] nv[j]) by {
                            assert(nv[j] == prov@[j]@);
                        }
                    }
                }
                if esc.is_err() {
                    proof {
                        assert(!escapes_nothing(ce, body@.last()));
                        assert(fn_answer(start, *expr, *self, esc));
                    }
                    return esc;
                }
            }
        } else {
            proof {
                assert(!tail_returned(*return_type, body@));
            }
        }
        self.registry = saved_registry;
        self.types = saved_types;
        self.borrows = saved_borrows;
        self.lens_locked = saved_lens;
        self.lens_aliases = saved_lens_aliases;
        self.current_params = saved_params;
        self.current_return_type = saved_ret;
        proof {
            assert(fn_answer(start, *expr, *self, Ok(())));
        }
        Ok(())
    }

    /// Checks a `let` of a name.
    fn check_let(&mut self, expr: &Expr) -> (r: Result<(), String>)
        requires
            old(self).wf(),
            (*expr) is LetDef,
        ensures
            follows(*final(self), *old(self)),
            expr_answer(*old(self), *expr, *final(self), r),
        decreases 3 * old(self).unloaded() + 1, expr, 1nat,
    {
        let ghost start = *self;
        proof {
            start.lemma_unloaded();
        }
        let (name, mutable, ty, value) = match expr {
            Expr::LetDef { name, mutable, ty, value } => (name, mutable, ty, value),
            _ => {
                return Ok(());
            },
        };
        let re = self.reject_lens_escape(value);
        if re.is_err() {
            return re;
        }
        let rc = self.check_expr(value);
        if rc.is_err() {
            return rc;
        }
        let ghost c1 = *self;
        proof {
            assert(rc->Ok_0 == ());
            assert(rc == Ok::<(), String>(()));
        }
        let inferred = self.infer_type(value);
        let final_ty = match ty {
            Some(annotated) => annotated.copy(),
            None => match inferred {
                Some(t) => t,
                None => TrackType::Void,
            },
        };
        let ghost mid = *self;
        proof {
            assert(final_ty@ == let_type(c1, *ty, **value));
        }
        self.declare(name.clone());
        if *mutable {
            self.mutables.insert(name.clone());
        }
        let is_ref = match &final_ty {
            TrackType::Ref(_) => true,
            _ => false,
        };
        proof {
            assert(is_ref == (let_type(c1, *ty, **value) is Ref));
        }
        self.types.insert(name.clone(), final_ty);
        let ghost tys = self.types.view();
        proof {
            assert(self.borrows.view() == c1.borrows.view());
        }
        if is_ref {
            let prov = self.get_provenance(value);
            proof {
                assert(prov.deep_view() =~= crate::checker::prov::names_view(prov@));
            }
            self.borrows.insert(name.clone(), prov);
            proof {
                assert(self.borrows.view() == c1.borrows.view().insert(
                    name@,
                    crate::checker::prov::prov(tys, c1.functions.view(), c1.borrows.view(), **value),
                ));
            }
        }
        let ghost pre_settle = *self;
        self.update_borrow_states();
        proof {
            lemma_follows_trans(start, mid, *self);
            assert(follows(c1, start));
            assert(same_frame(*self, c1));
            assert(self.types.view() == c1.types.view().insert(name@, let_type(c1, *ty, **value)));
            assert(self.mutables.view() == (if *mutable {
                c1.mutables.view().insert(name@)
            } else {
                c1.mutables.view()
            }));
            assert(self.borrows.view() == (if let_type(c1, *ty, **value) is Ref {
                c1.borrows.view().insert(
                    name@,
                    crate::checker::prov::prov(self.types.view(), c1.functions.view(), c1.borrows.view(), **value),
                )
            } else {
                c1.borrows.view()
            }));
            assert(self.registry.view() == crate::checker::settle(
                c1.registry.view().insert(name@, VariableState::Active),
                self.borrows.view(),
                c1.lens_locked.view(),
            ));
        }
        Ok(())
    }

    /// Checks an assignment.
    fn check_assign(&mut self, expr: &Expr) -> (r: Result<(), String>)
        requires
            old(self).wf(),
            (*expr) is Assign,
        ensures
            follows(*final(self), *old(self)),
            expr_answer(*old(self), *expr, *final(self), r),
        decreases 3 * old(self).unloaded() + 1, expr, 1nat,
    {
        let ghost start = *self;
        proof {
            start.lemma_unloaded();
        }
        let (target, value) = match expr {
            Expr::Assign { target, value } => (target, value),
            _ => {
                return Ok(());
            },
        };
        let re = self.reject_lens_escape(value);
        if re.is_err() {
            return re;
        }
        let rc = self.check_expr(value);
        if rc.is_err() {
            return rc;
        }
        proof {
            assert(rc->Ok_0 == ());
            assert(rc == Ok::<(), String>(()));
        }
        let ghost mid = *self;
        let ghost c1 = *self;
        proof {
            assert(expr_answer(start, **value, c1, Ok(())));
            assert(follows(c1, start));
        }
        match &**target {
            Expr::Variable(name) => {
                if !self.mutables.contains(name.as_str()) && self.registry.contains_key(name.as_str()) {
                    let mut m = string_of("Compile Error: Cannot mutate immutable variable '");
                    push_string(&mut m, name);
                    push_str(&mut m, "'. Use 'let mut ");
                    push_string(&mut m, name);
                    push_str(&mut m, "' to declare a mutable variable.");
                    proof {
                        assert(m@ == immutable_text(name@));
                    }
                    return Err(m);
                }
                self.registry.insert(name.clone(), VariableState::Active);
                match self.infer_type(value) {
                    Some(ty) => {
                        let is_ref = match &ty {
                            TrackType::Ref(_) => true,
                            _ => false,
                        };
                        let ghost t = ty@;
                        self.types.insert(name.clone(), ty);
                        if is_ref {
                            let prov = self.get_provenance(value);
                            self.borrows.insert(name.clone(), prov);
                        } else {
                            self.borrows.remove(name.as_str());
                        }
                    },
                    None => {},
                }
            },
            _ => {},
        }
        let ghost pre = *self;
        self.update_borrow_states();
        proof {
            lemma_follows_trans(start, mid, *self);
            assert(same_frame(*self, c1));
            assert(follows(c1, start));
            assert(self.borrows == pre.borrows);
            assert(self.types == pre.types);
            match &**target {
                Expr::Variable(n) => {
                    assert(!(!c1.mutables.view().contains(n@) && c1.registry.view().contains_key(n@)));
                    assert(pre.registry.view() == c1.registry.view().insert(n@, VariableState::Active));
                    assert(self.registry.view() == crate::checker::settle(
                        c1.registry.view().insert(n@, VariableState::Active),
                        self.borrows.view(),
                        c1.lens_locked.view(),
                    ));
                    assert(self.mutables == c1.mutables);
                },
                _ => {
                    assert(self.registry.view() == c1.settled());
                    assert(self.types == c1.types && self.borrows == c1.borrows && self.mutables == c1.mutables);
                },
            }
        }
        Ok(())
    }

    /// Checks a match: its target, then each arm in a scope of its own.
    fn check_match(&mut self, expr: &Expr) -> (r: Result<(), String>)
        requires
            old(self).wf(),
            (*expr) is Match,
        ensures
            follows(*final(self), *old(self)),
            expr_answer(*old(self), *expr, *final(self), r),
        decreases 3 * old(self).unloaded() + 1, expr, 1nat,
    {
        let ghost start = *self;
        proof {
            start.lemma_unloaded();
            broadcast use vstd::std_specs::vec::axiom_vec_decreases_to_view;
        }
        let (target, arms) = match expr {
            Expr::Match { target, arms } => (target, arms),
            _ => {
                return Ok(());
            },
        };
        let rc = self.check_expr(target);
        if rc.is_err() {
            return rc;
        }
        let ghost c1 = *self;
        proof {
            assert(rc->Ok_0 == ());
            assert(rc == Ok::<(), String>(()));
            assert(expr_answer(start, **target, c1, Ok(())));
            assert(follows(c1, start));
        }
        let target_ty = match self.infer_type(target) {
            Some(t) => t,
            None => TrackType::I32,
        };
        let ghost ty = target_ty@;
        proof {
            assert(ty == match_type(c1, **target));
        }
        let ghost mut sts: Seq<LinearChecker> = seq![c1];
        let ghost mut es: Seq<LinearChecker> = Seq::empty();
        let mut i: usize = 0;
        while i < arms.len()
            invariant
                start == *old(self),
                start.wf(),
                follows(*self, start),
                follows(c1, start),
                expr_answer(start, **target, c1, Ok(())),
                ty == match_type(c1, **target),
                ty == target_ty@,
                (*expr) is Match,
                (*expr)->Match_arms == *arms,
                (*expr)->Match_target == *target,
                i <= arms.len(),
                arms_trace(arms@, ty, sts, es, i as int),
                sts[0] == c1,
                sts.last() == *self,
            decreases arms.len() - i,
        {
            proof {
                lemma_follows(*self, start);
                assert(decreases_to!(*expr => (*expr)->Match_arms));
                assert(decreases_to!(*arms => arms@));
                assert(decreases_to!(arms@ => arms@[i as int]));
                assert(decreases_to!(arms@[i as int] => arms@[i as int].body));
                reveal_with_fuel(arms_trace, 1);
                assert(sts.len() == i + 1);
            }
            let ghost sk = *self;
            let saved_registry = self.registry.deep_copy();
            let saved_types = self.types.deep_copy();
            let saved_borrows = self.borrows.deep_copy();
            let saved_lens = self.lens_locked.copy();
            let saved_lens_aliases = self.lens_aliases.copy();
            let _ = self.bind_pattern_variables(&arms[i].pattern, &target_ty, false);
            let ghost b = *self;
            proof {
                lemma_follows(*self, start);
            }
            match &arms[i].guard {
                Some(g) => {
                    proof {
                        assert(decreases_to!(arms@[i as int] => arms@[i as int].guard));
                        assert(decreases_to!(arms@[i as int].guard => *g));
                    }
                    let rg = self.check_expr(g);
                    if rg.is_err() {
                        proof {
                            lemma_follows_trans(start, b, *self);
                            assert(state_pair(b, b));
                            assert(arm_refused(sk, arms@[i as int], ty, *self, rg));
                            assert(trace_at(sts, es, i as int));
                            assert(match_answer(c1, *expr, ty, *self, rg));
                            assert(expr_answer(start, **target, c1, Ok(())) && follows(c1, start) && match_answer(
                                c1,
                                *expr,
                                match_type(c1, **target),
                                *self,
                                rg,
                            ));
                            assert(expr_answer(start, *expr, *self, rg));
                        }
                        return rg;
                    }
                    proof {
                        assert(rg->Ok_0 == ());
                        assert(rg == Ok::<(), String>(()));
                        lemma_follows_trans(start, b, *self);
                        lemma_follows(*self, start);
                    }
                },
                None => {},
            }
            let ghost gs = *self;
            let rb = self.check_expr(&arms[i].body);
            if rb.is_err() {
                proof {
                    lemma_follows_trans(start, gs, *self);
                    assert(state_pair(b, gs));
                    assert(arm_refused(sk, arms@[i as int], ty, *self, rb));
                    assert(trace_at(sts, es, i as int));
                    assert(match_answer(c1, *expr, ty, *self, rb));
                }
                return rb;
            }
            let ghost e = *self;
            proof {
                assert(rb->Ok_0 == ());
                assert(rb == Ok::<(), String>(()));
                lemma_follows_trans(start, gs, *self);
            }
            self.registry = saved_registry;
            self.types = saved_types;
            self.borrows = saved_borrows;
            self.lens_locked = saved_lens;
            self.lens_aliases = saved_lens_aliases;
            proof {
                assert(state_pair(b, gs));
                assert(arm_accepted(sk, arms@[i as int], ty, e));
                assert(arm_restored(sk, e, *self));
                lemma_arms_push(arms@, ty, sts, es, i as int, e, *self);
                sts = sts.push(*self);
                es = es.push(e);
            }
            i += 1;
        }
        proof {
            assert(trace_pair(sts, es));
            assert(match_answer(c1, *expr, ty, *self, Ok(())));
        }
        Ok(())
    }

    /// Checks a macro definition: its body in a scope of its own parameters.
    fn check_macro_def(&mut self, expr: &Expr) -> (r: Result<(), String>)
        requires
            old(self).wf(),
            (*expr) is MacroDef,
        ensures
            follows(*final(self), *old(self)),
            expr_answer(*old(self), *expr, *final(self), r),
        decreases 3 * old(self).unloaded() + 1, expr, 1nat,
    {
        let ghost start = *self;
        proof {
            start.lemma_unloaded();
        }
        let (name, params, return_type, body) = match expr {
            Expr::MacroDef { name, params, return_type, body } => (name, params, return_type, body),
            _ => {
                return Ok(());
            },
        };
        let rt = match return_type {
            Some(t) => Some(t.copy()),
            None => None,
        };
        self.functions.insert(name.clone(), rt);
        let saved_registry = self.registry.take();
        let saved_types = self.types.take();
        let saved_borrows = self.borrows.take();
        let saved_lens = self.lens_locked.take();
        let saved_lens_aliases = self.lens_aliases.take();
        let saved_params = self.current_params.take();
        let saved_ret = match &self.current_return_type {
            Some(t) => Some(t.copy()),
            None => None,
        };
        self.current_params = names_of_params(params);
        self.current_return_type = match return_type {
            Some(t) => Some(t.copy()),
            None => None,
        };
        let ghost fv = self.functions.view();
        proof {
            assert(fv == start.functions.view().insert(name@, crate::ast::opt_type_v(*return_type)));
        }
        let mut k: usize = 0;
        while k < params.len()
            invariant
                start == *old(self),
                start.wf(),
                follows(*self, start),
                k <= params.len(),
                self.mutables == start.mutables,
                self.functions.view() == fv,
                fv == start.functions.view().insert(name@, crate::ast::opt_type_v(*return_type)),
                self.current_params.view() == param_names(params@),
                crate::ast::opt_type_v(self.current_return_type) == crate::ast::opt_type_v(*return_type),
                self.borrows.view() == Map::<Seq<char>, Seq<Seq<char>>>::empty(),
                self.lens_locked.view() == Set::<Seq<char>>::empty(),
                self.lens_aliases.view() == Set::<Seq<char>>::empty(),
                forall|k2: int|
                    0 <= k2 < k ==> self.registry.view().contains_key((#[trigger] params@[k2]).0@)
                        && self.types.view().contains_key(params@[k2].0@),
            decreases params.len() - k,
        {
            let ghost m0 = *self;
            self.declare(params[k].0.clone());
            self.types.insert(params[k].0.clone(), params[k].1.copy());
            proof {
                lemma_follows_trans(start, m0, *self);
            }
            k += 1;
        }
        let ghost before_settle = *self;
        self.update_borrow_states();
        proof {
            lemma_follows(*self, start);
            crate::ast::lemma_vec_field(*expr, *body);
            self.registry.lemma_keys();
            before_settle.registry.lemma_keys();
            assert(self.registry.view().dom() =~= before_settle.registry.view().dom());
        }
        let ghost cs = *self;
        proof {
            assert(macro_start(start, cs, name@, params@, *return_type));
            assert(state_pair(start, cs));
        }
        let rb = self.check_block(expr, body, true);
        if rb.is_err() {
            proof {
                lemma_follows_trans(start, cs, *self);
                let (sts, ms, j) = choose|states: Seq<LinearChecker>, mids: Seq<LinearChecker>, j: int|
                    0 <= j < body@.len() && #[trigger] block_trace(body@, true, states, mids, j) && states[0] == cs
                        && expr_answer(states[j], body@[j], *self, rb);
                assert(trace_at(sts, ms, j));
                assert(macro_def_answer(start, *expr, *self, rb));
            }
            return rb;
        }
        let ghost ce = *self;
        let ghost (sts, ms) = choose|states: Seq<LinearChecker>, mids: Seq<LinearChecker>|
            #[trigger] block_trace(body@, true, states, mids, body@.len() as int) && states[0] == cs
                && states.last() == ce;
        proof {
            lemma_follows_trans(start, cs, *self);
            assert(trace_pair(sts, ms));
        }
        self.registry = saved_registry;
        self.types = saved_types;
        self.borrows = saved_borrows;
        self.lens_locked = saved_lens;
        self.lens_aliases = saved_lens_aliases;
        self.current_params = saved_params;
        self.current_return_type = saved_ret;
        proof {
            assert(macro_def_answer(start, *expr, *self, Ok(())));
        }
        Ok(())
    }

    /// Checks one expression or statement against the ownership rules,
    /// updating the state of every variable it reads, moves, borrows or
    /// declares.
    #[verifier::rlimit(50)]
    fn check_expr(&mut self, expr: &Expr) -> (r: Result<(), String>)
        requires
            old(self).wf(),
        ensures
            follows(*final(self), *old(self)),
            expr_answer(*old(self), *expr, *final(self), r),
        decreases 3 * old(self).unloaded() + 1, expr, 2nat,
    {
        let ghost start = *self;
        proof {
            start.lemma_unloaded();
            broadcast use vstd::std_specs::vec::axiom_vec_decreases_to_view;
        }
        match expr {
            Expr::IntLiteral(_) | Expr::StringLiteral(_) | Expr::BoolLiteral(_) | Expr::TypeAlias { .. } => Ok(()),
            Expr::Variable(name) => self.read_or_move(name.as_str()),
            Expr::BinaryOp { left, right, .. } => {
                let rl = self.check_borrow(left);
                if rl.is_err() {
                    return rl;
                }
                proof {
                    lemma_follows(*self, start);
                    assert(rl->Ok_0 == ());
                    assert(rl == Ok::<(), String>(()));
                }
                let ghost mid = *self;
                let r = self.check_borrow(right);
                proof {
                    lemma_follows_trans(start, mid, *self);
                }
                r
            },
            Expr::UnaryOp { expr: inner, .. } => self.check_expr(inner),
            Expr::ArrayLiteral { elements } => {
                proof {
                    crate::ast::lemma_vec_field(*expr, *elements);
                }
                let ra = self.check_block(expr, elements, false);
                proof {
                    if ra.is_err() {
                        let (sts, ms, j) = choose|states: Seq<LinearChecker>, mids: Seq<LinearChecker>, j: int|
                            0 <= j < elements@.len() && #[trigger] block_trace(elements@, false, states, mids, j)
                                && states[0] == start && expr_answer(states[j], elements@[j], *self, ra);
                        assert(trace_at(sts, ms, j));
                    } else {
                        let (sts, ms) = choose|states: Seq<LinearChecker>, mids: Seq<LinearChecker>|
                            #[trigger] block_trace(elements@, false, states, mids, elements@.len() as int)
                                && states[0] == start && states.last() == *self;
                        assert(trace_pair(sts, ms));
                    }
                    assert(args_answer(start, *expr, *self, ra));
                }
                ra
            },
            Expr::TupleLiteral { elements } => {
                proof {
                    crate::ast::lemma_vec_field(*expr, *elements);
                }
                let ra = self.check_block(expr, elements, false);
                proof {
                    if ra.is_err() {
                        let (sts, ms, j) = choose|states: Seq<LinearChecker>, mids: Seq<LinearChecker>, j: int|
                            0 <= j < elements@.len() && #[trigger] block_trace(elements@, false, states, mids, j)
                                && states[0] == start && expr_answer(states[j], elements@[j], *self, ra);
                        assert(trace_at(sts, ms, j));
                    } else {
                        let (sts, ms) = choose|states: Seq<LinearChecker>, mids: Seq<LinearChecker>|
                            #[trigger] block_trace(elements@, false, states, mids, elements@.len() as int)
                                && states[0] == start && states.last() == *self;
                        assert(trace_pair(sts, ms));
                    }
                    assert(args_answer(start, *expr, *self, ra));
                }
                ra
            },
            Expr::TupleIndex { target, index } => {
                let rb = self.check_borrow(target);
                if rb.is_err() {
                    return rb;
                }
                proof {
                    assert(rb->Ok_0 == ());
                    assert(rb == Ok::<(), String>(()));
                    assert(follows(*self, start));
                }
                let ghost c1 = *self;
                let inferred = self.infer_type(target);
                let len: Option<usize> = match inferred {
                    Some(TrackType::Tuple(types)) => {
                        proof {
                            crate::ast::lemma_types_view(types@);
                        }
                        Some(types.len())
                    },
                    Some(TrackType::Ref(inner)) => match *inner {
                        TrackType::Tuple(types) => {
                            proof {
                                crate::ast::lemma_types_view(types@);
                            }
                            Some(types.len())
                        },
                        _ => None,
                    },
                    _ => None,
                };
                proof {
                    reveal_with_fuel(crate::ast::type_view, 3);
                    assert(match len {
                        Some(n) => tuple_len(crate::checker::infer::infer(c1.types.view(), c1.functions.view(), **target))
                            == Some(n as nat),
                        None => tuple_len(crate::checker::infer::infer(c1.types.view(), c1.functions.view(), **target))
                            is None,
                    });
                }
                match len {
                    Some(n) => {
                        if *index >= n {
                            let mut m = string_of("Compile Error: Tuple index ");
                            push_usize(&mut m, *index);
                            push_str(&mut m, " out of bounds for tuple of length ");
                            push_usize(&mut m, n);
                            return Err(m);
                        }
                    },
                    None => {},
                }
                Ok(())
            },
            Expr::ArrayIndex { target, index } => {
                let rl = self.check_borrow(target);
                if rl.is_err() {
                    return rl;
                }
                proof {
                    lemma_follows(*self, start);
                    assert(rl->Ok_0 == ());
                    assert(rl == Ok::<(), String>(()));
                }
                let ghost mid = *self;
                let r = self.check_borrow(index);
                proof {
                    lemma_follows_trans(start, mid, *self);
                }
                r
            },
            Expr::SliceIndex { target, start: lo, end: hi } => {
                let rt = self.check_borrow(target);
                if rt.is_err() {
                    return rt;
                }
                proof {
                    assert(rt->Ok_0 == ());
                    assert(rt == Ok::<(), String>(()));
                    lemma_follows(*self, start);
                }
                let ghost c1 = *self;
                match lo {
                    Some(x) => {
                        let rl = self.check_borrow(x);
                        if rl.is_err() {
                            proof {
                                assert(state_pair(c1, c1));
                            }
                            return rl;
                        }
                        proof {
                            assert(rl->Ok_0 == ());
                            assert(rl == Ok::<(), String>(()));
                            lemma_follows_trans(start, c1, *self);
                            lemma_follows(*self, start);
                        }
                    },
                    None => {},
                }
                let ghost c2 = *self;
                proof {
                    assert(state_pair(c1, c2));
                }
                match hi {
                    Some(y) => {
                        let rh = self.check_borrow(y);
                        proof {
                            lemma_follows_trans(start, c2, *self);
                        }
                        return rh;
                    },
                    None => {},
                }
                Ok(())
            },
            Expr::Range { start: lo, end: hi } => {
                let rl = self.check_borrow(lo);
                if rl.is_err() {
                    return rl;
                }
                proof {
                    lemma_follows(*self, start);
                    assert(rl->Ok_0 == ());
                    assert(rl == Ok::<(), String>(()));
                }
                let ghost mid = *self;
                let r = self.check_borrow(hi);
                proof {
                    lemma_follows_trans(start, mid, *self);
                }
                r
            },
            Expr::AddressOf { target } => self.check_borrow(target),
            Expr::StructInitialization { fields, .. } => {
                let ghost mut sts: Seq<LinearChecker> = seq![*self];
                let mut i: usize = 0;
                while i < fields.len()
                    invariant
                        start == *old(self),
                        start.wf(),
                        follows(*self, start),
                        (*expr) is StructInitialization,
                        (*expr)->StructInitialization_fields == *fields,
                        i <= fields.len(),
                        fields_trace(fields@, sts, i as int),
                        sts[0] == start,
                        sts.last() == *self,
                    decreases fields.len() - i,
                {
                    proof {
                        lemma_follows(*self, start);
                        assert(decreases_to!(*expr => (*expr)->StructInitialization_fields));
                        assert(decreases_to!(*fields => fields@));
                        assert(decreases_to!(fields@ => fields@[i as int]));
                        assert(decreases_to!(fields@[i as int] => fields@[i as int].1));
                        reveal_with_fuel(fields_trace, 1);
                        assert(sts.len() == i + 1);
                    }
                    let ghost before = *self;
                    let re = self.reject_lens_escape(&fields[i].1);
                    if re.is_err() {
                        proof {
                            assert(trace_at(sts, sts, i as int));
                            assert(struct_answer(start, *expr, *self, re));
                        }
                        return re;
                    }
                    let rc = self.check_expr(&fields[i].1);
                    if rc.is_err() {
                        proof {
                            lemma_follows_trans(start, before, *self);
                            assert(trace_at(sts, sts, i as int));
                            assert(struct_answer(start, *expr, *self, rc));
                        }
                        return rc;
                    }
                    proof {
                        assert(rc->Ok_0 == ());
                        assert(rc == Ok::<(), String>(()));
                        lemma_follows_trans(start, before, *self);
                        lemma_fields_push(fields@, sts, i as int, *self);
                        sts = sts.push(*self);
                    }
                    i += 1;
                }
                proof {
                    assert(trace_pair(sts, sts));
                    assert(struct_answer(start, *expr, *self, Ok(())));
                }
                Ok(())
            },
            Expr::FunctionCall { name, args } => {
                let rn = self.check_call_name(name);
                if rn.is_err() {
                    return rn;
                }
                proof {
                    crate::ast::lemma_vec_field(*expr, *args);
                }
                let ra = self.check_block(expr, args, false);
                proof {
                    if ra.is_err() {
                        let (sts, ms, j) = choose|states: Seq<LinearChecker>, mids: Seq<LinearChecker>, j: int|
                            0 <= j < args@.len() && #[trigger] block_trace(args@, false, states, mids, j) && states[0]
                                == start && expr_answer(states[j], args@[j], *self, ra);
                        assert(trace_at(sts, ms, j));
                    } else {
                        let (sts, ms) = choose|states: Seq<LinearChecker>, mids: Seq<LinearChecker>|
                            #[trigger] block_trace(args@, false, states, mids, args@.len() as int) && states[0] == start
                                && states.last() == *self;
                        assert(trace_pair(sts, ms));
                    }
                    assert(args_answer(start, *expr, *self, ra));
                }
                ra
            },
            Expr::LetDef { .. } => self.check_let(expr),
            Expr::LensBlock { target, lens_name, body } => {
                let rl = self.enter_lens(target.as_str());
                if rl.is_err() {
                    return rl;
                }
                self.declare(lens_name.clone());
                self.lens_aliases.insert(lens_name.clone());
                match self.types.get(target.as_str()) {
                    Some(t) => {
                        let t2 = t.copy();
                        self.types.insert(lens_name.clone(), t2);
                    },
                    None => {},
                }
                let ghost cs = *self;
                proof {
                    lemma_follows(*self, start);
                    crate::ast::lemma_vec_field(*expr, *body);
                    assert(lens_start(start, cs, target@, lens_name@));
                    assert(state_pair(start, cs));
                }
                let rb = self.check_block(expr, body, false);
                if rb.is_err() {
                    proof {
                        lemma_follows_trans(start, cs, *self);
                        let (sts, ms, j) = choose|states: Seq<LinearChecker>, mids: Seq<LinearChecker>, j: int|
                            0 <= j < body@.len() && #[trigger] block_trace(body@, false, states, mids, j) && states[0]
                                == cs && expr_answer(states[j], body@[j], *self, rb);
                        assert(trace_at(sts, ms, j));
                        assert(lens_answer(start, *expr, *self, rb));
                    }
                    return rb;
                }
                let ghost ce = *self;
                let ghost (sts, ms) = choose|states: Seq<LinearChecker>, mids: Seq<LinearChecker>|
                    #[trigger] block_trace(body@, false, states, mids, body@.len() as int) && states[0] == cs
                        && states.last() == ce;
                proof {
                    lemma_follows_trans(start, cs, *self);
                    assert(trace_pair(sts, ms));
                }
                let ghost mid = *self;
                self.exit_lens(target.as_str());
                self.registry.remove(lens_name.as_str());
                self.types.remove(lens_name.as_str());
                self.borrows.remove(lens_name.as_str());
                self.lens_aliases.remove(lens_name.as_str());
                proof {
                    lemma_follows_trans(start, mid, *self);
                    assert(lens_answer(start, *expr, *self, Ok(())));
                }
                Ok(())
            },
            Expr::IfElse { condition, then_body, else_body } => {
                let rc = self.check_expr(condition);
                if rc.is_err() {
                    return rc;
                }
                let ghost c1 = *self;
                proof {
                    assert(rc->Ok_0 == ());
                    assert(rc == Ok::<(), String>(()));
                    assert(expr_answer(start, **condition, c1, Ok(())));
                }
                let pre_if = self.registry.deep_copy();
                let pre_if_types = self.types.deep_copy();
                let pre_if_borrows = self.borrows.deep_copy();
                proof {
                    lemma_follows(*self, start);
                    crate::ast::lemma_vec_field(*expr, *then_body);
                    crate::ast::lemma_vec_field(*expr, *else_body);
                }
                let rt = self.check_block(expr, then_body, true);
                if rt.is_err() {
                    proof {
                        lemma_follows_trans(start, c1, *self);
                        let (sa, ma, j) = choose|states: Seq<LinearChecker>, mids: Seq<LinearChecker>, j: int|
                            0 <= j < then_body@.len() && #[trigger] block_trace(then_body@, true, states, mids, j)
                                && states[0] == c1 && expr_answer(states[j], then_body@[j], *self, rt);
                        assert(trace_at(sa, ma, j));
                        assert(if_answer(c1, *expr, *self, rt));
                    }
                    return rt;
                }
                let ghost ct = *self;
                let ghost (s1, m1) = choose|states: Seq<LinearChecker>, mids: Seq<LinearChecker>|
                    #[trigger] block_trace(then_body@, true, states, mids, then_body@.len() as int) && states[0] == c1
                        && states.last() == ct;
                let then_end = self.registry.take();
                self.registry = pre_if.deep_copy();
                let _then_types = self.types.take();
                self.types = pre_if_types.deep_copy();
                let then_end_borrows = self.borrows.take();
                self.borrows = pre_if_borrows.deep_copy();
                let ghost ce0 = *self;
                proof {
                    lemma_follows_trans(start, c1, ct);
                    lemma_follows(*self, start);
                    assert(branch_start(c1, ct, ce0));
                    assert(trace_pair(s1, m1));
                }
                let re = self.check_block(expr, else_body, true);
                if re.is_err() {
                    proof {
                        lemma_follows_trans(start, ce0, *self);
                        let (sb, mb, j) = choose|states: Seq<LinearChecker>, mids: Seq<LinearChecker>, j: int|
                            0 <= j < else_body@.len() && #[trigger] block_trace(else_body@, true, states, mids, j)
                                && states[0] == ce0 && expr_answer(states[j], else_body@[j], *self, re);
                        assert(trace_pair(s1, m1));
                        assert(trace_at(sb, mb, j));
                        assert(if_answer(c1, *expr, *self, re));
                    }
                    return re;
                }
                let ghost ce = *self;
                let ghost (s2, m2) = choose|states: Seq<LinearChecker>, mids: Seq<LinearChecker>|
                    #[trigger] block_trace(else_body@, true, states, mids, else_body@.len() as int) && states[0] == ce0
                        && states.last() == ce;
                proof {
                    lemma_follows_trans(start, ce0, *self);
                    assert(trace_pair(s1, m1));
                    assert(trace_pair(s2, m2));
                }
                let else_end = self.registry.take();
                let _else_types = self.types.take();
                let else_end_borrows = self.borrows.take();
                let merged = merge_branches(
                    &pre_if,
                    &pre_if_types,
                    &then_end,
                    &else_end,
                    &then_end_borrows,
                    &else_end_borrows,
                );
                let (merged, merged_types, merged_borrows) = match merged {
                    Ok(m) => m,
                    Err(msg) => {
                        let res: Result<(), String> = Err(msg);
                        proof {
                            assert(if_conflict(c1, ct, ce) is Some);
                            assert(if_answer(c1, *expr, *self, res));
                        }
                        return res;
                    },
                };
                self.registry = merged;
                self.types = merged_types;
                self.borrows = merged_borrows;
                let ghost mid3 = *self;
                self.update_borrow_states();
                proof {
                    lemma_follows_trans(start, mid3, *self);
                    assert(if_conflict(c1, ct, ce) is None);
                    assert(if_answer(c1, *expr, *self, Ok(())));
                }
                Ok(())
            },
            Expr::WhileLoop { condition, body } => {
                let rc = self.check_expr(condition);
                if rc.is_err() {
                    return rc;
                }
                let ghost c1 = *self;
                proof {
                    assert(rc->Ok_0 == ());
                    assert(rc == Ok::<(), String>(()));
                    assert(expr_answer(start, **condition, c1, Ok(())));
                }
                let pre_loop = self.registry.deep_copy();
                let pre_loop_types = self.types.deep_copy();
                let pre_loop_borrows = self.borrows.deep_copy();
                proof {
                    lemma_follows(*self, start);
                    crate::ast::lemma_vec_field(*expr, *body);
                }
                let rb = self.check_block(expr, body, true);
                if rb.is_err() {
                    proof {
                        lemma_follows_trans(start, c1, *self);
                        let (sts, ms, j) = choose|states: Seq<LinearChecker>, mids: Seq<LinearChecker>, j: int|
                            0 <= j < body@.len() && #[trigger] block_trace(body@, true, states, mids, j) && states[0] == c1
                                && expr_answer(states[j], body@[j], *self, rb);
                        assert(trace_at(sts, ms, j));
                        assert(loop_answer(c1, c1, body@, *self, rb, true));
                    }
                    return rb;
                }
                let ghost c2 = *self;
                let ghost (sts, ms) = choose|states: Seq<LinearChecker>, mids: Seq<LinearChecker>|
                    #[trigger] block_trace(body@, true, states, mids, body@.len() as int) && states[0] == c1
                        && states.last() == c2;
                proof {
                    lemma_follows_trans(start, c1, *self);
                    assert(trace_pair(sts, ms));
                }
                match self.loop_violation(&pre_loop) {
                    Some(name) => {
                        let res: Result<(), String> = Err(loop_message(&name, true));
                        proof {
                            assert(loop_refusal(c1, c2) == Some(name@));
                            assert(trace_pair(sts, ms));
                            assert(loop_answer(c1, c1, body@, *self, res, true));
                        }
                        return res;
                    },
                    None => {},
                }
                self.registry = pre_loop;
                self.types = pre_loop_types;
                self.borrows = pre_loop_borrows;
                let ghost mid2 = *self;
                self.update_borrow_states();
                proof {
                    lemma_follows_trans(start, mid2, *self);
                    assert(loop_refusal(c1, c2) is None);
                    assert(trace_pair(sts, ms));
                    assert(loop_answer(c1, c1, body@, *self, Ok(()), true));
                }
                Ok(())
            },
            Expr::ForIn { var, iter, body } => {
                let rc = self.check_expr(iter);
                if rc.is_err() {
                    return rc;
                }
                let ghost c1 = *self;
                proof {
                    assert(rc->Ok_0 == ());
                    assert(rc == Ok::<(), String>(()));
                    assert(expr_answer(start, **iter, c1, Ok(())));
                }
                let elem_ty = match self.infer_type(iter) {
                    Some(TrackType::Slice(inner)) => *inner,
                    Some(TrackType::Array(inner, _)) => *inner,
                    _ => TrackType::I32,
                };
                let pre_loop = self.registry.deep_copy();
                let pre_loop_types = self.types.deep_copy();
                let pre_loop_borrows = self.borrows.deep_copy();
                self.declare(var.clone());
                self.types.insert(var.clone(), elem_ty);
                let ghost cs = *self;
                proof {
                    lemma_follows(*self, start);
                    crate::ast::lemma_vec_field(*expr, *body);
                    assert(loop_start(c1, cs, var@));
                    assert(state_pair(c1, cs));
                }
                let rb = self.check_block(expr, body, true);
                if rb.is_err() {
                    proof {
                        lemma_follows_trans(start, cs, *self);
                        let (sts, ms, j) = choose|states: Seq<LinearChecker>, mids: Seq<LinearChecker>, j: int|
                            0 <= j < body@.len() && #[trigger] block_trace(body@, true, states, mids, j) && states[0] == cs
                                && expr_answer(states[j], body@[j], *self, rb);
                        assert(trace_at(sts, ms, j));
                        assert(loop_answer(c1, cs, body@, *self, rb, false));
                    }
                    return rb;
                }
                let ghost c2 = *self;
                let ghost (sts, ms) = choose|states: Seq<LinearChecker>, mids: Seq<LinearChecker>|
                    #[trigger] block_trace(body@, true, states, mids, body@.len() as int) && states[0] == cs
                        && states.last() == c2;
                proof {
                    lemma_follows_trans(start, cs, *self);
                    assert(trace_pair(sts, ms));
                }
                match self.loop_violation(&pre_loop) {
                    Some(name) => {
                        let res: Result<(), String> = Err(loop_message(&name, false));
                        proof {
                            assert(loop_refusal(c1, c2) == Some(name@));
                            assert(trace_pair(sts, ms));
                            assert(loop_answer(c1, cs, body@, *self, res, false));
                        }
                        return res;
                    },
                    None => {},
                }
                self.registry = pre_loop;
                self.types = pre_loop_types;
                self.borrows = pre_loop_borrows;
                let ghost mid2 = *self;
                self.update_borrow_states();
                proof {
                    lemma_follows_trans(start, mid2, *self);
                    assert(loop_refusal(c1, c2) is None);
                    assert(trace_pair(sts, ms));
                    assert(loop_answer(c1, cs, body@, *self, Ok(()), false));
                }
                Ok(())
            },
            Expr::Return { value } => {
                match value {
                    Some(val) => {
                        let re = self.reject_lens_escape(val);
                        if re.is_err() {
                            return re;
                        }
                        let rc = self.check_expr(val);
                        if rc.is_err() {
                            return rc;
                        }
                        proof {
                            assert(rc->Ok_0 == ());
                            assert(rc == Ok::<(), String>(()));
                        }
                        let ret_is_ref = match &self.current_return_type {
                            Some(TrackType::Ref(_)) => true,
                            _ => false,
                        };
                        if ret_is_ref {
                            let prov = self.get_provenance(val);
                            let esc = self.check_escape(&prov);
                            proof {
                                let nv = crate::checker::prov::names_view(prov@);
                                let cp = self.current_params.view();
                                if escapes_nothing(*self, **val) {
                                    assert forall|j: int| 0 <= j < prov@.len() implies cp.contains(#[trigger] prov@[j]@) by {
                                        assert(nv[j] == prov@[j]@);
                                    }
                                }
                                if forall|j: int| 0 <= j < prov@.len() ==> cp.contains(#[trigger] prov@[j]@) {
                                    assert forall|j: int| 0 <= j < nv.len() implies cp.contains(#[trigger] nv[j]) by {
                                        assert(nv[j] == prov@[j]@);
                                    }
                                }
                            }
                            if esc.is_err() {
                                return esc;
                            }
                        }
                    },
                    None => {},
                }
                Ok(())
            },
            Expr::Assign { .. } => self.check_assign(expr),
            Expr::FnDef { generics, .. } => {
                if generics.len() > 0 {
                    return Ok(());
                }
                self.check_fn(expr)
            },
            Expr::Use { path, imports, alias } => {
                let norm = normalize_path(path);
                match module_exports(&norm) {
                    Some(provided) => {
                        let entries = match import_entries(path, imports, alias, &provided) {
                            Ok(v) => v,
                            Err(m) => {
                                return Err(m);
                            },
                        };
                        self.add_functions(&entries);
                        proof {
                            crate::checker::builtins::lemma_insert_all_dom(
                                start.functions.view(),
                                crate::checker::builtins::entries_view(entries@),
                            );
                        }
                        Ok(())
                    },
                    None => match self.find_module(path, &norm) {
                        Some(cand) => {
                            proof {
                                crate::checker::imports::lemma_first_known(
                                    crate::checker::imports::module_candidates(path@, norm@),
                                    self.modules.view().dom(),
                                    0,
                                );
                            }
                            self.load_module(cand)
                        },
                        None => Err(quote("Compile Error: Unknown module '", path.as_str(), "'")),
                    },
                }
            },
            Expr::ConstDef { name, value } => {
                let rc = self.check_expr(value);
                if rc.is_err() {
                    return rc;
                }
                let ghost c1 = *self;
                proof {
                    assert(rc->Ok_0 == ());
                    assert(rc == Ok::<(), String>(()));
                }
                let ghost mid = *self;
                self.declare(name.clone());
                match self.infer_type(value) {
                    Some(t) => {
                        self.types.insert(name.clone(), t);
                    },
                    None => {},
                }
                self.update_borrow_states();
                proof {
                    lemma_follows_trans(start, mid, *self);
                }
                Ok(())
            },
            Expr::MacroDef { .. } => self.check_macro_def(expr),
            Expr::MacroCall { name, args, body } => {
                if name.eq(&string_of("compile_error")) {
                    if args.len() > 0 {
                        match &args[0] {
                            Expr::StringLiteral(msg) => {
                                let mut m = string_of("Compile Error: ");
                                push_string(&mut m, msg);
                                return Err(m);
                            },
                            _ => {},
                        }
                    }
                    return Err(string_of("Compile Error: @compile_error requires a string message"));
                }
                proof {
                    crate::ast::lemma_vec_field(*expr, *args);
                }
                let ra = self.check_block(expr, args, false);
                if ra.is_err() {
                    proof {
                        let (sts, ms, j) = choose|states: Seq<LinearChecker>, mids: Seq<LinearChecker>, j: int|
                            0 <= j < args@.len() && #[trigger] block_trace(args@, false, states, mids, j) && states[0]
                                == start && expr_answer(states[j], args@[j], *self, ra);
                        assert(trace_at(sts, ms, j));
                        assert(macro_answer(start, *expr, *self, ra));
                    }
                    return ra;
                }
                let ghost ca = *self;
                let ghost (s1, m1) = choose|states: Seq<LinearChecker>, mids: Seq<LinearChecker>|
                    #[trigger] block_trace(args@, false, states, mids, args@.len() as int) && states[0] == start
                        && states.last() == ca;
                proof {
                    assert(trace_pair(s1, m1));
                }
                match body {
                    Some(b) => {
                        proof {
                            lemma_follows(*self, start);
                            assert(decreases_to!(*expr => (*expr)->MacroCall_body));
                            assert(decreases_to!((*expr)->MacroCall_body => *b));
                            crate::ast::lemma_vec_field(*expr, *b);
                        }
                        let ghost mid = *self;
                        let rb = self.check_block(expr, b, true);
                        proof {
                            lemma_follows_trans(start, mid, *self);
                        }
                        if rb.is_err() {
                            proof {
                                let (sts, ms, j) = choose|states: Seq<LinearChecker>, mids: Seq<LinearChecker>, j: int|
                                    0 <= j < b@.len() && #[trigger] block_trace(b@, true, states, mids, j) && states[0]
                                        == ca && expr_answer(states[j], b@[j], *self, rb);
                                assert(trace_at(sts, ms, j));
                                assert(trace_pair(s1, m1));
                                assert(macro_answer(start, *expr, *self, rb));
                            }
                            return rb;
                        }
                        proof {
                            let (sts, ms) = choose|states: Seq<LinearChecker>, mids: Seq<LinearChecker>|
                                #[trigger] block_trace(b@, true, states, mids, b@.len() as int) && states[0] == ca
                                    && states.last() == *self;
                            assert(trace_pair(sts, ms));
                            assert(trace_pair(s1, m1));
                            assert(macro_answer(start, *expr, *self, Ok(())));
                        }
                    },
                    None => {
                        proof {
                            assert(macro_answer(start, *expr, *self, Ok(())));
                        }
                    },
                }
                Ok(())
            },
            Expr::EnumDef { name, variants, .. } => {
                let ghost mut sts: Seq<LinearChecker> = seq![*self];
                let ghost mut ms: Seq<LinearChecker> = Seq::empty();
                let mut i: usize = 0;
                while i < variants.len()
                    invariant
                        start == *old(self),
                        start.wf(),
                        follows(*self, start),
                        (*expr) is EnumDef,
                        (*expr)->EnumDef_variants == *variants,
                        (*expr)->EnumDef_name == *name,
                        i <= variants.len(),
                        enum_trace(name@, variants@, sts, ms, i as int),
                        sts[0] == start,
                        sts.last() == *self,
                    decreases variants.len() - i,
                {
                    proof {
                        reveal_with_fuel(enum_trace, 1);
                        assert(sts.len() == i + 1);
                    }
                    let ghost m0 = *self;
                    let fullname = qualified_name(name, &variants[i].0);
                    self.types.insert(fullname.clone(), TrackType::Custom(name.clone()));
                    self.declare(fullname);
                    let ghost m = *self;
                    proof {
                        lemma_follows_trans(start, m0, *self);
                        lemma_follows(*self, start);
                        assert(variant_added(m0, name@, variants@[i as int], m));
                    }
                    match &variants[i].1 {
                        Some(val) => {
                            proof {
                                assert(decreases_to!(*expr => (*expr)->EnumDef_variants));
                                assert(decreases_to!(*variants => variants@));
                                assert(decreases_to!(variants@ => variants@[i as int]));
                                assert(decreases_to!(variants@[i as int] => variants@[i as int].1));
                                assert(decreases_to!(variants@[i as int].1 => *val));
                            }
                            let rv = self.check_expr(val);
                            if rv.is_err() {
                                proof {
                                    assert(trace_at(sts, ms, i as int));
                                    assert(state_pair(m, *self));
                                    assert(enum_answer(start, *expr, *self, rv));
                                }
                                return rv;
                            }
                            proof {
                                assert(rv->Ok_0 == ());
                                assert(rv == Ok::<(), String>(()));
                                lemma_follows_trans(start, m, *self);
                            }
                        },
                        None => {},
                    }
                    proof {
                        lemma_enum_push(name@, variants@, sts, ms, i as int, m, *self);
                        sts = sts.push(*self);
                        ms = ms.push(m);
                    }
                    i += 1;
                }
                proof {
                    assert(trace_pair(sts, ms));
                    assert(enum_answer(start, *expr, *self, Ok(())));
                }
                Ok(())
            },
            Expr::UnionDef { name, variants } => {
                self.declare_variants_union(name, variants);
                Ok(())
            },
            Expr::LetDestructure { pattern, mutable, value } => {
                let re = self.reject_lens_escape(value);
                if re.is_err() {
                    return re;
                }
                let rc = self.check_expr(value);
                if rc.is_err() {
                    return rc;
                }
                let ghost c1 = *self;
                proof {
                    assert(rc->Ok_0 == ());
                    assert(rc == Ok::<(), String>(()));
                }
                let val_ty = match self.infer_type(value) {
                    Some(t) => t,
                    None => TrackType::I32,
                };
                proof {
                    assert(val_ty@ == match_type(c1, **value));
                }
                let ghost mid = *self;
                let _ = self.bind_pattern_variables(pattern, &val_ty, *mutable);
                let ghost b = *self;
                self.update_borrow_states();
                proof {
                    lemma_follows_trans(start, mid, *self);
                    assert(state_pair(c1, b));
                }
                Ok(())
            },
            Expr::Match { .. } => self.check_match(expr),
        }
    }
}

} // verus!
