//! Monomorphization: generic functions are templates, and each call of one
//! is rewritten to a concrete instance whose definition is appended to the
//! program.
use vstd::prelude::*;
use crate::ast::{BinOp, Expr, ExprV, MatchArm, Pattern, PatternV, TrackType, TypeV, UnaryOp};
use crate::collections::{DeepCopy, StrMap};
use crate::checker::infer::opt_view;
use crate::text::{decimal, string_of, push_str, push_string, push_usize};

pub mod types;

use crate::mono::types::{base_name, base_of, mangle, mangled, subst_ty, substitute_ty, unify};
use crate::ast::{opt_type_v, params_v};
use crate::checker::prov::names_view;

verus! {

/// How deep instances may nest while they are being generated.
pub const MAX_INSTANTIATION_DEPTH: usize = 64;

/// A generic function, kept as a template.
struct Template {
    type_params: Vec<String>,
    params: Vec<(String, TrackType)>,
    return_type: Option<TrackType>,
    body: Vec<Expr>,
}

/// Operators whose result is a `bool`.
pub open spec fn is_bool_op(op: BinOp) -> bool {
    match op {
        BinOp::Eq | BinOp::Neq | BinOp::Lt | BinOp::Gt | BinOp::Lte | BinOp::Gte | BinOp::And
        | BinOp::Or => true,
        _ => false,
    }
}

/// The type that monomorphization infers for an expression from the types
/// of the variables in scope, the return types of the instances made so
/// far and the declared return types of the program's concrete functions;
/// none where it is unsure.
pub open spec fn shallow(
    env: Map<Seq<char>, TypeV>,
    gen: Map<Seq<char>, Option<TypeV>>,
    sigs: Map<Seq<char>, Option<TypeV>>,
    e: Expr,
) -> Option<TypeV>
    decreases e, 0nat,
{
    match e {
        Expr::IntLiteral(_) => Some(TypeV::I32),
        Expr::BoolLiteral(_) => Some(TypeV::Bool),
        Expr::StringLiteral(_) => Some(TypeV::Ptr(Box::new(TypeV::I32))),
        Expr::Variable(n) => if env.contains_key(n@) {
            Some(env[n@])
        } else {
            None
        },
        Expr::BinaryOp { op, left, .. } => if is_bool_op(op) {
            Some(TypeV::Bool)
        } else {
            shallow(env, gen, sigs, *left)
        },
        Expr::UnaryOp { op, expr } => match op {
            UnaryOp::Not => Some(TypeV::Bool),
            UnaryOp::Neg => shallow(env, gen, sigs, *expr),
            UnaryOp::Deref => match shallow(env, gen, sigs, *expr) {
                Some(TypeV::Ptr(i)) => Some(*i),
                Some(TypeV::Ref(i)) => Some(*i),
                _ => None,
            },
        },
        Expr::AddressOf { target } => match shallow(env, gen, sigs, *target) {
            Some(t) => Some(TypeV::Ref(Box::new(t))),
            None => None,
        },
        Expr::ArrayLiteral { elements } => if elements@.len() > 0 {
            match shallow(env, gen, sigs, elements@[0]) {
                Some(t) => Some(TypeV::Array(Box::new(t), elements@.len() as usize)),
                None => None,
            }
        } else {
            None
        },
        Expr::TupleLiteral { elements } => match shallow_all(env, gen, sigs, elements@) {
            Some(ts) => Some(TypeV::Tuple(ts)),
            None => None,
        },
        Expr::TupleIndex { target, index } => match shallow(env, gen, sigs, *target) {
            Some(TypeV::Tuple(es)) => if index < es.len() {
                Some(es[index as int])
            } else {
                None
            },
            _ => None,
        },
        Expr::ArrayIndex { target, .. } => match shallow(env, gen, sigs, *target) {
            Some(TypeV::Array(i, _)) => Some(*i),
            Some(TypeV::Slice(i)) => Some(*i),
            _ => None,
        },
        Expr::StructInitialization { ty_name, .. } => Some(TypeV::Custom(ty_name@)),
        Expr::LetDef { value, .. } => shallow(env, gen, sigs, *value),
        Expr::IfElse { then_body, .. } => if then_body@.len() > 0 {
            shallow(env, gen, sigs, then_body@.last())
        } else {
            None
        },
        Expr::FunctionCall { name, .. } => if gen.contains_key(name@) {
            gen[name@]
        } else if sigs.contains_key(name@) {
            sigs[name@]
        } else {
            None
        },
        _ => None,
    }
}

/// The types of all elements, or none if one of them has none.
pub open spec fn shallow_all(
    env: Map<Seq<char>, TypeV>,
    gen: Map<Seq<char>, Option<TypeV>>,
    sigs: Map<Seq<char>, Option<TypeV>>,
    s: Seq<Expr>,
) -> Option<Seq<TypeV>>
    decreases s, 1nat,
{
    if s.len() == 0 {
        Some(Seq::empty())
    } else {
        match (shallow_all(env, gen, sigs, s.drop_last()), shallow(env, gen, sigs, s.last())) {
            (Some(a), Some(t)) => Some(a.push(t)),
            _ => None,
        }
    }
}

/// The templates of a program, by name.
struct Templates {
    list: Vec<(String, Template)>,
}

impl Templates {
    fn find(&self, name: &String) -> (r: Option<usize>)
        ensures
            r matches Some(i) ==> i < self.list@.len() && self.list@[i as int].0@ == name@,
            r is None ==> forall|j: int| 0 <= j < self.list@.len() ==> self.list@[j].0@ != name@,
    {
        let mut i: usize = 0;
        while i < self.list.len()
            invariant
                i <= self.list.len(),
                forall|j: int| 0 <= j < i ==> self.list@[j].0@ != name@,
            decreases self.list.len() - i,
        {
            if self.list[i].0.eq(name) {
                return Some(i);
            }
            i += 1;
        }
        None
    }
}

/// The declared return types of the concrete (non-generic) functions among
/// the statements `p`, by name; a later definition replaces an earlier one.
pub open spec fn sigs_of(p: Seq<Expr>) -> Map<Seq<char>, Option<TypeV>>
    decreases p.len(),
{
    if p.len() == 0 {
        Map::empty()
    } else {
        let m = sigs_of(p.drop_last());
        match p.last() {
            Expr::FnDef { name, generics, return_type, .. } => if generics@.len() == 0 {
                m.insert(name@, crate::ast::opt_type_v(return_type))
            } else {
                m
            },
            _ => m,
        }
    }
}

/// The concrete functions' return types, for inference.
fn concrete_signatures(program: &Vec<Expr>) -> (r: StrMap<Option<TrackType>>)
    ensures
        r.wf(),
        r.view() == sigs_of(program@),
{
    let mut m: StrMap<Option<TrackType>> = StrMap::new();
    let mut i: usize = 0;
    proof {
        assert(program@.take(0) =~= Seq::<Expr>::empty());
        assert(m.view() =~= sigs_of(program@.take(0)));
    }
    while i < program.len()
        invariant
            m.wf(),
            i <= program.len(),
            m.view() == sigs_of(program@.take(i as int)),
        decreases program.len() - i,
    {
        proof {
            assert(program@.take(i + 1).drop_last() =~= program@.take(i as int));
            assert(program@.take(i + 1).last() == program@[i as int]);
        }
        match &program[i] {
            Expr::FnDef { name, generics, return_type, .. } => {
                if generics.len() == 0 {
                    let rt = match return_type {
                        Some(t) => Some(t.copy()),
                        None => None,
                    };
                    m.insert(name.clone(), rt);
                }
            },
            _ => {},
        }
        i += 1;
    }
    proof {
        assert(program@.take(program@.len() as int) =~= program@);
    }
    m
}

/// What generation has produced so far.
struct MonoState {
    /// The return type of each instance made, by its name.
    generated: StrMap<Option<TrackType>>,
    /// The definitions of the instances, in the order they were completed.
    defs: Vec<Expr>,
    /// The instances being generated, innermost last.
    in_progress: Vec<String>,
    /// The declared return type of each concrete function of the program.
    sigs: StrMap<Option<TrackType>>,
}

/// An instance: a function definition without type parameters.
pub open spec fn is_instance(e: Expr) -> bool {
    e is FnDef && e->FnDef_generics@.len() == 0
}

/// The name an instance is defined under.
pub open spec fn instance_name(e: Expr) -> Seq<char> {
    e->FnDef_name@
}

/// The definitions from position `from` on have pairwise different names.
pub open spec fn distinct_instances(s: Seq<Expr>, from: int) -> bool {
    forall|a: int, b: int|
        from <= a < b < s.len() ==> #[trigger] instance_name(s[a]) != #[trigger] instance_name(s[b])
}

/// The type, where there is one, with the bindings substituted.
pub open spec fn subst_opt(t: Option<TypeV>, m: Map<Seq<char>, TypeV>) -> Option<TypeV> {
    match t {
        Some(x) => Some(subst_ty(x, m)),
        None => None,
    }
}

/// The definition `d` is the generic function definition `t` with the
/// bindings `m`, listed in `keys`: every type parameter of `t` is bound, `d`
/// is named after `t` and its bindings, keeps the parameter names of `t`, and
/// its parameter types and return type are those of `t` with the bindings
/// substituted.
pub open spec fn instantiates(t: Expr, d: Expr, keys: Seq<Seq<char>>, m: Map<Seq<char>, TypeV>) -> bool {
    &&& t is FnDef
    &&& d is FnDef
    &&& forall|g: int| 0 <= g < t->FnDef_generics@.len() ==> m.contains_key(#[trigger] t->FnDef_generics@[g]@)
    &&& d->FnDef_name@ == mangled(t->FnDef_name@, keys, m)
    &&& d->FnDef_params@.len() == t->FnDef_params@.len()
    &&& forall|j: int|
        0 <= j < t->FnDef_params@.len() ==> (#[trigger] d->FnDef_params@[j]).0@ == t->FnDef_params@[j].0@
            && d->FnDef_params@[j].1@ == subst_ty(t->FnDef_params@[j].1@, m)
    &&& opt_type_v(d->FnDef_return_type) == subst_opt(opt_type_v(t->FnDef_return_type), m)
}

/// `d` is an instance of the generic function definition `t`, for some
/// bindings of its type parameters.
pub open spec fn instance_of(t: Expr, d: Expr) -> bool {
    exists|keys: Seq<Seq<char>>, m: Map<Seq<char>, TypeV>| #[trigger] instantiates(t, d, keys, m)
}

/// Two function definitions with the same name, type parameters, parameters
/// and return type.
pub open spec fn same_signature(a: Expr, b: Expr) -> bool {
    &&& a is FnDef
    &&& b is FnDef
    &&& a->FnDef_name@ == b->FnDef_name@
    &&& names_view(a->FnDef_generics@) == names_view(b->FnDef_generics@)
    &&& params_v(a->FnDef_params@) == params_v(b->FnDef_params@)
    &&& opt_type_v(a->FnDef_return_type) == opt_type_v(b->FnDef_return_type)
}

/// `d` is an instance of one of the generic functions defined in `p`.
pub open spec fn instance_in(p: Seq<Expr>, d: Expr) -> bool {
    exists|g: int| 0 <= g < p.len() && generic_name(p[g]) is Some && #[trigger] instance_of(p[g], d)
}

/// An instance keeps its template's parameter names, and substitutes one
/// binding for each type: parameters that the template declares with the
/// same type get the same type in the instance, and a parameter declared
/// with the template's return type has the instance's return type.
pub proof fn law_instance_signature(t: Expr, d: Expr)
    requires
        instance_of(t, d),
    ensures
        t is FnDef && d is FnDef,
        d->FnDef_params@.len() == t->FnDef_params@.len(),
        forall|j: int| 0 <= j < t->FnDef_params@.len() ==> (#[trigger] d->FnDef_params@[j]).0@ == t->FnDef_params@[j].0@,
        forall|j: int, k: int|
            0 <= j < t->FnDef_params@.len() && 0 <= k < t->FnDef_params@.len() && t->FnDef_params@[j].1@
                == t->FnDef_params@[k].1@ ==> (#[trigger] d->FnDef_params@[j]).1@ == (#[trigger] d->FnDef_params@[k]).1@,
        forall|j: int|
            0 <= j < t->FnDef_params@.len() && opt_type_v(t->FnDef_return_type) == Some(t->FnDef_params@[j].1@)
                ==> opt_type_v(d->FnDef_return_type) == Some((#[trigger] d->FnDef_params@[j]).1@),
{
    let (keys, m) = choose|keys: Seq<Seq<char>>, m: Map<Seq<char>, TypeV>| #[trigger] instantiates(t, d, keys, m);
    assert forall|j: int, k: int|
        0 <= j < t->FnDef_params@.len() && 0 <= k < t->FnDef_params@.len() && t->FnDef_params@[j].1@
            == t->FnDef_params@[k].1@ implies (#[trigger] d->FnDef_params@[j]).1@ == (#[trigger] d->FnDef_params@[k]).1@ by {
        assert(d->FnDef_params@[j].1@ == subst_ty(t->FnDef_params@[j].1@, m));
        assert(d->FnDef_params@[k].1@ == subst_ty(t->FnDef_params@[k].1@, m));
    }
    assert forall|j: int|
        0 <= j < t->FnDef_params@.len() && opt_type_v(t->FnDef_return_type) == Some(t->FnDef_params@[j].1@)
            implies opt_type_v(d->FnDef_return_type) == Some((#[trigger] d->FnDef_params@[j]).1@) by {
        assert(d->FnDef_params@[j].1@ == subst_ty(t->FnDef_params@[j].1@, m));
    }
}

/// An instance of a definition is one of any definition with the same
/// signature.
proof fn lemma_instance_same_signature(a: Expr, b: Expr, d: Expr)
    requires
        instance_of(a, d),
        same_signature(a, b),
    ensures
        instance_of(b, d),
{
    let (keys, m) = choose|keys: Seq<Seq<char>>, m: Map<Seq<char>, TypeV>| #[trigger] instantiates(a, d, keys, m);
    let ga = a->FnDef_generics@;
    let gb = b->FnDef_generics@;
    assert(names_view(ga).len() == names_view(gb).len());
    assert forall|g: int| 0 <= g < gb.len() implies m.contains_key(#[trigger] gb[g]@) by {
        assert(names_view(ga)[g] == names_view(gb)[g]);
        assert(m.contains_key(ga[g]@));
    }
    let pa = a->FnDef_params@;
    let pb = b->FnDef_params@;
    assert(params_v(pa).len() == params_v(pb).len());
    assert forall|j: int| 0 <= j < pb.len() implies (#[trigger] d->FnDef_params@[j]).0@ == pb[j].0@
        && d->FnDef_params@[j].1@ == subst_ty(pb[j].1@, m) by {
        assert(params_v(pa)[j] == params_v(pb)[j]);
    }
    assert(instantiates(b, d, keys, m));
}

/// A template as the definition it was made from.
spec fn tpl_def(e: (String, Template)) -> Expr {
    Expr::FnDef {
        name: e.0,
        generics: e.1.type_params,
        params: e.1.params,
        return_type: e.1.return_type,
        body: e.1.body,
    }
}

/// The name, parameters and return type of an instance are those of the
/// template named `tname` with the bindings `m`, listed in `keys`.
spec fn signature_made(
    tname: Seq<char>,
    tpl: Template,
    dname: Seq<char>,
    dparams: Seq<(String, TrackType)>,
    dret: Option<TrackType>,
    keys: Seq<Seq<char>>,
    m: Map<Seq<char>, TypeV>,
) -> bool {
    &&& forall|g: int| 0 <= g < tpl.type_params@.len() ==> m.contains_key(#[trigger] tpl.type_params@[g]@)
    &&& dname == mangled(tname, keys, m)
    &&& dparams.len() == tpl.params@.len()
    &&& forall|j: int|
        0 <= j < tpl.params@.len() ==> (#[trigger] dparams[j]).0@ == tpl.params@[j].0@ && dparams[j].1@ == subst_ty(
            tpl.params@[j].1@,
            m,
        )
    &&& opt_type_v(dret) == subst_opt(opt_type_v(tpl.return_type), m)
}

/// The template has the signature of a generic function defined in `p`.
spec fn tpl_in_program(p: Seq<Expr>, e: (String, Template)) -> bool {
    exists|g: int| 0 <= g < p.len() && generic_name(p[g]) is Some && #[trigger] same_signature(tpl_def(e), p[g])
}

/// Each definition is an instance of a template of the list.
#[verifier::opaque]
spec fn made_from(defs: Seq<Expr>, l: Seq<(String, Template)>) -> bool {
    forall|i: int| 0 <= i < defs.len() ==> #[trigger] of_some_template(l, defs[i])
}

/// `d` is an instance of some template of the list.
spec fn of_some_template(l: Seq<(String, Template)>, d: Expr) -> bool {
    exists|t: int| 0 <= t < l.len() && #[trigger] instance_of(tpl_def(l[t]), d)
}

impl MonoState {
    spec fn ok(&self) -> bool {
        &&& self.generated.wf()
        &&& self.sigs.wf()
        &&& self.in_progress@.len() <= MAX_INSTANTIATION_DEPTH
        &&& forall|i: int| 0 <= i < self.defs@.len() ==> is_instance(#[trigger] self.defs@[i])
        &&& forall|i: int|
            0 <= i < self.defs@.len() ==> self.generated.view().contains_key(instance_name(#[trigger] self.defs@[i]))
        &&& distinct_instances(self.defs@, 0)
        &&& forall|i: int|
            0 <= i < self.in_progress@.len() ==> !self.generated.view().contains_key(#[trigger] self.in_progress@[i]@)
    }

    spec fn budget(&self) -> int {
        MAX_INSTANTIATION_DEPTH - self.in_progress@.len()
    }
}

/// Infers the type of an expression for choosing a substitution.
fn infer_shallow(
    expr: &Expr,
    env: &StrMap<TrackType>,
    generated: &StrMap<Option<TrackType>>,
    sigs: &StrMap<Option<TrackType>>,
) -> (r: Option<TrackType>)
    requires
        env.wf(),
        generated.wf(),
        sigs.wf(),
    ensures
        opt_view(r) == shallow(env.view(), generated.view(), sigs.view(), *expr),
    decreases expr, 1nat,
{
    proof {
        reveal_with_fuel(crate::ast::type_view, 3);
        broadcast use vstd::std_specs::vec::axiom_vec_decreases_to_view;
    }
    match expr {
        Expr::IntLiteral(_) => Some(TrackType::I32),
        Expr::BoolLiteral(_) => Some(TrackType::Bool),
        Expr::StringLiteral(_) => {
            let i = TrackType::I32;
            proof {
                assert(i@ == TypeV::I32);
            }
            Some(TrackType::Ptr(Box::new(i)))
        },
        Expr::Variable(name) => match env.get(name.as_str()) {
            Some(t) => Some(t.copy()),
            None => None,
        },
        Expr::BinaryOp { op, left, .. } => {
            let b = match op {
                BinOp::Eq | BinOp::Neq | BinOp::Lt | BinOp::Gt | BinOp::Lte | BinOp::Gte | BinOp::And
                | BinOp::Or => true,
                _ => false,
            };
            if b {
                Some(TrackType::Bool)
            } else {
                infer_shallow(left, env, generated, sigs)
            }
        },
        Expr::UnaryOp { op, expr: inner } => match op {
            UnaryOp::Not => Some(TrackType::Bool),
            UnaryOp::Neg => infer_shallow(inner, env, generated, sigs),
            UnaryOp::Deref => match infer_shallow(inner, env, generated, sigs) {
                Some(TrackType::Ptr(i)) => Some(*i),
                Some(TrackType::Ref(i)) => Some(*i),
                _ => None,
            },
        },
        Expr::AddressOf { target } => match infer_shallow(target, env, generated, sigs) {
            Some(t) => Some(TrackType::Ref(Box::new(t))),
            None => None,
        },
        Expr::ArrayLiteral { elements } => {
            if elements.len() > 0 {
                proof {
                    assert(decreases_to!(*expr => (*expr)->ArrayLiteral_elements));
                    assert(decreases_to!(*elements => elements@));
                    assert(decreases_to!(elements@ => elements@[0]));
                }
                match infer_shallow(&elements[0], env, generated, sigs) {
                    Some(t) => Some(TrackType::Array(Box::new(t), elements.len())),
                    None => None,
                }
            } else {
                None
            }
        },
        Expr::TupleLiteral { elements } => {
            let ghost ev = env.view();
            let ghost gv = generated.view();
            let ghost sv = sigs.view();
            let mut tys: Vec<TrackType> = Vec::new();
            let mut i: usize = 0;
            proof {
                assert(elements@.take(0) =~= Seq::<Expr>::empty());
                assert(crate::ast::types_view(tys@) =~= Seq::<TypeV>::empty());
            }
            while i < elements.len()
                invariant
                    env.wf(),
                    generated.wf(),
                    ev == env.view(),
                    gv == generated.view(),
                    sigs.wf(),
                    sv == sigs.view(),
                    (*expr) is TupleLiteral,
                    (*expr)->TupleLiteral_elements == *elements,
                    i <= elements.len(),
                    shallow_all(ev, gv, sv, elements@.take(i as int)) == Some(crate::ast::types_view(tys@)),
                decreases elements.len() - i,
            {
                proof {
                    assert(decreases_to!(*expr => (*expr)->TupleLiteral_elements));
                    assert(decreases_to!(*elements => elements@));
                    assert(decreases_to!(elements@ => elements@[i as int]));
                    assert(elements@.take(i + 1).drop_last() =~= elements@.take(i as int));
                    assert(elements@.take(i + 1).last() == elements@[i as int]);
                }
                match infer_shallow(&elements[i], env, generated, sigs) {
                    Some(t) => {
                        let ghost before = tys@;
                        tys.push(t);
                        proof {
                            assert(tys@.drop_last() =~= before);
                        }
                    },
                    None => {
                        proof {
                            lemma_shallow_all_none(ev, gv, sv, elements@, i as int);
                        }
                        return None;
                    },
                }
                i += 1;
            }
            proof {
                assert(elements@.take(elements.len() as int) =~= elements@);
            }
            Some(TrackType::Tuple(tys))
        },
        Expr::TupleIndex { target, index } => match infer_shallow(target, env, generated, sigs) {
            Some(TrackType::Tuple(elems)) => {
                proof {
                    crate::ast::lemma_types_view(elems@);
                }
                if *index < elems.len() {
                    Some(elems[*index].copy())
                } else {
                    None
                }
            },
            _ => None,
        },
        Expr::ArrayIndex { target, .. } => match infer_shallow(target, env, generated, sigs) {
            Some(TrackType::Array(i, _)) => Some(*i),
            Some(TrackType::Slice(i)) => Some(*i),
            _ => None,
        },
        Expr::StructInitialization { ty_name, .. } => Some(TrackType::Custom(ty_name.clone())),
        Expr::LetDef { value, .. } => infer_shallow(value, env, generated, sigs),
        Expr::IfElse { then_body, .. } => {
            if then_body.len() > 0 {
                proof {
                    assert(decreases_to!(*expr => (*expr)->IfElse_then_body));
                    assert(decreases_to!(*then_body => then_body@));
                    assert(decreases_to!(then_body@ => then_body@[then_body@.len() - 1]));
                }
                infer_shallow(&then_body[then_body.len() - 1], env, generated, sigs)
            } else {
                None
            }
        },
        Expr::FunctionCall { name, .. } => match generated.get(name.as_str()) {
            Some(Some(t)) => Some(t.copy()),
            Some(None) => None,
            None => match sigs.get(name.as_str()) {
                Some(Some(t)) => Some(t.copy()),
                _ => None,
            },
        },
        _ => None,
    }
}

proof fn lemma_shallow_all_none(
    env: Map<Seq<char>, TypeV>,
    gen: Map<Seq<char>, Option<TypeV>>,
    sigs: Map<Seq<char>, Option<TypeV>>,
    s: Seq<Expr>,
    i: int,
)
    requires
        0 <= i < s.len(),
        shallow(env, gen, sigs, s[i]) is None,
    ensures
        shallow_all(env, gen, sigs, s) is None,
    decreases s.len(),
{
    if s.len() == i + 1 {
    } else {
        lemma_shallow_all_none(env, gen, sigs, s.drop_last(), i);
    }
}

/// The types that a destructuring pattern records for the names it binds,
/// given the element types of the value: a name takes the first type, a
/// tuple binds each part to its element in turn, others bind nothing.
pub open spec fn bind_types(p: Pattern, elems: Seq<TypeV>, env: Map<Seq<char>, TypeV>) -> Map<Seq<char>, TypeV>
    decreases p, 1nat, 0nat,
{
    match p {
        Pattern::Tuple(ps) => bind_parts(ps@, elems, env, if ps@.len() < elems.len() {
            ps@.len() as int
        } else {
            elems.len() as int
        }),
        Pattern::Ident(name) => if elems.len() > 0 {
            env.insert(name@, elems[0])
        } else {
            env
        },
        _ => env,
    }
}

/// The first `n` parts of a tuple pattern bound in turn.
pub open spec fn bind_parts(ps: Seq<Pattern>, elems: Seq<TypeV>, env: Map<Seq<char>, TypeV>, n: int) -> Map<
    Seq<char>,
    TypeV,
>
    decreases ps, 0nat, n,
{
    if n <= 0 || n > ps.len() || n > elems.len() {
        env
    } else {
        bind_types(ps[n - 1], seq![elems[n - 1]], bind_parts(ps, elems, env, n - 1))
    }
}

/// Records the types of the names a destructuring pattern binds, where the
/// value's tuple shape gives them.
fn bind_pattern(pattern: &Pattern, elems: &Vec<TrackType>, env: &mut StrMap<TrackType>)
    requires
        old(env).wf(),
    ensures
        final(env).wf(),
        final(env).view() == bind_types(*pattern, crate::ast::types_view(elems@), old(env).view()),
    decreases pattern,
{
    proof {
        crate::ast::lemma_types_view(elems@);
    }
    match pattern {
        Pattern::Tuple(pats) => {
            let ghost ev = crate::ast::types_view(elems@);
            let ghost e0 = env.view();
            let mut i: usize = 0;
            while i < pats.len() && i < elems.len()
                invariant
                    env.wf(),
                    *pattern == Pattern::Tuple(*pats),
                    i <= pats.len(),
                    i <= elems.len(),
                    ev == crate::ast::types_view(elems@),
                    ev.len() == elems@.len(),
                    forall|k: int| 0 <= k < elems@.len() ==> ev[k] == (#[trigger] elems@[k])@,
                    env.view() == bind_parts(pats@, ev, e0, i as int),
                decreases pats.len() - i,
            {
                proof {
                    broadcast use vstd::std_specs::vec::axiom_vec_decreases_to_view;
                    assert(decreases_to!(*pattern => (*pattern)->Tuple_0));
                    assert(decreases_to!(*pats => pats@));
                    assert(decreases_to!(pats@ => pats@[i as int]));
                }
                let one = vec![elems[i].copy()];
                proof {
                    crate::ast::lemma_types_view(one@);
                    assert(crate::ast::types_view(one@) =~= seq![ev[i as int]]);
                }
                bind_pattern(&pats[i], &one, env);
                i += 1;
            }
        },
        Pattern::Ident(name) => {
            if elems.len() > 0 {
                env.insert(name.clone(), elems[0].copy());
            }
        },
        _ => {},
    }
}

/// The statement `e` with the type annotations that an instance rewrites
/// substituted by `m`: those of `let`, within returned values, loop
/// conditions and ranges, blocks, match targets, guards and arms, call
/// arguments and assignments. An `if` condition and macro bodies are kept.
pub open spec fn subst_stmt(e: Expr, m: Map<Seq<char>, TypeV>) -> ExprV
    decreases e, 0nat,
{
    match e {
        Expr::LetDef { name, mutable, ty, value } => ExprV::LetDef(
            name@,
            mutable,
            match ty {
                Some(t) => Some(subst_ty(t@, m)),
                None => None,
            },
            Box::new(subst_stmt(*value, m)),
        ),
        Expr::Return { value } => ExprV::Return(
            match value {
                Some(v) => Some(Box::new(subst_stmt(*v, m))),
                None => None,
            },
        ),
        Expr::IfElse { condition, then_body, else_body } => ExprV::IfElse(
            Box::new(crate::ast::expr_v(*condition)),
            subst_stmts(then_body@, m),
            subst_stmts(else_body@, m),
        ),
        Expr::WhileLoop { condition, body } => ExprV::WhileLoop(Box::new(subst_stmt(*condition, m)), subst_stmts(body@, m)),
        Expr::ForIn { var, iter, body } => ExprV::ForIn(var@, Box::new(subst_stmt(*iter, m)), subst_stmts(body@, m)),
        Expr::LensBlock { target, lens_name, body } => ExprV::LensBlock(target@, lens_name@, subst_stmts(body@, m)),
        Expr::Match { target, arms } => ExprV::Match(Box::new(subst_stmt(*target, m)), subst_arms_v(arms@, m)),
        Expr::FunctionCall { name, args } => ExprV::FunctionCall(name@, subst_stmts(args@, m)),
        Expr::MacroCall { name, args, body } => ExprV::MacroCall(
            name@,
            subst_stmts(args@, m),
            match body {
                Some(b) => Some(crate::ast::exprs_v(b@)),
                None => None,
            },
        ),
        Expr::Assign { target, value } => ExprV::Assign(Box::new(subst_stmt(*target, m)), Box::new(subst_stmt(*value, m))),
        _ => crate::ast::expr_v(e),
    }
}

/// `subst_stmt` of each statement.
pub open spec fn subst_stmts(s: Seq<Expr>, m: Map<Seq<char>, TypeV>) -> Seq<ExprV>
    decreases s, 1nat,
{
    if s.len() == 0 {
        Seq::empty()
    } else {
        subst_stmts(s.drop_last(), m).push(subst_stmt(s.last(), m))
    }
}

/// Match arms with guards and bodies substituted, patterns kept.
pub open spec fn subst_arms_v(s: Seq<MatchArm>, m: Map<Seq<char>, TypeV>) -> Seq<(PatternV, Option<ExprV>, ExprV)>
    decreases s, 1nat,
{
    if s.len() == 0 {
        Seq::empty()
    } else {
        subst_arms_v(s.drop_last(), m).push(
            (
                crate::ast::pattern_v(s.last().pattern),
                match s.last().guard {
                    Some(g) => Some(subst_stmt(g, m)),
                    None => None,
                },
                subst_stmt(s.last().body, m),
            ),
        )
    }
}

fn subst_opt_box(e: Option<Box<Expr>>, subst: &StrMap<TrackType>) -> (r: Option<Box<Expr>>)
    requires
        subst.wf(),
    ensures
        match (r, e) {
            (Some(a), Some(b)) => (*a)@ == subst_stmt(*b, subst.view()),
            (None, None) => true,
            _ => false,
        },
    decreases e, 1nat,
{
    match e {
        Some(b) => Some(Box::new(substitute_stmt_types(*b, subst))),
        None => None,
    }
}

fn subst_list(whole: Ghost<Expr>, v: Vec<Expr>, subst: &StrMap<TrackType>) -> (r: Vec<Expr>)
    requires
        subst.wf(),
        crate::ast::decreases_into(whole@, v@),
    ensures
        crate::ast::exprs_v(r@) == subst_stmts(v@, subst.view()),
    decreases whole@, 0nat,
{
    let ghost v0 = v@;
    let mut v = v;
    let mut out: Vec<Expr> = Vec::new();
    proof {
        assert(v0.take(0) =~= Seq::<Expr>::empty());
        assert(v@ =~= v0.subrange(0, v0.len() as int));
    }
    while v.len() > 0
        invariant
            subst.wf(),
            crate::ast::decreases_into(whole@, v@),
            out@.len() <= v0.len(),
            v@ == v0.subrange(out@.len() as int, v0.len() as int),
            crate::ast::exprs_v(out@) == subst_stmts(v0.take(out@.len() as int), subst.view()),
        decreases v.len(),
    {
        let ghost k = out@.len() as int;
        proof {
            crate::ast::lemma_decreases_into(whole@, v@, 0);
        }
        let ghost before = v@;
        let e = v.remove(0);
        proof {
            assert forall|i: int| 0 <= i < v@.len() implies #[trigger] (decreases_to!(whole@ => v@[i])) by {
                assert(v@[i] == before[i + 1]);
                crate::ast::lemma_decreases_into(whole@, before, i + 1);
            }
        }
        let x = substitute_stmt_types(e, subst);
        let ghost prev = out@;
        out.push(x);
        proof {
            assert(e == v0[k]);
            assert(v@ =~= v0.subrange(k + 1, v0.len() as int));
            assert(out@.drop_last() =~= prev);
            assert(v0.take(k + 1).drop_last() =~= v0.take(k));
        }
    }
    proof {
        assert(v0.take(v0.len() as int) =~= v0);
    }
    out
}

fn subst_arms(whole: Ghost<Expr>, arms: Vec<MatchArm>, subst: &StrMap<TrackType>) -> (r: Vec<MatchArm>)
    requires
        subst.wf(),
        forall|i: int| 0 <= i < arms@.len() ==> #[trigger] (decreases_to!(whole@ => arms@[i])),
    ensures
        crate::ast::arms_v(r@) == subst_arms_v(arms@, subst.view()),
    decreases whole@, 0nat,
{
    let ghost v0 = arms@;
    let mut arms = arms;
    let mut out: Vec<MatchArm> = Vec::new();
    proof {
        assert(v0.take(0) =~= Seq::<MatchArm>::empty());
        assert(arms@ =~= v0.subrange(0, v0.len() as int));
    }
    while arms.len() > 0
        invariant
            subst.wf(),
            forall|i: int| 0 <= i < arms@.len() ==> #[trigger] (decreases_to!(whole@ => arms@[i])),
            out@.len() <= v0.len(),
            arms@ == v0.subrange(out@.len() as int, v0.len() as int),
            crate::ast::arms_v(out@) == subst_arms_v(v0.take(out@.len() as int), subst.view()),
        decreases arms.len(),
    {
        let ghost k = out@.len() as int;
        let ghost a0 = arms@[0];
        proof {
            assert(decreases_to!(whole@ => arms@[0]));
        }
        let ghost before = arms@;
        let arm = arms.remove(0);
        proof {
            assert forall|i: int| 0 <= i < arms@.len() implies #[trigger] (decreases_to!(whole@ => arms@[i])) by {
                assert(arms@[i] == before[i + 1]);
                assert(decreases_to!(whole@ => before[i + 1]));
            }
            assert(arm == a0);
            assert(decreases_to!(a0 => a0.body));
            assert(decreases_to!(a0 => a0.guard));
        }
        let MatchArm { pattern, guard, body } = arm;
        let g = match guard {
            Some(ge) => {
                proof {
                    assert(decreases_to!(a0.guard => ge));
                }
                Some(substitute_stmt_types(ge, subst))
            },
            None => None,
        };
        let b = substitute_stmt_types(body, subst);
        let ghost prev = out@;
        out.push(MatchArm { pattern, guard: g, body: b });
        proof {
            assert(arm == v0[k]);
            assert(arms@ =~= v0.subrange(k + 1, v0.len() as int));
            assert(out@.drop_last() =~= prev);
            assert(v0.take(k + 1).drop_last() =~= v0.take(k));
        }
    }
    proof {
        assert(v0.take(v0.len() as int) =~= v0);
    }
    out
}

/// Rewrites the type annotations inside an instance's statement with the
/// template's bindings.
fn substitute_stmt_types(expr: Expr, subst: &StrMap<TrackType>) -> (r: Expr)
    requires
        subst.wf(),
    ensures
        r@ == subst_stmt(expr, subst.view()),
    decreases expr, 1nat,
{
    proof {
        broadcast use vstd::std_specs::vec::axiom_vec_decreases_to_view;
    }
    let ghost whole = expr;
    match expr {
        Expr::LetDef { name, mutable, ty, value } => {
            let t = match ty {
                Some(t) => Some(substitute_ty(&t, subst)),
                None => None,
            };
            Expr::LetDef { name, mutable, ty: t, value: Box::new(substitute_stmt_types(*value, subst)) }
        },
        Expr::Return { value } => Expr::Return { value: subst_opt_box(value, subst) },
        Expr::IfElse { condition, then_body, else_body } => {
            proof {
                crate::ast::lemma_vec_field(whole, then_body);
                crate::ast::lemma_vec_field(whole, else_body);
            }
            Expr::IfElse {
                condition,
                then_body: subst_list(Ghost(whole), then_body, subst),
                else_body: subst_list(Ghost(whole), else_body, subst),
            }
        },
        Expr::WhileLoop { condition, body } => {
            proof {
                crate::ast::lemma_vec_field(whole, body);
            }
            Expr::WhileLoop {
                condition: Box::new(substitute_stmt_types(*condition, subst)),
                body: subst_list(Ghost(whole), body, subst),
            }
        },
        Expr::ForIn { var, iter, body } => {
            proof {
                crate::ast::lemma_vec_field(whole, body);
            }
            Expr::ForIn {
                var,
                iter: Box::new(substitute_stmt_types(*iter, subst)),
                body: subst_list(Ghost(whole), body, subst),
            }
        },
        Expr::LensBlock { target, lens_name, body } => {
            proof {
                crate::ast::lemma_vec_field(whole, body);
            }
            Expr::LensBlock { target, lens_name, body: subst_list(Ghost(whole), body, subst) }
        },
        Expr::Match { target, arms } => {
            let t = substitute_stmt_types(*target, subst);
            proof {
                assert(decreases_to!(whole => whole->Match_arms));
                assert(decreases_to!(whole->Match_arms => arms@));
                assert forall|i: int| 0 <= i < arms@.len() implies #[trigger] (decreases_to!(whole => arms@[i])) by {
                    assert(decreases_to!(arms@ => arms@[i]));
                }
            }
            Expr::Match { target: Box::new(t), arms: subst_arms(Ghost(whole), arms, subst) }
        },
        Expr::FunctionCall { name, args } => {
            proof {
                crate::ast::lemma_vec_field(whole, args);
            }
            Expr::FunctionCall { name, args: subst_list(Ghost(whole), args, subst) }
        },
        Expr::MacroCall { name, args, body } => {
            proof {
                crate::ast::lemma_vec_field(whole, args);
            }
            Expr::MacroCall { name, args: subst_list(Ghost(whole), args, subst), body }
        },
        Expr::Assign { target, value } => {
            let v = substitute_stmt_types(*value, subst);
            let t = substitute_stmt_types(*target, subst);
            Expr::Assign { target: Box::new(t), value: Box::new(v) }
        },
        other => other,
    }
}

/// What a walk keeps of an expression: the expression with the names of
/// the calls that the walk reaches left out (those are what it rewrites),
/// and whether it reaches any call.
pub open spec fn walked(e: Expr) -> (ExprV, bool)
    decreases e, 0nat,
{
    match e {
        Expr::FnDef { name, generics, params, return_type, body } => {
            let b = walked_list(body@);
            (
                ExprV::FnDef(
                    name@,
                    crate::ast::strs_v(generics@),
                    crate::ast::params_v(params@),
                    crate::ast::opt_type_v(return_type),
                    b.0,
                ),
                b.1,
            )
        },
        Expr::MacroDef { name, params, return_type, body } => {
            let b = walked_list(body@);
            (ExprV::MacroDef(name@, crate::ast::params_v(params@), crate::ast::opt_type_v(return_type), b.0), b.1)
        },
        Expr::LetDef { name, mutable, ty, value } => {
            let v = walked(*value);
            (ExprV::LetDef(name@, mutable, crate::ast::opt_type_v(ty), Box::new(v.0)), v.1)
        },
        Expr::LetDestructure { pattern, mutable, value } => {
            let v = walked(*value);
            (ExprV::LetDestructure(crate::ast::pattern_v(pattern), mutable, Box::new(v.0)), v.1)
        },
        Expr::Assign { target, value } => {
            let t = walked(*target);
            let v = walked(*value);
            (ExprV::Assign(Box::new(t.0), Box::new(v.0)), t.1 || v.1)
        },
        Expr::ConstDef { name, value } => {
            let v = walked(*value);
            (ExprV::ConstDef(name@, Box::new(v.0)), v.1)
        },
        Expr::Range { start, end } => {
            let a = walked(*start);
            let b = walked(*end);
            (ExprV::Range(Box::new(a.0), Box::new(b.0)), a.1 || b.1)
        },
        Expr::Return { value } => match value {
            Some(x) => {
                let v = walked(*x);
                (ExprV::Return(Some(Box::new(v.0))), v.1)
            },
            None => (ExprV::Return(None), false),
        },
        Expr::IfElse { condition, then_body, else_body } => {
            let c = walked(*condition);
            let t = walked_list(then_body@);
            let f = walked_list(else_body@);
            (ExprV::IfElse(Box::new(c.0), t.0, f.0), c.1 || t.1 || f.1)
        },
        Expr::WhileLoop { condition, body } => {
            let c = walked(*condition);
            let b = walked_list(body@);
            (ExprV::WhileLoop(Box::new(c.0), b.0), c.1 || b.1)
        },
        Expr::ForIn { var, iter, body } => {
            let c = walked(*iter);
            let b = walked_list(body@);
            (ExprV::ForIn(var@, Box::new(c.0), b.0), c.1 || b.1)
        },
        Expr::LensBlock { target, lens_name, body } => {
            let b = walked_list(body@);
            (ExprV::LensBlock(target@, lens_name@, b.0), b.1)
        },
        Expr::Match { target, arms } => {
            let t = walked(*target);
            let a = walked_arms(arms@);
            (ExprV::Match(Box::new(t.0), a.0), t.1 || a.1)
        },
        Expr::FunctionCall { name, args } => {
            let a = walked_list(args@);
            (ExprV::FunctionCall(Seq::empty(), a.0), true)
        },
        Expr::MacroCall { name, args, body } => {
            let a = walked_list(args@);
            match body {
                Some(bv) => {
                    let b = walked_list(bv@);
                    (ExprV::MacroCall(name@, a.0, Some(b.0)), a.1 || b.1)
                },
                None => (ExprV::MacroCall(name@, a.0, None), a.1),
            }
        },
        Expr::UnaryOp { op, expr } => {
            let x = walked(*expr);
            (ExprV::UnaryOp(op, Box::new(x.0)), x.1)
        },
        Expr::AddressOf { target } => {
            let x = walked(*target);
            (ExprV::AddressOf(Box::new(x.0)), x.1)
        },
        Expr::ArrayIndex { target, index } => {
            let x = walked(*target);
            let i = walked(*index);
            (ExprV::ArrayIndex(Box::new(x.0), Box::new(i.0)), x.1 || i.1)
        },
        Expr::SliceIndex { target, start, end } => {
            let x = walked(*target);
            let a: (Option<Box<ExprV>>, bool) = match start {
                Some(y) => (Some(Box::new(walked(*y).0)), walked(*y).1),
                None => (None, false),
            };
            let b: (Option<Box<ExprV>>, bool) = match end {
                Some(y) => (Some(Box::new(walked(*y).0)), walked(*y).1),
                None => (None, false),
            };
            (ExprV::SliceIndex(Box::new(x.0), a.0, b.0), x.1 || a.1 || b.1)
        },
        Expr::TupleIndex { target, index } => {
            let x = walked(*target);
            (ExprV::TupleIndex(Box::new(x.0), index), x.1)
        },
        Expr::BinaryOp { op, left, right } => {
            let l = walked(*left);
            let r = walked(*right);
            (ExprV::BinaryOp(op, Box::new(l.0), Box::new(r.0)), l.1 || r.1)
        },
        Expr::ArrayLiteral { elements } => {
            let x = walked_list(elements@);
            (ExprV::ArrayLiteral(x.0), x.1)
        },
        Expr::TupleLiteral { elements } => {
            let x = walked_list(elements@);
            (ExprV::TupleLiteral(x.0), x.1)
        },
        Expr::StructInitialization { ty_name, fields } => {
            let x = walked_fields(fields@);
            (ExprV::StructInitialization(ty_name@, x.0), x.1)
        },
        _ => (crate::ast::expr_v(e), false),
    }
}

/// `walked` of each statement of a list.
pub open spec fn walked_list(s: Seq<Expr>) -> (Seq<ExprV>, bool)
    decreases s, 1nat,
{
    if s.len() == 0 {
        (Seq::empty(), false)
    } else {
        let a = walked_list(s.drop_last());
        let b = walked(s.last());
        (a.0.push(b.0), a.1 || b.1)
    }
}

/// `walked` of the guards and bodies of match arms; patterns are kept.
pub open spec fn walked_arms(s: Seq<MatchArm>) -> (Seq<(PatternV, Option<ExprV>, ExprV)>, bool)
    decreases s, 1nat,
{
    if s.len() == 0 {
        (Seq::empty(), false)
    } else {
        let a = walked_arms(s.drop_last());
        let arm = s.last();
        let g: (Option<ExprV>, bool) = match arm.guard {
            Some(x) => (Some(walked(x).0), walked(x).1),
            None => (None, false),
        };
        let b = walked(arm.body);
        (a.0.push((crate::ast::pattern_v(arm.pattern), g.0, b.0)), a.1 || g.1 || b.1)
    }
}

/// `walked` of the values of struct literal fields.
pub open spec fn walked_fields(s: Seq<(String, Expr)>) -> (Seq<(Seq<char>, ExprV)>, bool)
    decreases s, 1nat,
{
    if s.len() == 0 {
        (Seq::empty(), false)
    } else {
        let a = walked_fields(s.drop_last());
        let b = walked(s.last().1);
        (a.0.push((s.last().0@, b.0)), a.1 || b.1)
    }
}

/// The names of the templates in a list.
spec fn tpl_names(l: Seq<(String, Template)>) -> Set<Seq<char>> {
    Set::new(|x: Seq<char>| in_tpls(l, x))
}

/// The names of the generic functions of a program.
pub open spec fn template_names(p: Seq<Expr>) -> Set<Seq<char>> {
    Set::new(|x: Seq<char>| defined_before(p, p.len() as int, x))
}

/// A call of `n` in the input comes back as a call of `n2`: where `n`
/// names a template, under a mangled name of an instance of it; otherwise
/// unchanged.
pub open spec fn call_renamed(tn: Set<Seq<char>>, n: Seq<char>, n2: Seq<char>) -> bool {
    if base_of(n) == n && tn.contains(n) {
        exists|keys: Seq<Seq<char>>, m: Map<Seq<char>, TypeV>| n2 == #[trigger] crate::mono::types::mangled(n, keys, m)
    } else {
        n2 == n
    }
}

/// `r` is `e` with each call that a walk reaches renamed as `call_renamed`
/// allows.
pub open spec fn renamed(tn: Set<Seq<char>>, e: Expr, r: Expr) -> bool
    decreases e, 0nat,
{
    match (e, r) {
        (Expr::FunctionCall { name, args }, Expr::FunctionCall { name: n2, args: a2 }) => call_renamed(tn, name@, n2@)
            && renamed_list(tn, args@, a2@),
        (Expr::FnDef { body, .. }, Expr::FnDef { body: b2, .. }) => renamed_list(tn, body@, b2@),
        (Expr::MacroDef { body, .. }, Expr::MacroDef { body: b2, .. }) => renamed_list(tn, body@, b2@),
        (Expr::LetDef { value, .. }, Expr::LetDef { value: v2, .. }) => renamed(tn, *value, *v2),
        (Expr::LetDestructure { value, .. }, Expr::LetDestructure { value: v2, .. }) => renamed(tn, *value, *v2),
        (Expr::Assign { target, value }, Expr::Assign { target: t2, value: v2 }) => renamed(tn, *target, *t2)
            && renamed(tn, *value, *v2),
        (Expr::ConstDef { value, .. }, Expr::ConstDef { value: v2, .. }) => renamed(tn, *value, *v2),
        (Expr::Range { start, end }, Expr::Range { start: s2, end: e2 }) => renamed(tn, *start, *s2) && renamed(tn,
            *end,
            *e2,
        ),
        (Expr::Return { value: Some(v) }, Expr::Return { value: Some(v2) }) => renamed(tn, *v, *v2),
        (Expr::IfElse { condition, then_body, else_body }, Expr::IfElse {
            condition: c2,
            then_body: t2,
            else_body: f2,
        }) => renamed(tn, *condition, *c2) && renamed_list(tn, then_body@, t2@) && renamed_list(tn, else_body@, f2@),
        (Expr::WhileLoop { condition, body }, Expr::WhileLoop { condition: c2, body: b2 }) => renamed(tn,
            *condition,
            *c2,
        ) && renamed_list(tn, body@, b2@),
        (Expr::ForIn { iter, body, .. }, Expr::ForIn { iter: i2, body: b2, .. }) => renamed(tn, *iter, *i2)
            && renamed_list(tn, body@, b2@),
        (Expr::LensBlock { body, .. }, Expr::LensBlock { body: b2, .. }) => renamed_list(tn, body@, b2@),
        (Expr::Match { target, arms }, Expr::Match { target: t2, arms: a2 }) => renamed(tn, *target, *t2)
            && renamed_arms(tn, arms@, a2@),
        (Expr::MacroCall { args, body, .. }, Expr::MacroCall { args: a2, body: b2, .. }) => renamed_list(tn,
            args@,
            a2@,
        ) && match (body, b2) {
            (Some(x), Some(y)) => renamed_list(tn, x@, y@),
            _ => true,
        },
        (Expr::UnaryOp { expr, .. }, Expr::UnaryOp { expr: x2, .. }) => renamed(tn, *expr, *x2),
        (Expr::AddressOf { target }, Expr::AddressOf { target: t2 }) => renamed(tn, *target, *t2),
        (Expr::ArrayIndex { target, index }, Expr::ArrayIndex { target: t2, index: i2 }) => renamed(tn, *target, *t2)
            && renamed(tn, *index, *i2),
        (Expr::SliceIndex { target, start, end }, Expr::SliceIndex { target: t2, start: s2, end: e2 }) => renamed(tn,
            *target,
            *t2,
        ) && match (start, s2) {
            (Some(x), Some(y)) => renamed(tn, *x, *y),
            _ => true,
        } && match (end, e2) {
            (Some(x), Some(y)) => renamed(tn, *x, *y),
            _ => true,
        },
        (Expr::TupleIndex { target, .. }, Expr::TupleIndex { target: t2, .. }) => renamed(tn, *target, *t2),
        (Expr::BinaryOp { left, right, .. }, Expr::BinaryOp { left: l2, right: r2, .. }) => renamed(tn, *left, *l2)
            && renamed(tn, *right, *r2),
        (Expr::ArrayLiteral { elements }, Expr::ArrayLiteral { elements: x2 }) => renamed_list(tn, elements@, x2@),
        (Expr::TupleLiteral { elements }, Expr::TupleLiteral { elements: x2 }) => renamed_list(tn, elements@, x2@),
        (Expr::StructInitialization { fields, .. }, Expr::StructInitialization { fields: f2, .. }) => renamed_fields(tn,
            fields@,
            f2@,
        ),
        _ => true,
    }
}

/// `renamed` of each statement of a list, in place.
pub open spec fn renamed_list(tn: Set<Seq<char>>, s: Seq<Expr>, t: Seq<Expr>) -> bool
    decreases s, 1nat,
{
    &&& s.len() == t.len()
    &&& s.len() > 0 ==> renamed_list(tn, s.drop_last(), t.drop_last()) && renamed(tn, s.last(), t.last())
}

/// `renamed` of the guards and bodies of match arms.
pub open spec fn renamed_arms(tn: Set<Seq<char>>, s: Seq<MatchArm>, t: Seq<MatchArm>) -> bool
    decreases s, 1nat,
{
    &&& s.len() == t.len()
    &&& s.len() > 0 ==> {
        &&& renamed_arms(tn, s.drop_last(), t.drop_last())
        &&& renamed(tn, s.last().body, t.last().body)
        &&& match (s.last().guard, t.last().guard) {
            (Some(x), Some(y)) => renamed(tn, x, y),
            _ => true,
        }
    }
}

/// `renamed` of the values of struct literal fields.
pub open spec fn renamed_fields(tn: Set<Seq<char>>, s: Seq<(String, Expr)>, t: Seq<(String, Expr)>) -> bool
    decreases s, 1nat,
{
    &&& s.len() == t.len()
    &&& s.len() > 0 ==> renamed_fields(tn, s.drop_last(), t.drop_last()) && renamed(tn, s.last().1, t.last().1)
}

proof fn lemma_walked_list_calls(s: Seq<Expr>)
    ensures
        !walked_list(s).1 ==> forall|i: int| 0 <= i < s.len() ==> !(#[trigger] walked(s[i])).1,
    decreases s.len(),
{
    if s.len() > 0 && !walked_list(s).1 {
        let d = s.drop_last();
        lemma_walked_list_calls(d);
        assert(!walked_list(d).1);
        assert forall|i: int| 0 <= i < s.len() implies !(#[trigger] walked(s[i])).1 by {
            if i < s.len() - 1 {
                assert(s[i] == d[i]);
            }
        }
    }
}

proof fn lemma_walked_arms_calls(s: Seq<MatchArm>)
    ensures
        !walked_arms(s).1 ==> forall|i: int| 0 <= i < s.len() ==> #[trigger] arm_walks_no_call(s[i]),
    decreases s.len(),
{
    if s.len() > 0 && !walked_arms(s).1 {
        let d = s.drop_last();
        lemma_walked_arms_calls(d);
        assert(!walked_arms(d).1);
        assert forall|i: int| 0 <= i < s.len() implies #[trigger] arm_walks_no_call(s[i]) by {
            if i < s.len() - 1 {
                assert(s[i] == d[i]);
            }
        }
    }
}

/// The walk reaches no call in the guard or the body of the arm.
pub open spec fn arm_walks_no_call(a: MatchArm) -> bool {
    &&& !walked(a.body).1
    &&& a.guard matches Some(g) ==> !walked(g).1
}

proof fn lemma_walked_fields_calls(s: Seq<(String, Expr)>)
    ensures
        !walked_fields(s).1 ==> forall|i: int| 0 <= i < s.len() ==> !walked((#[trigger] s[i]).1).1,
    decreases s.len(),
{
    if s.len() > 0 && !walked_fields(s).1 {
        let d = s.drop_last();
        lemma_walked_fields_calls(d);
        assert(!walked_fields(d).1);
        assert forall|i: int| 0 <= i < s.len() implies !walked((#[trigger] s[i]).1).1 by {
            if i < s.len() - 1 {
                assert(s[i] == d[i]);
            }
        }
    }
}

fn walk_box(
    whole: Ghost<Expr>,
    e: Box<Expr>,
    env: &mut StrMap<TrackType>,
    tpls: &Templates,
    st: &mut MonoState,
) -> (r: Result<Box<Expr>, String>)
    requires
        old(env).wf(),
        old(st).ok(),
        made_from(old(st).defs@, tpls.list@),
        decreases_to!(whole@ => *e),
    ensures
        final(env).wf(),
        final(st).ok(),
        made_from(final(st).defs@, tpls.list@),
        final(st).in_progress@ == old(st).in_progress@,
        r is Ok ==> walked(*r->Ok_0).0 == walked(*e).0,
        r is Ok ==> renamed(tpl_names(tpls.list@), *e, *r->Ok_0),
        !walked(*e).1 ==> r is Ok,
    decreases old(st).budget(), whole@, 0nat,
{
    let w = walk(*e, env, tpls, st)?;
    Ok(Box::new(w))
}

/// Walks each statement of a list in order; with `fresh`, each one in a
/// copy of the scope, so that its declarations do not reach the next.
fn walk_list(
    whole: Ghost<Expr>,
    v: Vec<Expr>,
    env: &mut StrMap<TrackType>,
    tpls: &Templates,
    st: &mut MonoState,
    fresh: bool,
) -> (r: Result<Vec<Expr>, String>)
    requires
        old(env).wf(),
        old(st).ok(),
        made_from(old(st).defs@, tpls.list@),
        crate::ast::decreases_into(whole@, v@),
    ensures
        final(env).wf(),
        final(st).ok(),
        made_from(final(st).defs@, tpls.list@),
        final(st).in_progress@ == old(st).in_progress@,
        r is Ok ==> walked_list(r->Ok_0@).0 == walked_list(v@).0,
        r is Ok ==> renamed_list(tpl_names(tpls.list@), v@, r->Ok_0@),
        !walked_list(v@).1 ==> r is Ok,
    decreases old(st).budget(), whole@, 0nat,
{
    let ghost v0 = v@;
    proof {
        lemma_walked_list_calls(v0);
        assert(v0.take(0) =~= Seq::<Expr>::empty());
        assert(v@ =~= v0.subrange(0, v0.len() as int));
    }
    let mut rest = v;
    let mut out: Vec<Expr> = Vec::new();
    let ghost ip = st.in_progress@;
    while rest.len() > 0
        invariant
            v0 == v@,
            env.wf(),
            st.ok(),
            made_from(st.defs@, tpls.list@),
            st.in_progress@ == ip,
            ip == old(st).in_progress@,
            crate::ast::decreases_into(whole@, rest@),
            out@.len() <= v0.len(),
            rest@ == v0.subrange(out@.len() as int, v0.len() as int),
            walked_list(out@).0 == walked_list(v0.take(out@.len() as int)).0,
            renamed_list(tpl_names(tpls.list@), v0.take(out@.len() as int), out@),
            !walked_list(v0).1 ==> forall|i: int| 0 <= i < v0.len() ==> !(#[trigger] walked(v0[i])).1,
        decreases rest.len(),
    {
        let ghost k = out@.len() as int;
        proof {
            crate::ast::lemma_decreases_into(whole@, rest@, 0);
        }
        let ghost before = rest@;
        let e = rest.remove(0);
        proof {
            assert forall|i: int| 0 <= i < rest@.len() implies #[trigger] (decreases_to!(whole@ => rest@[i])) by {
                assert(rest@[i] == before[i + 1]);
                crate::ast::lemma_decreases_into(whole@, before, i + 1);
            }
            assert(e == v0[k]);
            assert(!walked_list(v0).1 ==> !walked(e).1);
        }
        let ghost eg = e;
        let res = if fresh {
            let mut branch = env.deep_copy();
            walk(e, &mut branch, tpls, st)
        } else {
            walk(e, env, tpls, st)
        };
        let w = match res {
            Ok(w) => w,
            Err(m) => {
                proof {
                    assert(walked(eg).1);
                    assert(walked_list(v0).1);
                }
                return Err(m);
            },
        };
        let ghost prev = out@;
        out.push(w);
        proof {
            assert(e == v0[k]);
            assert(rest@ =~= v0.subrange(k + 1, v0.len() as int));
            assert(out@.drop_last() =~= prev);
            assert(v0.take(k + 1).drop_last() =~= v0.take(k));
        }
    }
    proof {
        assert(v0.take(v0.len() as int) =~= v0);
    }
    Ok(out)
}

fn walk_arms(
    whole: Ghost<Expr>,
    arms: Vec<MatchArm>,
    env: &mut StrMap<TrackType>,
    tpls: &Templates,
    st: &mut MonoState,
) -> (r: Result<Vec<MatchArm>, String>)
    requires
        old(env).wf(),
        old(st).ok(),
        made_from(old(st).defs@, tpls.list@),
        forall|i: int| 0 <= i < arms@.len() ==> #[trigger] (decreases_to!(whole@ => arms@[i])),
    ensures
        final(env).wf(),
        final(st).ok(),
        made_from(final(st).defs@, tpls.list@),
        final(st).in_progress@ == old(st).in_progress@,
        r is Ok ==> walked_arms(r->Ok_0@).0 == walked_arms(arms@).0,
        r is Ok ==> renamed_arms(tpl_names(tpls.list@), arms@, r->Ok_0@),
        !walked_arms(arms@).1 ==> r is Ok,
    decreases old(st).budget(), whole@, 0nat,
{
    let ghost v0 = arms@;
    proof {
        lemma_walked_arms_calls(v0);
        assert(v0.take(0) =~= Seq::<MatchArm>::empty());
        assert(arms@ =~= v0.subrange(0, v0.len() as int));
    }
    let mut rest = arms;
    let mut out: Vec<MatchArm> = Vec::new();
    let ghost ip = st.in_progress@;
    while rest.len() > 0
        invariant
            v0 == arms@,
            env.wf(),
            st.ok(),
            made_from(st.defs@, tpls.list@),
            st.in_progress@ == ip,
            ip == old(st).in_progress@,
            forall|i: int| 0 <= i < rest@.len() ==> #[trigger] (decreases_to!(whole@ => rest@[i])),
            out@.len() <= v0.len(),
            rest@ == v0.subrange(out@.len() as int, v0.len() as int),
            walked_arms(out@).0 == walked_arms(v0.take(out@.len() as int)).0,
            renamed_arms(tpl_names(tpls.list@), v0.take(out@.len() as int), out@),
            !walked_arms(v0).1 ==> forall|i: int| 0 <= i < v0.len() ==> #[trigger] arm_walks_no_call(v0[i]),
        decreases rest.len(),
    {
        let ghost k = out@.len() as int;
        let ghost a0 = rest@[0];
        proof {
            assert(decreases_to!(whole@ => rest@[0]));
        }
        let ghost before = rest@;
        let arm = rest.remove(0);
        proof {
            assert forall|i: int| 0 <= i < rest@.len() implies #[trigger] (decreases_to!(whole@ => rest@[i])) by {
                assert(rest@[i] == before[i + 1]);
                assert(decreases_to!(whole@ => before[i + 1]));
            }
            assert(arm == a0);
            assert(a0 == v0[k]);
            assert(decreases_to!(a0 => a0.body));
            assert(decreases_to!(a0 => a0.guard));
        }
        let MatchArm { pattern, guard, body } = arm;
        proof {
            assert(!walked_arms(v0).1 ==> arm_walks_no_call(v0[k]));
            assert(v0[k].body == body && v0[k].guard == guard);
        }
        let g = match guard {
            Some(ge) => {
                proof {
                    assert(decreases_to!(a0.guard => ge));
                }
                Some(walk(ge, env, tpls, st)?)
            },
            None => None,
        };
        let mut branch = env.deep_copy();
        let b = walk(body, &mut branch, tpls, st)?;
        let ghost prev = out@;
        out.push(MatchArm { pattern, guard: g, body: b });
        proof {
            assert(rest@ =~= v0.subrange(k + 1, v0.len() as int));
            assert(out@.drop_last() =~= prev);
            assert(v0.take(k + 1).drop_last() =~= v0.take(k));
        }
    }
    proof {
        assert(v0.take(v0.len() as int) =~= v0);
    }
    Ok(out)
}

fn walk_fields(
    whole: Ghost<Expr>,
    fields: Vec<(String, Expr)>,
    env: &mut StrMap<TrackType>,
    tpls: &Templates,
    st: &mut MonoState,
) -> (r: Result<Vec<(String, Expr)>, String>)
    requires
        old(env).wf(),
        old(st).ok(),
        made_from(old(st).defs@, tpls.list@),
        forall|i: int| 0 <= i < fields@.len() ==> #[trigger] (decreases_to!(whole@ => fields@[i])),
    ensures
        final(env).wf(),
        final(st).ok(),
        made_from(final(st).defs@, tpls.list@),
        final(st).in_progress@ == old(st).in_progress@,
        r is Ok ==> walked_fields(r->Ok_0@).0 == walked_fields(fields@).0,
        r is Ok ==> renamed_fields(tpl_names(tpls.list@), fields@, r->Ok_0@),
        !walked_fields(fields@).1 ==> r is Ok,
    decreases old(st).budget(), whole@, 0nat,
{
    let ghost v0 = fields@;
    proof {
        lemma_walked_fields_calls(v0);
        assert(v0.take(0) =~= Seq::<(String, Expr)>::empty());
        assert(fields@ =~= v0.subrange(0, v0.len() as int));
    }
    let mut rest = fields;
    let mut out: Vec<(String, Expr)> = Vec::new();
    let ghost ip = st.in_progress@;
    while rest.len() > 0
        invariant
            v0 == fields@,
            env.wf(),
            st.ok(),
            made_from(st.defs@, tpls.list@),
            st.in_progress@ == ip,
            ip == old(st).in_progress@,
            forall|i: int| 0 <= i < rest@.len() ==> #[trigger] (decreases_to!(whole@ => rest@[i])),
            out@.len() <= v0.len(),
            rest@ == v0.subrange(out@.len() as int, v0.len() as int),
            walked_fields(out@).0 == walked_fields(v0.take(out@.len() as int)).0,
            renamed_fields(tpl_names(tpls.list@), v0.take(out@.len() as int), out@),
            !walked_fields(v0).1 ==> forall|i: int| 0 <= i < v0.len() ==> !walked((#[trigger] v0[i]).1).1,
        decreases rest.len(),
    {
        let ghost k = out@.len() as int;
        let ghost f0 = rest@[0];
        proof {
            assert(decreases_to!(whole@ => rest@[0]));
        }
        let ghost before = rest@;
        let (fname, fval) = rest.remove(0);
        proof {
            assert forall|i: int| 0 <= i < rest@.len() implies #[trigger] (decreases_to!(whole@ => rest@[i])) by {
                assert(rest@[i] == before[i + 1]);
                assert(decreases_to!(whole@ => before[i + 1]));
            }
            assert(fval == f0.1);
            assert(f0 == v0[k]);
            assert(decreases_to!(f0 => f0.1));
        }
        let w = walk(fval, env, tpls, st)?;
        let ghost prev = out@;
        out.push((fname, w));
        proof {
            assert(rest@ =~= v0.subrange(k + 1, v0.len() as int));
            assert(out@.drop_last() =~= prev);
            assert(v0.take(k + 1).drop_last() =~= v0.take(k));
        }
    }
    proof {
        assert(v0.take(v0.len() as int) =~= v0);
    }
    Ok(out)
}

/// Rewrites the generic calls inside an expression to instances, making
/// each instance the first time it is needed; `env` holds the types of the
/// variables in scope.
#[verifier::rlimit(40)]
fn walk(e: Expr, env: &mut StrMap<TrackType>, tpls: &Templates, st: &mut MonoState) -> (r: Result<Expr, String>)
    requires
        old(env).wf(),
        old(st).ok(),
        made_from(old(st).defs@, tpls.list@),
    ensures
        final(env).wf(),
        final(st).ok(),
        made_from(final(st).defs@, tpls.list@),
        final(st).in_progress@ == old(st).in_progress@,
        r is Ok ==> walked(r->Ok_0).0 == walked(e).0,
        r is Ok ==> renamed(tpl_names(tpls.list@), e, r->Ok_0),
        !walked(e).1 ==> r is Ok,
    decreases old(st).budget(), e, 1nat,
{
    proof {
        broadcast use vstd::std_specs::vec::axiom_vec_decreases_to_view;
    }
    let ghost whole = e;
    match e {
        Expr::FnDef { name, generics, params, return_type, body } => {
            let mut inner = env.deep_copy();
            let mut k: usize = 0;
            while k < params.len()
                invariant
                    inner.wf(),
                    k <= params.len(),
                decreases params.len() - k,
            {
                inner.insert(params[k].0.clone(), params[k].1.copy());
                k += 1;
            }
            proof {
                crate::ast::lemma_vec_field(whole, body);
            }
            let b = walk_list(Ghost(whole), body, &mut inner, tpls, st, false)?;
            Ok(Expr::FnDef { name, generics, params, return_type, body: b })
        },
        Expr::MacroDef { name, params, return_type, body } => {
            let mut inner = env.deep_copy();
            let mut k: usize = 0;
            while k < params.len()
                invariant
                    inner.wf(),
                    k <= params.len(),
                decreases params.len() - k,
            {
                inner.insert(params[k].0.clone(), params[k].1.copy());
                k += 1;
            }
            proof {
                crate::ast::lemma_vec_field(whole, body);
            }
            let b = walk_list(Ghost(whole), body, &mut inner, tpls, st, false)?;
            Ok(Expr::MacroDef { name, params, return_type, body: b })
        },
        Expr::LetDef { name, mutable, ty, value } => {
            let v = walk_box(Ghost(whole), value, env, tpls, st)?;
            let inferred = infer_shallow(&v, env, &st.generated, &st.sigs);
            let final_ty = match &ty {
                Some(t) => Some(t.copy()),
                None => inferred,
            };
            match final_ty {
                Some(t) => {
                    env.insert(name.clone(), t);
                },
                None => {},
            }
            Ok(Expr::LetDef { name, mutable, ty, value: v })
        },
        Expr::LetDestructure { pattern, mutable, value } => {
            let v = walk_box(Ghost(whole), value, env, tpls, st)?;
            match infer_shallow(&v, env, &st.generated, &st.sigs) {
                Some(TrackType::Tuple(elems)) => {
                    bind_pattern(&pattern, &elems, env);
                },
                _ => {},
            }
            Ok(Expr::LetDestructure { pattern, mutable, value: v })
        },
        Expr::Assign { target, value } => {
            let v = walk_box(Ghost(whole), value, env, tpls, st)?;
            let t = walk_box(Ghost(whole), target, env, tpls, st)?;
            Ok(Expr::Assign { target: t, value: v })
        },
        Expr::ConstDef { name, value } => {
            let v = walk_box(Ghost(whole), value, env, tpls, st)?;
            Ok(Expr::ConstDef { name, value: v })
        },
        Expr::Range { start, end } => {
            let a = walk_box(Ghost(whole), start, env, tpls, st)?;
            let b = walk_box(Ghost(whole), end, env, tpls, st)?;
            Ok(Expr::Range { start: a, end: b })
        },
        Expr::Return { value } => match value {
            Some(v) => {
                proof {
                    assert(decreases_to!(whole => whole->Return_value));
                    assert(decreases_to!(whole->Return_value => v));
                }
                let w = walk_box(Ghost(whole), v, env, tpls, st)?;
                Ok(Expr::Return { value: Some(w) })
            },
            None => Ok(Expr::Return { value: None }),
        },
        Expr::IfElse { condition, then_body, else_body } => {
            let c = walk_box(Ghost(whole), condition, env, tpls, st)?;
            proof {
                crate::ast::lemma_vec_field(whole, then_body);
                crate::ast::lemma_vec_field(whole, else_body);
            }
            let t = walk_list(Ghost(whole), then_body, env, tpls, st, true)?;
            let f = walk_list(Ghost(whole), else_body, env, tpls, st, true)?;
            Ok(Expr::IfElse { condition: c, then_body: t, else_body: f })
        },
        Expr::WhileLoop { condition, body } => {
            let c = walk_box(Ghost(whole), condition, env, tpls, st)?;
            proof {
                crate::ast::lemma_vec_field(whole, body);
            }
            let b = walk_list(Ghost(whole), body, env, tpls, st, true)?;
            Ok(Expr::WhileLoop { condition: c, body: b })
        },
        Expr::ForIn { var, iter, body } => {
            let it = walk_box(Ghost(whole), iter, env, tpls, st)?;
            let mut inner = env.deep_copy();
            let elem = match infer_shallow(&it, env, &st.generated, &st.sigs) {
                Some(TrackType::Array(el, _)) => *el,
                Some(TrackType::Slice(el)) => *el,
                _ => TrackType::I64,
            };
            inner.insert(var.clone(), elem);
            proof {
                crate::ast::lemma_vec_field(whole, body);
            }
            let b = walk_list(Ghost(whole), body, &mut inner, tpls, st, false)?;
            Ok(Expr::ForIn { var, iter: it, body: b })
        },
        Expr::LensBlock { target, lens_name, body } => {
            proof {
                crate::ast::lemma_vec_field(whole, body);
            }
            let b = walk_list(Ghost(whole), body, env, tpls, st, true)?;
            Ok(Expr::LensBlock { target, lens_name, body: b })
        },
        Expr::Match { target, arms } => {
            let t = walk_box(Ghost(whole), target, env, tpls, st)?;
            proof {
                assert(decreases_to!(whole => whole->Match_arms));
                assert(decreases_to!(whole->Match_arms => arms@));
                assert forall|i: int| 0 <= i < arms@.len() implies #[trigger] (decreases_to!(whole => arms@[i])) by {
                    assert(decreases_to!(arms@ => arms@[i]));
                }
            }
            let out = walk_arms(Ghost(whole), arms, env, tpls, st)?;
            Ok(Expr::Match { target: t, arms: out })
        },
        Expr::FunctionCall { name, args } => {
            proof {
                crate::ast::lemma_vec_field(whole, args);
            }
            let a = walk_list(Ghost(whole), args, env, tpls, st, false)?;
            let n = specialize_call(Ghost(whole), name, &a, env, tpls, st)?;
            Ok(Expr::FunctionCall { name: n, args: a })
        },
        Expr::MacroCall { name, args, body } => {
            proof {
                crate::ast::lemma_vec_field(whole, args);
            }
            let a = walk_list(Ghost(whole), args, env, tpls, st, false)?;
            let b = match body {
                Some(bv) => {
                    proof {
                        assert(decreases_to!(whole => whole->MacroCall_body));
                        assert(decreases_to!(whole->MacroCall_body => bv));
                        crate::ast::lemma_vec_field(whole, bv);
                    }
                    Some(walk_list(Ghost(whole), bv, env, tpls, st, true)?)
                },
                None => None,
            };
            Ok(Expr::MacroCall { name, args: a, body: b })
        },
        Expr::UnaryOp { op, expr } => {
            let x = walk_box(Ghost(whole), expr, env, tpls, st)?;
            Ok(Expr::UnaryOp { op, expr: x })
        },
        Expr::AddressOf { target } => {
            let x = walk_box(Ghost(whole), target, env, tpls, st)?;
            Ok(Expr::AddressOf { target: x })
        },
        Expr::ArrayIndex { target, index } => {
            let x = walk_box(Ghost(whole), target, env, tpls, st)?;
            let i = walk_box(Ghost(whole), index, env, tpls, st)?;
            Ok(Expr::ArrayIndex { target: x, index: i })
        },
        Expr::SliceIndex { target, start, end } => {
            let x = walk_box(Ghost(whole), target, env, tpls, st)?;
            let a = match start {
                Some(y) => {
                    proof {
                        assert(decreases_to!(whole => whole->SliceIndex_start));
                        assert(decreases_to!(whole->SliceIndex_start => y));
                    }
                    Some(walk_box(Ghost(whole), y, env, tpls, st)?)
                },
                None => None,
            };
            let b = match end {
                Some(y) => {
                    proof {
                        assert(decreases_to!(whole => whole->SliceIndex_end));
                        assert(decreases_to!(whole->SliceIndex_end => y));
                    }
                    Some(walk_box(Ghost(whole), y, env, tpls, st)?)
                },
                None => None,
            };
            Ok(Expr::SliceIndex { target: x, start: a, end: b })
        },
        Expr::TupleIndex { target, index } => {
            let x = walk_box(Ghost(whole), target, env, tpls, st)?;
            Ok(Expr::TupleIndex { target: x, index })
        },
        Expr::BinaryOp { op, left, right } => {
            let l = walk_box(Ghost(whole), left, env, tpls, st)?;
            let r = walk_box(Ghost(whole), right, env, tpls, st)?;
            Ok(Expr::BinaryOp { op, left: l, right: r })
        },
        Expr::ArrayLiteral { elements } => {
            proof {
                crate::ast::lemma_vec_field(whole, elements);
            }
            let x = walk_list(Ghost(whole), elements, env, tpls, st, false)?;
            Ok(Expr::ArrayLiteral { elements: x })
        },
        Expr::TupleLiteral { elements } => {
            proof {
                crate::ast::lemma_vec_field(whole, elements);
            }
            let x = walk_list(Ghost(whole), elements, env, tpls, st, false)?;
            Ok(Expr::TupleLiteral { elements: x })
        },
        Expr::StructInitialization { ty_name, fields } => {
            proof {
                assert(decreases_to!(whole => whole->StructInitialization_fields));
                assert(decreases_to!(whole->StructInitialization_fields => fields@));
                assert forall|i: int| 0 <= i < fields@.len() implies #[trigger] (decreases_to!(whole => fields@[i])) by {
                    assert(decreases_to!(fields@ => fields@[i]));
                }
            }
            let out = walk_fields(Ghost(whole), fields, env, tpls, st)?;
            Ok(Expr::StructInitialization { ty_name, fields: out })
        },
        other => Ok(other),
    }
}

/// The error for a call of a template with the wrong number of arguments.
pub open spec fn arity_text(name: Seq<char>, expected: nat, got: nat) -> Seq<char> {
    "Compile Error: generic function '"@ + name + "' expects "@ + decimal(expected) + " argument(s), got "@
        + decimal(got)
}

fn arity_message(name: &String, expected: usize, got: usize) -> (r: String)
    ensures
        r@ == arity_text(name@, expected as nat, got as nat),
{
    let mut m = string_of("Compile Error: generic function '");
    push_string(&mut m, name);
    push_str(&mut m, "' expects ");
    push_usize(&mut m, expected);
    push_str(&mut m, " argument(s), got ");
    push_usize(&mut m, got);
    m
}

fn in_list(v: &Vec<String>, n: &String) -> (r: bool)
    ensures
        r == exists|i: int| 0 <= i < v@.len() && (#[trigger] v@[i])@ == n@,
{
    let mut i: usize = 0;
    while i < v.len()
        invariant
            i <= v.len(),
            forall|j: int| 0 <= j < i ==> (#[trigger] v@[j])@ != n@,
        decreases v.len() - i,
    {
        if v[i].eq(n) {
            return true;
        }
        i += 1;
    }
    false
}

/// Rewrites a call of a template to the name of its instance for the
/// argument types, generating the instance the first time.
fn specialize_call(
    whole: Ghost<Expr>,
    name: String,
    args: &Vec<Expr>,
    env: &StrMap<TrackType>,
    tpls: &Templates,
    st: &mut MonoState,
) -> (r: Result<String, String>)
    requires
        env.wf(),
        old(st).ok(),
        made_from(old(st).defs@, tpls.list@),
    ensures
        final(st).ok(),
        made_from(final(st).defs@, tpls.list@),
        final(st).in_progress@ == old(st).in_progress@,
        (base_of(name@) != name@ || !in_tpls(tpls.list@, name@)) ==> r is Ok && r->Ok_0@ == name@,
        r matches Ok(n) ==> n@ == name@ || final(st).generated.view().contains_key(n@) || exists|i: int|
            0 <= i < final(st).in_progress@.len() && (#[trigger] final(st).in_progress@[i])@ == n@,
        r matches Ok(n) ==> call_renamed(tpl_names(tpls.list@), name@, n@),
    decreases old(st).budget(), whole@, 0nat,
{
    let tpl_name = base_name(name.as_str());
    let idx = match tpls.find(&tpl_name) {
        Some(i) => i,
        None => {
            return Ok(name);
        },
    };
    if !name.eq(&tpl_name) {
        return Ok(name);
    }
    proof {
        assert(in_tpls(tpls.list@, name@));
    }
    let tpl = &tpls.list[idx].1;
    if args.len() != tpl.params.len() {
        return Err(arity_message(&tpl_name, tpl.params.len(), args.len()));
    }
    let mut subst: StrMap<TrackType> = StrMap::new();
    let mut i: usize = 0;
    while i < args.len()
        invariant
            base_of(name@) == name@,
            in_tpls(tpls.list@, name@),
            subst.wf(),
            env.wf(),
            st.ok(),
            made_from(st.defs@, tpls.list@),
            st.in_progress@ == old(st).in_progress@,
            args.len() == tpl.params.len(),
            i <= args.len(),
        decreases args.len() - i,
    {
        let concrete = match infer_shallow(&args[i], env, &st.generated, &st.sigs) {
            Some(c) => c,
            None => {
                let mut m = string_of("Compile Error: cannot infer type parameter for an argument of '");
                push_string(&mut m, &tpl_name);
                push_str(&mut m, "' — annotate it first, e.g. `let x: i64 = ...`");
                return Err(m);
            },
        };
        let concrete = substitute_ty(&concrete, &subst);
        unify(&tpl.params[i].1, &concrete, &tpl.type_params, &mut subst, tpl_name.as_str())?;
        i += 1;
    }
    let mut k: usize = 0;
    while k < tpl.type_params.len()
        invariant
            base_of(name@) == name@,
            in_tpls(tpls.list@, name@),
            subst.wf(),
            st.ok(),
            made_from(st.defs@, tpls.list@),
            st.in_progress@ == old(st).in_progress@,
            k <= tpl.type_params.len(),
            idx < tpls.list@.len(),
            tpl == tpls.list@[idx as int].1,
            forall|g: int| 0 <= g < k ==> subst.view().contains_key(#[trigger] tpl.type_params@[g]@),
        decreases tpl.type_params.len() - k,
    {
        if !subst.contains_key(tpl.type_params[k].as_str()) {
            let mut m = string_of("Compile Error: cannot infer type parameter '");
            push_string(&mut m, &tpl.type_params[k]);
            push_str(&mut m, "' in call to '");
            push_string(&mut m, &tpl_name);
            push_str(&mut m, "'");
            return Err(m);
        }
        k += 1;
    }
    let mangled = mangle(tpl_name.as_str(), &subst);
    if st.generated.contains_key(mangled.as_str()) || in_list(&st.in_progress, &mangled) {
        return Ok(mangled);
    }
    if st.in_progress.len() >= MAX_INSTANTIATION_DEPTH {
        let mut m = string_of("Compile Error: generic instances of '");
        push_string(&mut m, &tpl_name);
        push_str(&mut m, "' nest too deeply");
        return Err(m);
    }
    let mut inst_params: Vec<(String, TrackType)> = Vec::new();
    let mut j: usize = 0;
    while j < tpl.params.len()
        invariant
            base_of(name@) == name@,
            in_tpls(tpls.list@, name@),
            subst.wf(),
            st.ok(),
            made_from(st.defs@, tpls.list@),
            st.in_progress@ == old(st).in_progress@,
            j <= tpl.params.len(),
            idx < tpls.list@.len(),
            tpl == tpls.list@[idx as int].1,
            inst_params@.len() == j,
            forall|g: int| 0 <= g < j ==> (#[trigger] inst_params@[g]).0@ == tpl.params@[g].0@
                && inst_params@[g].1@ == subst_ty(tpl.params@[g].1@, subst.view()),
        decreases tpl.params.len() - j,
    {
        inst_params.push((tpl.params[j].0.clone(), substitute_ty(&tpl.params[j].1, &subst)));
        j += 1;
    }
    let inst_ret = match &tpl.return_type {
        Some(rt) => Some(substitute_ty(rt, &subst)),
        None => None,
    };
    let ghost keys = subst.key_seq();
    let ghost m = subst.view();
    proof {
        assert(signature_made(tpls.list@[idx as int].0@, *tpl, mangled@, inst_params@, inst_ret, keys, m));
    }
    let ghost ip = st.in_progress@;
    st.in_progress.push(mangled.clone());
    proof {
        assert(st.in_progress@[ip.len() as int] == mangled);
    }
    let mut inst_env: StrMap<TrackType> = StrMap::new();
    let mut p: usize = 0;
    while p < inst_params.len()
        invariant
            base_of(name@) == name@,
            in_tpls(tpls.list@, name@),
            inst_env.wf(),
            st.ok(),
            made_from(st.defs@, tpls.list@),
            st.in_progress@ == ip.push(mangled),
            ip == old(st).in_progress@,
            forall|i: int| 0 <= i < ip.len() ==> (#[trigger] ip[i])@ != mangled@,
            ip.len() < MAX_INSTANTIATION_DEPTH,
            p <= inst_params.len(),
            signature_made(tpls.list@[idx as int].0@, *tpl, mangled@, inst_params@, inst_ret, keys, m),
            tpl == tpls.list@[idx as int].1,
            idx < tpls.list@.len(),
        decreases inst_params.len() - p,
    {
        inst_env.insert(inst_params[p].0.clone(), inst_params[p].1.copy());
        p += 1;
    }
    let mut inst_body: Vec<Expr> = Vec::new();
    let mut failure: Option<String> = None;
    let mut q: usize = 0;
    while q < tpl.body.len()
        invariant
            base_of(name@) == name@,
            in_tpls(tpls.list@, name@),
            inst_env.wf(),
            subst.wf(),
            st.ok(),
            made_from(st.defs@, tpls.list@),
            st.in_progress@ == ip.push(mangled),
            ip == old(st).in_progress@,
            forall|i: int| 0 <= i < ip.len() ==> (#[trigger] ip[i])@ != mangled@,
            ip.len() < MAX_INSTANTIATION_DEPTH,
            q <= tpl.body.len(),
            signature_made(tpls.list@[idx as int].0@, *tpl, mangled@, inst_params@, inst_ret, keys, m),
            tpl == tpls.list@[idx as int].1,
            idx < tpls.list@.len(),
        decreases tpl.body.len() - q,
    {
        let stmt = substitute_stmt_types(tpl.body[q].copy(), &subst);
        match walk(stmt, &mut inst_env, tpls, st) {
            Ok(w) => inst_body.push(w),
            Err(e) => {
                failure = Some(e);
                break;
            },
        }
        q += 1;
    }
    proof {
        assert(st.in_progress@[ip.len() as int] == mangled);
        assert(!st.generated.view().contains_key(mangled@));
    }
    st.in_progress.pop();
    proof {
        assert(st.in_progress@ =~= ip);
    }
    match failure {
        Some(e) => {
            return Err(e);
        },
        None => {},
    }
    let ret_copy = match &inst_ret {
        Some(t) => Some(t.copy()),
        None => None,
    };
    st.generated.insert(mangled.clone(), ret_copy);
    let def = Expr::FnDef {
        name: mangled.clone(),
        generics: Vec::new(),
        params: inst_params,
        return_type: inst_ret,
        body: inst_body,
    };
    let ghost before = st.defs@;
    proof {
        let tdef = tpl_def(tpls.list@[idx as int]);
        assert(instantiates(tdef, def, keys, m));
        assert(instance_of(tdef, def));
    }
    st.defs.push(def);
    proof {
        reveal(made_from);
        assert forall|i: int| 0 <= i < st.defs@.len() implies #[trigger] of_some_template(tpls.list@, st.defs@[i]) by {
            if i < before.len() {
                assert(st.defs@[i] == before[i]);
                assert(of_some_template(tpls.list@, before[i]));
            } else {
                assert(instance_of(tpl_def(tpls.list@[idx as int]), st.defs@[i]));
            }
        }
        assert(made_from(st.defs@, tpls.list@));
        assert forall|i: int| 0 <= i < st.defs@.len() implies is_instance(#[trigger] st.defs@[i]) by {
            if i < before.len() {
                assert(st.defs@[i] == before[i]);
            }
        }
        assert(instance_name(st.defs@[before.len() as int]) == mangled@);
        assert forall|i: int| 0 <= i < st.defs@.len() implies st.generated.view().contains_key(
            instance_name(#[trigger] st.defs@[i]),
        ) by {
            if i < before.len() {
                assert(st.defs@[i] == before[i]);
            }
        }
        assert forall|a: int, b: int| 0 <= a < b < st.defs@.len() implies #[trigger] instance_name(st.defs@[a])
            != #[trigger] instance_name(st.defs@[b]) by {
            assert(st.defs@[a] == before[a]);
            if b < before.len() {
                assert(st.defs@[b] == before[b]);
            }
        }
    }
    Ok(mangled)
}

/// The name of a generic function definition.
pub open spec fn generic_name(e: Expr) -> Option<Seq<char>> {
    match e {
        Expr::FnDef { name, generics, .. } => if generics@.len() > 0 {
            Some(name@)
        } else {
            None
        },
        _ => None,
    }
}

/// Some template in the list has the name `x`.
spec fn in_tpls(l: Seq<(String, Template)>, x: Seq<char>) -> bool {
    exists|t: int| 0 <= t < l.len() && l[t].0@ == x
}

/// A generic function named `x` is defined before position `i`.
pub open spec fn defined_before(p: Seq<Expr>, i: int, x: Seq<char>) -> bool {
    exists|k: int| 0 <= k < i && generic_name(p[k]) == Some(x)
}

/// The generic function name at `j` was already defined before `j`.
pub open spec fn repeated_at(p: Seq<Expr>, j: int) -> bool {
    generic_name(p[j]) is Some && exists|k: int| 0 <= k < j && generic_name(p[k]) == generic_name(p[j])
}

/// The first position from `i` on where a generic function's name repeats;
/// the length where none does.
pub open spec fn first_repeat(p: Seq<Expr>, i: int) -> int
    decreases p.len() - i,
{
    if i < 0 || i >= p.len() {
        p.len() as int
    } else if repeated_at(p, i) {
        i
    } else {
        first_repeat(p, i + 1)
    }
}

pub open spec fn duplicate_msg(n: Seq<char>) -> Seq<char> {
    "Compile Error: duplicate generic function definition '"@ + n + "'"@
}

/// Replaces the calls of generic functions with calls of concrete instances
/// and appends each instance's definition to the program. A program that
/// defines one generic name twice is refused and left as it was; a program
/// without generic functions is left as it was. Templates keep their places,
/// and each instance is appended once, under a name of its own.
pub fn monomorphize(program: &mut Vec<Expr>) -> (r: Result<(), String>)
    ensures
        ({
            let p = old(program)@;
            let j = first_repeat(p, 0);
            if j < p.len() {
                &&& r is Err
                &&& r->Err_0@ == duplicate_msg(generic_name(p[j])->Some_0)
                &&& final(program)@ == p
            } else if forall|k: int| 0 <= k < p.len() ==> generic_name(#[trigger] p[k]) is None {
                r is Ok && final(program)@ == p
            } else {
                &&& (forall|k: int|
                    0 <= k < p.len() && generic_name(#[trigger] p[k]) is None ==> !walked(p[k]).1) ==> r is Ok
                &&& r is Ok ==> {
                    &&& final(program)@.len() >= p.len()
                    &&& forall|k: int|
                        0 <= k < p.len() && generic_name(#[trigger] p[k]) is Some ==> final(program)@[k]
                            == p[k]
                    &&& forall|k: int|
                        p.len() <= k < final(program)@.len() ==> is_instance(#[trigger] final(program)@[k])
                    &&& distinct_instances(final(program)@, p.len() as int)
                    &&& forall|k: int|
                        p.len() <= k < final(program)@.len() ==> instance_in(p, #[trigger] final(program)@[k])
            &&& forall|k: int|
                0 <= k < p.len() && generic_name(#[trigger] p[k]) is None ==> renamed(
                    template_names(p),
                    p[k],
                    final(program)@[k],
                )
                }
            }
        }),
{
    let ghost p = program@;
    let mut tpls = Templates { list: Vec::new() };
    let mut i: usize = 0;
    while i < program.len()
        invariant
            program@ == p,
            p == old(program)@,
            i <= p.len(),
            first_repeat(p, 0) == first_repeat(p, i as int),
            forall|x: Seq<char>| #[trigger] in_tpls(tpls.list@, x) == defined_before(p, i as int, x),
            (tpls.list@.len() == 0) <==> (forall|k: int| 0 <= k < i ==> generic_name(#[trigger] p[k]) is None),
            forall|t: int| 0 <= t < tpls.list@.len() ==> tpl_in_program(p, #[trigger] tpls.list@[t]),
        decreases p.len() - i,
    {
        match &program[i] {
            Expr::FnDef { name, generics, params, return_type, body } => {
                if generics.len() > 0 {
                    match tpls.find(name) {
                        Some(t) => {
                            proof {
                                assert(generic_name(p[i as int]) == Some(name@));
                                assert(in_tpls(tpls.list@, name@));
                                assert(defined_before(p, i as int, name@));
                                assert(repeated_at(p, i as int));
                            }
                            let mut m = string_of("Compile Error: duplicate generic function definition '");
                            push_string(&mut m, name);
                            push_str(&mut m, "'");
                            return Err(m);
                        },
                        None => {
                            let ghost before = tpls.list@;
                            let mut ps: Vec<(String, TrackType)> = Vec::new();
                            let mut k: usize = 0;
                            while k < params.len()
                                invariant
                                    k <= params.len(),
                                    ps@.len() == k,
                                    forall|x: int| 0 <= x < k ==> (#[trigger] ps@[x]).0@ == params@[x].0@ && ps@[x].1@
                                        == params@[x].1@,
                                decreases params.len() - k,
                            {
                                ps.push((params[k].0.clone(), params[k].1.copy()));
                                k += 1;
                            }
                            let mut gs: Vec<String> = Vec::new();
                            let mut g: usize = 0;
                            while g < generics.len()
                                invariant
                                    g <= generics.len(),
                                    gs@.len() == g,
                                    forall|x: int| 0 <= x < g ==> (#[trigger] gs@[x])@ == generics@[x]@,
                                decreases generics.len() - g,
                            {
                                gs.push(generics[g].clone());
                                g += 1;
                            }
                            let mut bs: Vec<Expr> = Vec::new();
                            let mut b: usize = 0;
                            while b < body.len()
                                invariant
                                    b <= body.len(),
                                decreases body.len() - b,
                            {
                                bs.push(body[b].copy());
                                b += 1;
                            }
                            let rt = match return_type {
                                Some(t) => Some(t.copy()),
                                None => None,
                            };
                            let ghost tpl_sig = Expr::FnDef {
                                name: *name,
                                generics: gs,
                                params: ps,
                                return_type: rt,
                                body: bs,
                            };
                            proof {
                                assert(names_view(gs@) =~= names_view(generics@));
                                assert(params_v(ps@) =~= params_v(params@));
                                assert(same_signature(tpl_sig, p[i as int]));
                            }
                            tpls.list.push(
                                (name.clone(), Template { type_params: gs, params: ps, return_type: rt, body: bs }),
                            );
                            proof {
                                assert(same_signature(tpl_def(tpls.list@[before.len() as int]), p[i as int]));
                                assert forall|t: int| 0 <= t < tpls.list@.len() implies tpl_in_program(
                                    p,
                                    #[trigger] tpls.list@[t],
                                ) by {
                                    if t < before.len() {
                                        assert(tpls.list@[t] == before[t]);
                                    }
                                }
                                assert(generic_name(p[i as int]) == Some(name@));
                                assert(!repeated_at(p, i as int)) by {
                                    if repeated_at(p, i as int) {
                                        let k = choose|k: int|
                                            0 <= k < i && generic_name(p[k]) == generic_name(p[i as int]);
                                        assert(defined_before(p, i as int, name@));
                                        assert(in_tpls(before, name@));
                                    }
                                }
                                assert forall|x: Seq<char>|
                                    #[trigger] in_tpls(tpls.list@, x) == defined_before(p, i + 1, x) by {
                                    assert(in_tpls(before, x) == defined_before(p, i as int, x));
                                    if in_tpls(tpls.list@, x) {
                                        let t = choose|t: int| 0 <= t < tpls.list@.len() && tpls.list@[t].0@ == x;
                                        if t < before.len() {
                                            assert(before[t].0@ == x);
                                            assert(in_tpls(before, x));
                                            let k = choose|k: int| 0 <= k < i && generic_name(p[k]) == Some(x);
                                        } else {
                                            assert(generic_name(p[i as int]) == Some(x));
                                        }
                                    }
                                    if defined_before(p, i + 1, x) {
                                        let k = choose|k: int| 0 <= k < i + 1 && generic_name(p[k]) == Some(x);
                                        if k < i {
                                            assert(defined_before(p, i as int, x));
                                            assert(in_tpls(before, x));
                                            let t = choose|t: int| 0 <= t < before.len() && before[t].0@ == x;
                                            assert(tpls.list@[t].0@ == x);
                                        } else {
                                            assert(tpls.list@[before.len() as int].0@ == x);
                                        }
                                    }
                                }
                            }
                        },
                    }
                } else {
                    proof {
                        assert(generic_name(p[i as int]) is None);
                        assert(!repeated_at(p, i as int));
                    }
                }
            },
            _ => {
                proof {
                    assert(generic_name(p[i as int]) is None);
                    assert(!repeated_at(p, i as int));
                }
            },
        }
        i += 1;
    }
    proof {
        assert(first_repeat(p, p.len() as int) == p.len());
    }
    if tpls.list.len() == 0 {
        return Ok(());
    }
    let sigs = concrete_signatures(program);
    let mut st = MonoState { generated: StrMap::new(), defs: Vec::new(), in_progress: Vec::new(), sigs };
    let mut top_env: StrMap<TrackType> = StrMap::new();
    proof {
        reveal(made_from);
        assert(tpl_names(tpls.list@) =~= template_names(p));
    }
    let mut k: usize = 0;
    while k < program.len()
        invariant
            program@.len() == p.len(),
            p == old(program)@,
            k <= p.len(),
            tpl_names(tpls.list@) == template_names(p),
            forall|j: int| k <= j < p.len() ==> program@[j] == p[j],
            forall|j: int|
                0 <= j < k && generic_name(#[trigger] p[j]) is None ==> renamed(template_names(p), p[j], program@[j]),
            top_env.wf(),
            st.ok(),
            made_from(st.defs@, tpls.list@),
            st.in_progress@.len() == 0,
            first_repeat(p, 0) == p.len(),
            !(forall|j: int| 0 <= j < p.len() ==> generic_name(#[trigger] p[j]) is None),
            forall|j: int| 0 <= j < p.len() && generic_name(#[trigger] p[j]) is Some ==> program@[j] == p[j],
            forall|t: int| 0 <= t < tpls.list@.len() ==> tpl_in_program(p, #[trigger] tpls.list@[t]),
        decreases p.len() - k,
    {
        let is_template = match &program[k] {
            Expr::FnDef { generics, .. } => generics.len() > 0,
            _ => false,
        };
        if !is_template {
            let keep = program[k].copy();
            let ghost before = program@;
            let stmt = program.remove(k);
            proof {
                assert(stmt == p[k as int]);
            }
            match walk(stmt, &mut top_env, &tpls, &mut st) {
                Ok(w) => {
                    program.insert(k, w);
                    proof {
                        assert(generic_name(p[k as int]) is None);
                        assert(program@ =~= before.update(k as int, w));
                    }
                },
                Err(e) => {
                    program.insert(k, keep);
                    proof {
                        assert(walked(p[k as int]).1);
                        assert(generic_name(p[k as int]) is None);
                    }
                    return Err(e);
                },
            }
        } else {
            proof {
                assert(generic_name(p[k as int]) is Some);
            }
        }
        k += 1;
    }
    let ghost before = program@;
    let mut defs = st.defs;
    program.append(&mut defs);
    proof {
        reveal(made_from);
        assert forall|j: int| p.len() <= j < program@.len() implies instance_in(p, #[trigger] program@[j]) by {
            let d = st.defs@[j - p.len()];
            assert(program@[j] == d);
            assert(of_some_template(tpls.list@, d));
            let t = choose|t: int| 0 <= t < tpls.list@.len() && #[trigger] instance_of(tpl_def(tpls.list@[t]), d);
            assert(tpl_in_program(p, tpls.list@[t]));
            let g = choose|g: int|
                0 <= g < p.len() && generic_name(p[g]) is Some && #[trigger] same_signature(tpl_def(tpls.list@[t]), p[g]);
            lemma_instance_same_signature(tpl_def(tpls.list@[t]), p[g], d);
        }
        assert forall|j: int| p.len() <= j < program@.len() implies is_instance(#[trigger] program@[j]) by {
            assert(program@[j] == st.defs@[j - p.len()]);
        }
        assert forall|a: int, b: int| p.len() <= a < b < program@.len() implies #[trigger] instance_name(program@[a])
            != #[trigger] instance_name(program@[b]) by {
            assert(program@[a] == st.defs@[a - p.len()]);
            assert(program@[b] == st.defs@[b - p.len()]);
            assert(instance_name(st.defs@[a - p.len()]) != instance_name(st.defs@[b - p.len()]));
        }
        assert forall|j: int| 0 <= j < p.len() && generic_name(#[trigger] p[j]) is Some implies program@[j] == p[j] by {
            assert(program@[j] == before[j]);
        }
        assert forall|j: int| 0 <= j < p.len() && generic_name(#[trigger] p[j]) is None implies renamed(
            template_names(p),
            p[j],
            program@[j],
        ) by {
            assert(program@[j] == before[j]);
        }
    }
    Ok(())
}

} // verus!
