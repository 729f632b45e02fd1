use vstd::prelude::*;
use crate::ast::{TrackType, TypeV};
use crate::checker::prov::{lower_bound, names_view, string_lt};
use crate::collections::StrMap;
use crate::lexer::{debug_text, push_debug_text};
use crate::text::{is_alnum, char_is_alphanumeric, chars_of, decimal, push_char, push_str, push_string, push_usize, string_of};

verus! {

/// The `{:?}` text of a type.
pub open spec fn debug_type(t: TypeV) -> Seq<char>
    decreases t, 0nat,
{
    match t {
        TypeV::U8 => "U8"@,
        TypeV::I8 => "I8"@,
        TypeV::I32 => "I32"@,
        TypeV::U32 => "U32"@,
        TypeV::I64 => "I64"@,
        TypeV::U64 => "U64"@,
        TypeV::Bool => "Bool"@,
        TypeV::Void => "Void"@,
        TypeV::Ptr(i) => "Ptr("@ + debug_type(*i) + ")"@,
        TypeV::Ref(i) => "Ref("@ + debug_type(*i) + ")"@,
        TypeV::Slice(i) => "Slice("@ + debug_type(*i) + ")"@,
        TypeV::Array(i, n) => "Array("@ + debug_type(*i) + ", "@ + decimal(n as nat) + ")"@,
        TypeV::Tuple(ts) => "Tuple(["@ + debug_types(ts) + "])"@,
        TypeV::Custom(s) => "Custom("@ + debug_text(s) + ")"@,
    }
}

/// The `{:?}` texts of types, separated by `, `.
pub open spec fn debug_types(ts: Seq<TypeV>) -> Seq<char>
    decreases ts, 1nat,
{
    if ts.len() == 0 {
        Seq::empty()
    } else if ts.len() == 1 {
        debug_type(ts.last())
    } else {
        debug_types(ts.drop_last()) + ", "@ + debug_type(ts.last())
    }
}

/// Appends the `{:?}` text of a type.
pub fn push_debug_type(out: &mut String, t: &TrackType)
    ensures
        final(out)@ == old(out)@ + debug_type(t@),
    decreases t,
{
    match t {
        TrackType::U8 => push_str(out, "U8"),
        TrackType::I8 => push_str(out, "I8"),
        TrackType::I32 => push_str(out, "I32"),
        TrackType::U32 => push_str(out, "U32"),
        TrackType::I64 => push_str(out, "I64"),
        TrackType::U64 => push_str(out, "U64"),
        TrackType::Bool => push_str(out, "Bool"),
        TrackType::Void => push_str(out, "Void"),
        TrackType::Ptr(i) => {
            push_str(out, "Ptr(");
            push_debug_type(out, i);
            push_str(out, ")");
            proof {
                assert(final(out)@ =~= old(out)@ + debug_type(t@));
            }
        },
        TrackType::Ref(i) => {
            push_str(out, "Ref(");
            push_debug_type(out, i);
            push_str(out, ")");
            proof {
                assert(final(out)@ =~= old(out)@ + debug_type(t@));
            }
        },
        TrackType::Slice(i) => {
            push_str(out, "Slice(");
            push_debug_type(out, i);
            push_str(out, ")");
            proof {
                assert(final(out)@ =~= old(out)@ + debug_type(t@));
            }
        },
        TrackType::Array(i, n) => {
            push_str(out, "Array(");
            push_debug_type(out, i);
            push_str(out, ", ");
            push_usize(out, *n);
            push_str(out, ")");
            proof {
                assert(final(out)@ =~= old(out)@ + debug_type(t@));
            }
        },
        TrackType::Custom(s) => {
            push_str(out, "Custom(");
            push_debug_text(out, s);
            push_str(out, ")");
            proof {
                assert(final(out)@ =~= old(out)@ + debug_type(t@));
            }
        },
        TrackType::Tuple(ts) => {
            push_str(out, "Tuple([");
            let ghost start = out@;
            let mut i: usize = 0;
            proof {
                crate::ast::lemma_types_view(ts@);
                assert(debug_types(crate::ast::types_view(ts@).take(0)) =~= Seq::<char>::empty());
            }
            while i < ts.len()
                invariant
                    *t == TrackType::Tuple(*ts),
                    i <= ts.len(),
                    crate::ast::types_view(ts@).len() == ts@.len(),
                    forall|j: int|
                        0 <= j < ts@.len() ==> #[trigger] crate::ast::types_view(ts@)[j] == ts@[j]@,
                    out@ == start + debug_types(crate::ast::types_view(ts@).take(i as int)),
                decreases ts.len() - i,
            {
                proof {
                    broadcast use vstd::std_specs::vec::axiom_vec_decreases_to_view;
                    assert(decreases_to!(*t => (*t)->Tuple_0));
                    assert(decreases_to!(*ts => ts@));
                    assert(decreases_to!(ts@ => ts@[i as int]));
                    let tv = crate::ast::types_view(ts@);
                    assert(tv.take(i + 1).drop_last() =~= tv.take(i as int));
                    assert(tv.take(i + 1).last() == ts@[i as int]@);
                }
                if i > 0 {
                    push_str(out, ", ");
                }
                push_debug_type(out, &ts[i]);
                proof {
                    let tv = crate::ast::types_view(ts@);
                    if i == 0 {
                        assert(out@ =~= start + debug_types(tv.take(1)));
                    } else {
                        assert(out@ =~= start + debug_types(tv.take(i + 1)));
                    }
                }
                i += 1;
            }
            push_str(out, "])");
            proof {
                assert(crate::ast::types_view(ts@).take(ts.len() as int) =~= crate::ast::types_view(ts@));
                assert(final(out)@ =~= old(out)@ + debug_type(t@));
            }
        },
    }
}

/// A name with each character that is neither alphanumeric nor `_` written
/// as `_`.
pub open spec fn sanitized(s: Seq<char>) -> Seq<char> {
    Seq::new(s.len(), |i: int| if is_alnum(s[i]) || s[i] == '_' { s[i] } else { '_' })
}

/// Writes each character of `name` that is neither alphanumeric nor `_` as
/// `_`.
pub fn sanitize(name: &str) -> (r: String)
    ensures
        r@ == sanitized(name@),
{
    let v = chars_of(name);
    let mut out = String::new();
    let mut i: usize = 0;
    while i < v.len()
        invariant
            v@ == name@,
            i <= v.len(),
            out@ == sanitized(name@).take(i as int),
        decreases v.len() - i,
    {
        let c = v[i];
        let d = if char_is_alphanumeric(c) || c == '_' {
            c
        } else {
            '_'
        };
        push_char(&mut out, d);
        proof {
            assert(sanitized(name@).take(i + 1) =~= sanitized(name@).take(i as int).push(d));
        }
        i += 1;
    }
    proof {
        assert(sanitized(name@).take(v.len() as int) =~= sanitized(name@));
    }
    out
}

/// The short tag of a type used in instance names.
pub open spec fn tag(t: TypeV) -> Seq<char>
    decreases t, 0nat,
{
    match t {
        TypeV::U8 => "u8"@,
        TypeV::I8 => "i8"@,
        TypeV::I32 => "i32"@,
        TypeV::U32 => "u32"@,
        TypeV::I64 => "i64"@,
        TypeV::U64 => "u64"@,
        TypeV::Bool => "bool"@,
        TypeV::Void => "void"@,
        TypeV::Ptr(i) => "p"@ + tag(*i),
        TypeV::Ref(i) => "r"@ + tag(*i),
        TypeV::Slice(i) => "s"@ + tag(*i),
        TypeV::Array(i, n) => "a"@ + tag(*i) + "_"@ + decimal(n as nat),
        TypeV::Tuple(ts) => "t"@ + tags(ts),
        TypeV::Custom(s) => sanitized(s),
    }
}

/// The tags of types, separated by `.`.
pub open spec fn tags(ts: Seq<TypeV>) -> Seq<char>
    decreases ts, 1nat,
{
    if ts.len() == 0 {
        Seq::empty()
    } else if ts.len() == 1 {
        tag(ts.last())
    } else {
        tags(ts.drop_last()) + "."@ + tag(ts.last())
    }
}

/// Appends the tag of a type.
pub fn push_type_tag(out: &mut String, t: &TrackType)
    ensures
        final(out)@ == old(out)@ + tag(t@),
    decreases t,
{
    match t {
        TrackType::U8 => push_str(out, "u8"),
        TrackType::I8 => push_str(out, "i8"),
        TrackType::I32 => push_str(out, "i32"),
        TrackType::U32 => push_str(out, "u32"),
        TrackType::I64 => push_str(out, "i64"),
        TrackType::U64 => push_str(out, "u64"),
        TrackType::Bool => push_str(out, "bool"),
        TrackType::Void => push_str(out, "void"),
        TrackType::Ptr(i) => {
            push_str(out, "p");
            push_type_tag(out, i);
            proof {
                assert(final(out)@ =~= old(out)@ + tag(t@));
            }
        },
        TrackType::Ref(i) => {
            push_str(out, "r");
            push_type_tag(out, i);
            proof {
                assert(final(out)@ =~= old(out)@ + tag(t@));
            }
        },
        TrackType::Slice(i) => {
            push_str(out, "s");
            push_type_tag(out, i);
            proof {
                assert(final(out)@ =~= old(out)@ + tag(t@));
            }
        },
        TrackType::Array(i, n) => {
            push_str(out, "a");
            push_type_tag(out, i);
            push_str(out, "_");
            push_usize(out, *n);
            proof {
                assert(final(out)@ =~= old(out)@ + tag(t@));
            }
        },
        TrackType::Custom(s) => {
            let c = sanitize(s.as_str());
            push_string(out, &c);
        },
        TrackType::Tuple(ts) => {
            push_str(out, "t");
            let ghost start = out@;
            let mut i: usize = 0;
            proof {
                crate::ast::lemma_types_view(ts@);
                assert(tags(crate::ast::types_view(ts@).take(0)) =~= Seq::<char>::empty());
            }
            while i < ts.len()
                invariant
                    *t == TrackType::Tuple(*ts),
                    i <= ts.len(),
                    crate::ast::types_view(ts@).len() == ts@.len(),
                    forall|j: int|
                        0 <= j < ts@.len() ==> #[trigger] crate::ast::types_view(ts@)[j] == ts@[j]@,
                    out@ == start + tags(crate::ast::types_view(ts@).take(i as int)),
                decreases ts.len() - i,
            {
                proof {
                    broadcast use vstd::std_specs::vec::axiom_vec_decreases_to_view;
                    assert(decreases_to!(*t => (*t)->Tuple_0));
                    assert(decreases_to!(*ts => ts@));
                    assert(decreases_to!(ts@ => ts@[i as int]));
                    let tv = crate::ast::types_view(ts@);
                    assert(tv.take(i + 1).drop_last() =~= tv.take(i as int));
                    assert(tv.take(i + 1).last() == ts@[i as int]@);
                }
                if i > 0 {
                    push_str(out, ".");
                }
                push_type_tag(out, &ts[i]);
                proof {
                    let tv = crate::ast::types_view(ts@);
                    if i == 0 {
                        assert(out@ =~= start + tags(tv.take(1)));
                    } else {
                        assert(out@ =~= start + tags(tv.take(i + 1)));
                    }
                }
                i += 1;
            }
            proof {
                assert(crate::ast::types_view(ts@).take(ts.len() as int) =~= crate::ast::types_view(ts@));
                assert(final(out)@ =~= old(out)@ + tag(t@));
            }
        },
    }
}

/// The tag of a type.
pub fn type_tag(t: &TrackType) -> (r: String)
    ensures
        r@ == tag(t@),
{
    let mut out = String::new();
    push_type_tag(&mut out, t);
    out
}

/// The type with each type parameter named in `m` replaced by its
/// binding, inside pointers, references, slices, arrays and tuples too.
pub open spec fn subst_ty(t: TypeV, m: Map<Seq<char>, TypeV>) -> TypeV
    decreases t, 0nat,
{
    match t {
        TypeV::Custom(n) => if m.contains_key(n) {
            m[n]
        } else {
            t
        },
        TypeV::Ptr(i) => TypeV::Ptr(Box::new(subst_ty(*i, m))),
        TypeV::Ref(i) => TypeV::Ref(Box::new(subst_ty(*i, m))),
        TypeV::Slice(i) => TypeV::Slice(Box::new(subst_ty(*i, m))),
        TypeV::Array(i, n) => TypeV::Array(Box::new(subst_ty(*i, m)), n),
        TypeV::Tuple(ts) => TypeV::Tuple(subst_tys(ts, m)),
        _ => t,
    }
}

/// `subst_ty` on each type of a list.
pub open spec fn subst_tys(ts: Seq<TypeV>, m: Map<Seq<char>, TypeV>) -> Seq<TypeV>
    decreases ts, 1nat,
{
    if ts.len() == 0 {
        Seq::empty()
    } else {
        subst_tys(ts.drop_last(), m).push(subst_ty(ts.last(), m))
    }
}

/// Replaces the type parameters bound in `subst`.
pub fn substitute_ty(ty: &TrackType, subst: &StrMap<TrackType>) -> (r: TrackType)
    requires
        subst.wf(),
    ensures
        r@ == subst_ty(ty@, subst.view()),
    decreases ty,
{
    proof {
        reveal_with_fuel(crate::ast::type_view, 2);
    }
    match ty {
        TrackType::Custom(n) => match subst.get(n.as_str()) {
            Some(c) => c.copy(),
            None => ty.copy(),
        },
        TrackType::Ptr(i) => TrackType::Ptr(Box::new(substitute_ty(i, subst))),
        TrackType::Ref(i) => TrackType::Ref(Box::new(substitute_ty(i, subst))),
        TrackType::Slice(i) => TrackType::Slice(Box::new(substitute_ty(i, subst))),
        TrackType::Array(i, n) => TrackType::Array(Box::new(substitute_ty(i, subst)), *n),
        TrackType::Tuple(ts) => {
            let mut out: Vec<TrackType> = Vec::new();
            let mut i: usize = 0;
            let ghost m = subst.view();
            proof {
                crate::ast::lemma_types_view(ts@);
            }
            while i < ts.len()
                invariant
                    subst.wf(),
                    m == subst.view(),
                    *ty == TrackType::Tuple(*ts),
                    i <= ts.len(),
                    crate::ast::types_view(ts@).len() == ts@.len(),
                    forall|j: int|
                        0 <= j < ts@.len() ==> #[trigger] crate::ast::types_view(ts@)[j] == ts@[j]@,
                    crate::ast::types_view(out@) == subst_tys(crate::ast::types_view(ts@).take(i as int), m),
                decreases ts.len() - i,
            {
                proof {
                    broadcast use vstd::std_specs::vec::axiom_vec_decreases_to_view;
                    assert(decreases_to!(*ty => (*ty)->Tuple_0));
                    assert(decreases_to!(*ts => ts@));
                    assert(decreases_to!(ts@ => ts@[i as int]));
                    let tv = crate::ast::types_view(ts@);
                    assert(tv.take(i + 1).drop_last() =~= tv.take(i as int));
                    assert(tv.take(i + 1).last() == ts@[i as int]@);
                }
                let s = substitute_ty(&ts[i], subst);
                let ghost before = out@;
                out.push(s);
                proof {
                    assert(out@.drop_last() =~= before);
                }
                i += 1;
            }
            proof {
                assert(crate::ast::types_view(ts@).take(ts.len() as int) =~= crate::ast::types_view(ts@));
            }
            TrackType::Tuple(out)
        },
        _ => ty.copy(),
    }
}

pub open spec fn conflict_msg(n: Seq<char>, ctx: Seq<char>, a: TypeV, b: TypeV) -> Seq<char> {
    "Compile Error: conflicting types for '"@ + n + "' in '"@ + ctx + "': "@ + debug_type(a) + " vs "@
        + debug_type(b)
}

/// Matches a declared parameter type against an argument's type, binding
/// each type parameter met on the way; a parameter bound twice to different
/// types is refused. Shapes that do not match bind nothing.
pub open spec fn unify_spec(
    p: TypeV,
    c: TypeV,
    tps: Seq<Seq<char>>,
    m: Map<Seq<char>, TypeV>,
    ctx: Seq<char>,
) -> Result<Map<Seq<char>, TypeV>, Seq<char>>
    decreases p, 0int,
{
    match p {
        TypeV::Custom(n) => if tps.contains(n) {
            if m.contains_key(n) {
                if m[n] != c {
                    Err(conflict_msg(n, ctx, m[n], c))
                } else {
                    Ok(m)
                }
            } else {
                Ok(m.insert(n, c))
            }
        } else {
            Ok(m)
        },
        TypeV::Ptr(i) => match c {
            TypeV::Ptr(ci) => unify_spec(*i, *ci, tps, m, ctx),
            _ => Ok(m),
        },
        TypeV::Ref(i) => match c {
            TypeV::Ref(ci) => unify_spec(*i, *ci, tps, m, ctx),
            _ => Ok(m),
        },
        TypeV::Slice(i) => match c {
            TypeV::Slice(ci) => unify_spec(*i, *ci, tps, m, ctx),
            _ => Ok(m),
        },
        TypeV::Array(i, _) => match c {
            TypeV::Array(ci, _) => unify_spec(*i, *ci, tps, m, ctx),
            _ => Ok(m),
        },
        TypeV::Tuple(ps) => match c {
            TypeV::Tuple(cs) => unify_from(ps, cs, 0, tps, m, ctx),
            _ => Ok(m),
        },
        _ => Ok(m),
    }
}

/// Unifies the pairs of a tuple's elements from position `i` on, as far as
/// the shorter list goes, stopping at the first refusal.
pub open spec fn unify_from(
    ps: Seq<TypeV>,
    cs: Seq<TypeV>,
    i: int,
    tps: Seq<Seq<char>>,
    m: Map<Seq<char>, TypeV>,
    ctx: Seq<char>,
) -> Result<Map<Seq<char>, TypeV>, Seq<char>>
    decreases ps, ps.len() - i,
{
    if i < 0 || i >= ps.len() || i >= cs.len() {
        Ok(m)
    } else {
        match unify_spec(ps[i], cs[i], tps, m, ctx) {
            Ok(m2) => unify_from(ps, cs, i + 1, tps, m2, ctx),
            Err(e) => Err(e),
        }
    }
}

fn in_names(v: &Vec<String>, n: &String) -> (r: bool)
    ensures
        r == names_view(v@).contains(n@),
{
    let mut i: usize = 0;
    while i < v.len()
        invariant
            i <= v.len(),
            forall|j: int| 0 <= j < i ==> v@[j]@ != n@,
        decreases v.len() - i,
    {
        if v[i].eq(n) {
            proof {
                assert(names_view(v@)[i as int] == n@);
            }
            return true;
        }
        i += 1;
    }
    proof {
        if names_view(v@).contains(n@) {
            let j = choose|j: int| 0 <= j < names_view(v@).len() && names_view(v@)[j] == n@;
            assert(v@[j]@ == n@);
        }
    }
    false
}

/// Binds the type parameters of `param` by matching it against `concrete`.
pub fn unify(
    param: &TrackType,
    concrete: &TrackType,
    type_params: &Vec<String>,
    subst: &mut StrMap<TrackType>,
    ctx: &str,
) -> (r: Result<(), String>)
    requires
        old(subst).wf(),
    ensures
        final(subst).wf(),
        match unify_spec(param@, concrete@, names_view(type_params@), old(subst).view(), ctx@) {
            Ok(m) => r is Ok && final(subst).view() == m,
            Err(e) => r is Err && r->Err_0@ == e,
        },
    decreases param, 1int,
{
    proof {
        reveal_with_fuel(crate::ast::type_view, 2);
    }
    match param {
        TrackType::Custom(name) => {
            if in_names(type_params, name) {
                match subst.get(name.as_str()) {
                    Some(existing) => {
                        if !existing.same(concrete) {
                            let mut m = string_of("Compile Error: conflicting types for '");
                            push_string(&mut m, name);
                            push_str(&mut m, "' in '");
                            push_str(&mut m, ctx);
                            push_str(&mut m, "': ");
                            push_debug_type(&mut m, existing);
                            push_str(&mut m, " vs ");
                            push_debug_type(&mut m, concrete);
                            return Err(m);
                        }
                    },
                    None => {
                        subst.insert(name.clone(), concrete.copy());
                    },
                }
            }
            Ok(())
        },
        TrackType::Ptr(inner) => match concrete {
            TrackType::Ptr(c) => unify(inner, c, type_params, subst, ctx),
            _ => Ok(()),
        },
        TrackType::Ref(inner) => match concrete {
            TrackType::Ref(c) => unify(inner, c, type_params, subst, ctx),
            _ => Ok(()),
        },
        TrackType::Slice(inner) => match concrete {
            TrackType::Slice(c) => unify(inner, c, type_params, subst, ctx),
            _ => Ok(()),
        },
        TrackType::Array(inner, _) => match concrete {
            TrackType::Array(c, _) => unify(inner, c, type_params, subst, ctx),
            _ => Ok(()),
        },
        TrackType::Tuple(elems) => match concrete {
            TrackType::Tuple(cs) => unify_list(param, elems, cs, type_params, subst, ctx),
            _ => Ok(()),
        },
        _ => Ok(()),
    }
}

fn unify_list(
    whole: &TrackType,
    elems: &Vec<TrackType>,
    cs: &Vec<TrackType>,
    type_params: &Vec<String>,
    subst: &mut StrMap<TrackType>,
    ctx: &str,
) -> (r: Result<(), String>)
    requires
        old(subst).wf(),
        *whole == TrackType::Tuple(*elems),
    ensures
        final(subst).wf(),
        match unify_from(
            crate::ast::types_view(elems@),
            crate::ast::types_view(cs@),
            0,
            names_view(type_params@),
            old(subst).view(),
            ctx@,
        ) {
            Ok(m) => r is Ok && final(subst).view() == m,
            Err(e) => r is Err && r->Err_0@ == e,
        },
    decreases whole, 0int,
{
    let ghost ps = crate::ast::types_view(elems@);
    let ghost qs = crate::ast::types_view(cs@);
    let ghost tps = names_view(type_params@);
    proof {
        crate::ast::lemma_types_view(elems@);
        crate::ast::lemma_types_view(cs@);
    }
    let mut i: usize = 0;
    while i < elems.len() && i < cs.len()
        invariant
            subst.wf(),
            *whole == TrackType::Tuple(*elems),
            ps == crate::ast::types_view(elems@),
            qs == crate::ast::types_view(cs@),
            tps == names_view(type_params@),
            ps.len() == elems@.len(),
            qs.len() == cs@.len(),
            forall|j: int| 0 <= j < elems@.len() ==> #[trigger] ps[j] == elems@[j]@,
            forall|j: int| 0 <= j < cs@.len() ==> #[trigger] qs[j] == cs@[j]@,
            i <= elems.len(),
            unify_from(ps, qs, 0, tps, old(subst).view(), ctx@) == unify_from(
                ps,
                qs,
                i as int,
                tps,
                subst.view(),
                ctx@,
            ),
        decreases elems.len() - i,
    {
        proof {
            broadcast use vstd::std_specs::vec::axiom_vec_decreases_to_view;
            assert(decreases_to!(*whole => (*whole)->Tuple_0));
            assert(decreases_to!(*elems => elems@));
            assert(decreases_to!(elems@ => elems@[i as int]));
            assert(ps[i as int] == elems@[i as int]@);
            assert(qs[i as int] == cs@[i as int]@);
        }
        unify(&elems[i], &cs[i], type_params, subst, ctx)?;
        i += 1;
    }
    Ok(())
}

/// The strings in ascending order, each kept as often as it occurs.
pub open spec fn sort_strs(p: Seq<Seq<char>>) -> Seq<Seq<char>>
    decreases p.len(),
{
    if p.len() == 0 {
        p
    } else {
        let s = sort_strs(p.drop_last());
        s.insert(lower_bound(s, p.last(), 0), p.last())
    }
}

/// The strings joined with `sep` between each two.
pub open spec fn join(p: Seq<Seq<char>>, sep: Seq<char>) -> Seq<char>
    decreases p.len(),
{
    if p.len() == 0 {
        Seq::empty()
    } else if p.len() == 1 {
        p[0]
    } else {
        join(p.drop_last(), sep) + sep + p.last()
    }
}

/// The parts of an instance name: each binding as its parameter followed by
/// the tag of its type, in the order of `keys`.
pub open spec fn mangle_parts(keys: Seq<Seq<char>>, m: Map<Seq<char>, TypeV>) -> Seq<Seq<char>> {
    Seq::new(keys.len(), |i: int| keys[i] + tag(m[keys[i]]))
}

/// The name of the instance of `base` for the bindings.
pub open spec fn mangled(base: Seq<char>, keys: Seq<Seq<char>>, m: Map<Seq<char>, TypeV>) -> Seq<char> {
    base + "__"@ + join(sort_strs(mangle_parts(keys, m)), "_"@)
}

fn insert_in_order(v: &mut Vec<String>, x: String)
    ensures
        names_view(final(v)@) == names_view(old(v)@).insert(lower_bound(names_view(old(v)@), x@, 0), x@),
{
    let ghost s = names_view(v@);
    let mut i: usize = 0;
    while i < v.len() && string_lt(&v[i], &x)
        invariant
            s == names_view(v@),
            i <= v.len(),
            lower_bound(s, x@, 0) == lower_bound(s, x@, i as int),
        decreases v.len() - i,
    {
        i += 1;
    }
    proof {
        assert(lower_bound(s, x@, i as int) == i);
    }
    let ghost xv = x@;
    v.insert(i, x);
    proof {
        assert(names_view(v@) =~= s.insert(i as int, xv));
    }
}

/// The name of the instance of the template `base` for the bindings.
pub fn mangle(base: &str, subst: &StrMap<TrackType>) -> (r: String)
    requires
        subst.wf(),
    ensures
        r@ == mangled(base@, subst.key_seq(), subst.view()),
{
    let ghost keys = subst.key_seq();
    let ghost m = subst.view();
    let ghost parts = mangle_parts(keys, m);
    let mut sorted: Vec<String> = Vec::new();
    let mut i: usize = 0;
    proof {
        assert(parts.take(0) =~= Seq::<Seq<char>>::empty());
        assert(names_view(sorted@) =~= Seq::<Seq<char>>::empty());
    }
    while i < subst.len()
        invariant
            subst.wf(),
            keys == subst.key_seq(),
            m == subst.view(),
            parts == mangle_parts(keys, m),
            i <= keys.len(),
            names_view(sorted@) == sort_strs(parts.take(i as int)),
        decreases keys.len() - i,
    {
        let k = subst.key_at(i);
        let v = subst.value_at(i);
        let mut part = k.clone();
        push_type_tag(&mut part, v);
        proof {
            assert(part@ == parts[i as int]);
            assert(parts.take(i + 1).drop_last() =~= parts.take(i as int));
            assert(parts.take(i + 1).last() == parts[i as int]);
        }
        insert_in_order(&mut sorted, part);
        i += 1;
    }
    proof {
        assert(parts.take(keys.len() as int) =~= parts);
    }
    let mut out = string_of(base);
    push_str(&mut out, "__");
    let ghost start = out@;
    let ghost srt = names_view(sorted@);
    let mut j: usize = 0;
    proof {
        assert(srt.take(0) =~= Seq::<Seq<char>>::empty());
    }
    while j < sorted.len()
        invariant
            srt == names_view(sorted@),
            j <= sorted.len(),
            out@ == start + join(srt.take(j as int), "_"@),
        decreases sorted.len() - j,
    {
        if j > 0 {
            push_str(&mut out, "_");
        }
        push_string(&mut out, &sorted[j]);
        proof {
            assert(srt.take(j + 1).drop_last() =~= srt.take(j as int));
            assert(srt.take(j + 1).last() == sorted@[j as int]@);
            if j == 0 {
                assert(out@ =~= start + join(srt.take(1), "_"@));
            } else {
                assert(out@ =~= start + join(srt.take(j + 1), "_"@));
            }
        }
        j += 1;
    }
    proof {
        assert(srt.take(sorted.len() as int) =~= srt);
        assert(out@ =~= mangled(base@, keys, m));
    }
    out
}

/// The part of `s` after the last `::` that ends at or before `k`, or the
/// whole of `s`.
pub open spec fn base_from(s: Seq<char>, k: int) -> Seq<char>
    decreases k,
{
    if k < 2 || k > s.len() {
        s
    } else if s[k - 2] == ':' && s[k - 1] == ':' {
        s.skip(k)
    } else {
        base_from(s, k - 1)
    }
}

/// The part of a name after its last `::`, or the whole name.
pub open spec fn base_of(s: Seq<char>) -> Seq<char> {
    base_from(s, s.len() as int)
}

/// The part of a call's name after its last `::` (`Stack::push` gives
/// `push`).
pub fn base_name(name: &str) -> (r: String)
    ensures
        r@ == base_of(name@),
{
    let v = chars_of(name);
    let mut k: usize = v.len();
    while k >= 2
        invariant
            v@ == name@,
            k <= v@.len(),
            base_of(name@) == base_from(name@, k as int),
        decreases k,
    {
        if v[k - 2] == ':' && v[k - 1] == ':' {
            proof {
                assert(v@.subrange(k as int, v@.len() as int) =~= name@.skip(k as int));
            }
            return crate::text::string_from_chars(&v, k, v.len());
        }
        k -= 1;
    }
    proof {
        assert(v@.subrange(0, v@.len() as int) =~= v@);
    }
    crate::text::string_from_chars(&v, 0, v.len())
}

} // verus!
