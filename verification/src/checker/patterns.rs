use vstd::prelude::*;
use crate::ast::{Pattern, TrackType, TypeV};
use crate::checker::{LinearChecker, VariableState};
use crate::collections::DeepCopy;
use crate::text::string_of;

verus! {

/// The type given to the bindings of a variant pattern: the payloads of
/// `Value::Float` and of `Result`'s variants are `i64`, `Value::Bool`'s is
/// `bool`, every other is `i32`.
pub open spec fn variant_binding_type(eu: Seq<char>, v: Seq<char>) -> TypeV {
    if eu == "Value"@ && v == "Float"@ {
        TypeV::I64
    } else if eu == "Value"@ && v == "Bool"@ {
        TypeV::Bool
    } else if eu == "Result"@ && (v == "Ok"@ || v == "Err"@) {
        TypeV::I64
    } else {
        TypeV::I32
    }
}

/// The type of the `i`-th element of a tuple type; `i32` past its end or
/// for a type that is no tuple.
pub open spec fn element_type(ty: TypeV, i: int) -> TypeV {
    match ty {
        TypeV::Tuple(ts) => if 0 <= i < ts.len() {
            ts[i]
        } else {
            TypeV::I32
        },
        _ => TypeV::I32,
    }
}

/// The names a pattern binds, in order, each with its type: a name takes
/// the matched type, tuple elements take the tuple's element types, variant
/// payloads take `variant_binding_type`, struct fields `i32`.
pub open spec fn binds(p: Pattern, ty: TypeV) -> Seq<(Seq<char>, TypeV)>
    decreases p, 1nat,
{
    match p {
        Pattern::Ident(n) => seq![(n@, ty)],
        Pattern::Tuple(ps) => binds_tuple(ps@, ty),
        Pattern::Variant { enum_or_union, variant, bindings } => binds_same(
            bindings@,
            variant_binding_type(enum_or_union@, variant@),
        ),
        Pattern::Struct { fields, .. } => binds_fields(fields@),
        _ => Seq::empty(),
    }
}

/// The bindings of tuple elements, the `i`-th typed by `element_type`.
pub open spec fn binds_tuple(ps: Seq<Pattern>, ty: TypeV) -> Seq<(Seq<char>, TypeV)>
    decreases ps, 0nat,
{
    if ps.len() == 0 {
        Seq::empty()
    } else {
        binds_tuple(ps.drop_last(), ty) + binds(ps.last(), element_type(ty, ps.len() - 1))
    }
}

/// The bindings of patterns that all match the same type.
pub open spec fn binds_same(ps: Seq<Pattern>, ty: TypeV) -> Seq<(Seq<char>, TypeV)>
    decreases ps, 0nat,
{
    if ps.len() == 0 {
        Seq::empty()
    } else {
        binds_same(ps.drop_last(), ty) + binds(ps.last(), ty)
    }
}

/// The bindings of struct field patterns, each matching `i32`.
pub open spec fn binds_fields(fs: Seq<(String, Pattern)>) -> Seq<(Seq<char>, TypeV)>
    decreases fs, 0nat,
{
    if fs.len() == 0 {
        Seq::empty()
    } else {
        binds_fields(fs.drop_last()) + binds(fs.last().1, TypeV::I32)
    }
}

/// The registry with each bound name declared `Active`.
pub open spec fn activate(m: Map<Seq<char>, VariableState>, bs: Seq<(Seq<char>, TypeV)>) -> Map<
    Seq<char>,
    VariableState,
>
    decreases bs.len(),
{
    if bs.len() == 0 {
        m
    } else {
        activate(m, bs.drop_last()).insert(bs.last().0, VariableState::Active)
    }
}

/// The types with each bound name given its type, later bindings winning.
pub open spec fn retype(m: Map<Seq<char>, TypeV>, bs: Seq<(Seq<char>, TypeV)>) -> Map<Seq<char>, TypeV>
    decreases bs.len(),
{
    if bs.len() == 0 {
        m
    } else {
        retype(m, bs.drop_last()).insert(bs.last().0, bs.last().1)
    }
}

/// The names bound.
pub open spec fn bound_names(bs: Seq<(Seq<char>, TypeV)>) -> Set<Seq<char>> {
    Set::new(|n: Seq<char>| exists|i: int| 0 <= i < bs.len() && bs[i].0 == n)
}

proof fn lemma_activate_concat(m: Map<Seq<char>, VariableState>, a: Seq<(Seq<char>, TypeV)>, b: Seq<(Seq<char>, TypeV)>)
    ensures
        activate(m, a + b) == activate(activate(m, a), b),
    decreases b.len(),
{
    if b.len() > 0 {
        assert((a + b).drop_last() =~= a + b.drop_last());
        lemma_activate_concat(m, a, b.drop_last());
    } else {
        assert(a + b =~= a);
    }
}

proof fn lemma_retype_concat(m: Map<Seq<char>, TypeV>, a: Seq<(Seq<char>, TypeV)>, b: Seq<(Seq<char>, TypeV)>)
    ensures
        retype(m, a + b) == retype(retype(m, a), b),
    decreases b.len(),
{
    if b.len() > 0 {
        assert((a + b).drop_last() =~= a + b.drop_last());
        lemma_retype_concat(m, a, b.drop_last());
    } else {
        assert(a + b =~= a);
    }
}

proof fn lemma_names_concat(a: Seq<(Seq<char>, TypeV)>, b: Seq<(Seq<char>, TypeV)>)
    ensures
        bound_names(a + b) == bound_names(a).union(bound_names(b)),
{
    assert forall|n: Seq<char>| #[trigger] bound_names(a + b).contains(n) == bound_names(a).union(
        bound_names(b),
    ).contains(n) by {
        if bound_names(a + b).contains(n) {
            let i = choose|i: int| 0 <= i < (a + b).len() && (a + b)[i].0 == n;
            if i >= a.len() {
                assert(b[i - a.len()].0 == n);
            }
        }
        if bound_names(b).contains(n) {
            let i = choose|i: int| 0 <= i < b.len() && b[i].0 == n;
            assert((a + b)[i + a.len()].0 == n);
        }
        if bound_names(a).contains(n) {
            let i = choose|i: int| 0 <= i < a.len() && a[i].0 == n;
            assert((a + b)[i].0 == n);
        }
    }
    assert(bound_names(a + b) =~= bound_names(a).union(bound_names(b)));
}

/// What binding adds to `o`: its names `Active` in the registry, typed in
/// the type table, and mutable when `mutable` is set; all else unchanged.
pub open spec fn bound_into(
    d: LinearChecker,
    o: LinearChecker,
    bs: Seq<(Seq<char>, TypeV)>,
    mutable: bool,
) -> bool {
    &&& d.wf()
    &&& d.registry.view() == activate(o.registry.view(), bs)
    &&& d.types.view() == retype(o.types.view(), bs)
    &&& d.mutables.view() == (if mutable {
        o.mutables.view().union(bound_names(bs))
    } else {
        o.mutables.view()
    })
    &&& d.functions == o.functions
    &&& d.borrows == o.borrows
    &&& d.lens_locked == o.lens_locked
    &&& d.lens_aliases == o.lens_aliases
    &&& d.unions == o.unions
    &&& d.type_aliases == o.type_aliases
    &&& d.current_params == o.current_params
    &&& d.current_return_type == o.current_return_type
    &&& d.barebones == o.barebones
    &&& d.loaded_modules == o.loaded_modules
    &&& d.modules == o.modules
}

proof fn lemma_bound_into_trans(
    a: LinearChecker,
    b: LinearChecker,
    c: LinearChecker,
    x: Seq<(Seq<char>, TypeV)>,
    y: Seq<(Seq<char>, TypeV)>,
    mutable: bool,
)
    requires
        bound_into(b, a, x, mutable),
        bound_into(c, b, y, mutable),
    ensures
        bound_into(c, a, x + y, mutable),
{
    lemma_activate_concat(a.registry.view(), x, y);
    lemma_retype_concat(a.types.view(), x, y);
    lemma_names_concat(x, y);
    if mutable {
        assert(c.mutables.view() =~= a.mutables.view().union(bound_names(x + y)));
    }
}

proof fn lemma_bound_into_refl(a: LinearChecker, mutable: bool)
    requires
        a.wf(),
    ensures
        bound_into(a, a, Seq::empty(), mutable),
{
    assert(bound_names(Seq::<(Seq<char>, TypeV)>::empty()) =~= Set::empty());
    assert(a.mutables.view().union(Set::empty()) =~= a.mutables.view());
}

impl LinearChecker {
    /// Declares the variables that a pattern binds, with the types taken
    /// from the matched value's type where it has them.
    pub fn bind_pattern_variables(&mut self, pattern: &Pattern, target_type: &TrackType, mutable: bool) -> (r: Result<(), String>)
        requires
            old(self).wf(),
        ensures
            r is Ok,
            bound_into(*final(self), *old(self), binds(*pattern, target_type@), mutable),
        decreases pattern, 2nat,
    {
        proof {
            broadcast use vstd::std_specs::vec::axiom_vec_decreases_to_view;
            reveal_with_fuel(crate::ast::type_view, 2);
        }
        let ghost start = *self;
        match pattern {
            Pattern::Ident(name) => {
                self.declare(name.clone());
                self.types.insert(name.clone(), target_type.copy());
                if mutable {
                    self.mutables.insert(name.clone());
                }
                proof {
                    let bs = seq![(name@, target_type@)];
                    assert(bs.drop_last() =~= Seq::<(Seq<char>, TypeV)>::empty());
                    assert(bs.last() == (name@, target_type@));
                    assert(activate(start.registry.view(), bs.drop_last()) == start.registry.view());
                    assert(retype(start.types.view(), bs.drop_last()) == start.types.view());
                    assert(activate(start.registry.view(), bs) == start.registry.view().insert(name@, VariableState::Active));
                    assert(retype(start.types.view(), bs) == start.types.view().insert(name@, target_type@));
                    assert(binds(*pattern, target_type@) == bs);
                    assert(bound_names(bs) =~= set![name@]) by {
                        assert(bs[0].0 == name@);
                    }
                    if mutable {
                        assert(self.mutables.view() =~= start.mutables.view().union(bound_names(bs)));
                    }
                }
            },
            Pattern::Wildcard | Pattern::Literal(_) => {
                proof {
                    lemma_bound_into_refl(*self, mutable);
                    assert(binds(*pattern, target_type@) == Seq::<(Seq<char>, TypeV)>::empty());
                }
            },
            Pattern::Tuple(pats) => {
                let elem_types: Vec<TrackType> = match target_type {
                    TrackType::Tuple(types) => types.deep_copy(),
                    _ => Vec::new(),
                };
                let ghost tyv = target_type@;
                proof {
                    crate::ast::lemma_types_view(elem_types@);
                    match target_type {
                        TrackType::Tuple(types) => {
                            crate::ast::lemma_types_view(types@);
                            assert(elem_types.deep_view() =~= types.deep_view());
                            assert forall|j: int| 0 <= j < elem_types@.len() implies #[trigger] elem_types@[j]@ == element_type(tyv, j) by {
                                assert(elem_types.deep_view()[j] == types.deep_view()[j]);
                            }
                        },
                        _ => {},
                    }
                    lemma_bound_into_refl(*self, mutable);
                    assert(pats@.take(0) =~= Seq::<Pattern>::empty());
                }
                let mut i: usize = 0;
                while i < pats.len()
                    invariant
                        start == *old(self),
                        start.wf(),
                        tyv == target_type@,
                        *pattern == Pattern::Tuple(*pats),
                        i <= pats.len(),
                        forall|j: int| 0 <= j < elem_types@.len() ==> #[trigger] elem_types@[j]@ == element_type(tyv, j),
                        forall|j: int| elem_types@.len() <= j ==> element_type(tyv, j) == TypeV::I32,
                        bound_into(*self, start, binds_tuple(pats@.take(i as int), tyv), mutable),
                    decreases pats.len() - i,
                {
                    proof {
                        assert(decreases_to!(*pattern => (*pattern)->Tuple_0));
                        assert(decreases_to!(*pats => pats@));
                        assert(decreases_to!(pats@ => pats@[i as int]));
                        assert(pats@.take(i + 1).drop_last() =~= pats@.take(i as int));
                        assert(pats@.take(i + 1).last() == pats@[i as int]);
                    }
                    let ty = if i < elem_types.len() {
                        elem_types[i].copy()
                    } else {
                        TrackType::I32
                    };
                    proof {
                        if i >= elem_types@.len() {
                            assert(ty@ == TypeV::I32);
                        }
                    }
                    let ghost mid = *self;
                    let _ = self.bind_pattern_variables(&pats[i], &ty, mutable);
                    proof {
                        lemma_bound_into_trans(start, mid, *self, binds_tuple(pats@.take(i as int), tyv), binds(pats@[i as int], ty@), mutable);
                    }
                    i += 1;
                }
                proof {
                    assert(pats@.take(pats.len() as int) =~= pats@);
                    assert(binds(*pattern, target_type@) == binds_tuple(pats@, tyv));
                }
            },
            Pattern::Variant { enum_or_union, variant, bindings } => {
                let is_value = enum_or_union.eq(&string_of("Value"));
                let is_result = enum_or_union.eq(&string_of("Result"));
                let bind_ty = if is_value && variant.eq(&string_of("Float")) {
                    TrackType::I64
                } else if is_value && variant.eq(&string_of("Bool")) {
                    TrackType::Bool
                } else if is_result && (variant.eq(&string_of("Ok")) || variant.eq(&string_of("Err"))) {
                    TrackType::I64
                } else {
                    TrackType::I32
                };
                let ghost bt = variant_binding_type(enum_or_union@, variant@);
                proof {
                    assert(bind_ty@ == bt);
                    lemma_bound_into_refl(*self, mutable);
                    assert(bindings@.take(0) =~= Seq::<Pattern>::empty());
                }
                let mut i: usize = 0;
                while i < bindings.len()
                    invariant
                        start == *old(self),
                        start.wf(),
                        bind_ty@ == bt,
                        (*pattern) is Variant,
                        (*pattern)->Variant_bindings == *bindings,
                        i <= bindings.len(),
                        bound_into(*self, start, binds_same(bindings@.take(i as int), bt), mutable),
                    decreases bindings.len() - i,
                {
                    proof {
                        assert(decreases_to!(*pattern => (*pattern)->Variant_bindings));
                        assert(decreases_to!(*bindings => bindings@));
                        assert(decreases_to!(bindings@ => bindings@[i as int]));
                        assert(bindings@.take(i + 1).drop_last() =~= bindings@.take(i as int));
                        assert(bindings@.take(i + 1).last() == bindings@[i as int]);
                    }
                    let ghost mid = *self;
                    let _ = self.bind_pattern_variables(&bindings[i], &bind_ty, mutable);
                    proof {
                        lemma_bound_into_trans(start, mid, *self, binds_same(bindings@.take(i as int), bt), binds(bindings@[i as int], bt), mutable);
                    }
                    i += 1;
                }
                proof {
                    assert(bindings@.take(bindings.len() as int) =~= bindings@);
                    assert(binds(*pattern, target_type@) == binds_same(bindings@, bt));
                }
            },
            Pattern::Struct { fields, .. } => {
                proof {
                    lemma_bound_into_refl(*self, mutable);
                    assert(fields@.take(0) =~= Seq::<(String, Pattern)>::empty());
                }
                let mut i: usize = 0;
                while i < fields.len()
                    invariant
                        start == *old(self),
                        start.wf(),
                        (*pattern) is Struct,
                        (*pattern)->Struct_fields == *fields,
                        i <= fields.len(),
                        bound_into(*self, start, binds_fields(fields@.take(i as int)), mutable),
                    decreases fields.len() - i,
                {
                    proof {
                        assert(decreases_to!(*pattern => (*pattern)->Struct_fields));
                        assert(decreases_to!(*fields => fields@));
                        assert(decreases_to!(fields@ => fields@[i as int]));
                        assert(decreases_to!(fields@[i as int] => fields@[i as int].1));
                        assert(fields@.take(i + 1).drop_last() =~= fields@.take(i as int));
                        assert(fields@.take(i + 1).last() == fields@[i as int]);
                    }
                    let ghost mid = *self;
                    let ty = TrackType::I32;
                    let _ = self.bind_pattern_variables(&fields[i].1, &ty, mutable);
                    proof {
                        lemma_bound_into_trans(start, mid, *self, binds_fields(fields@.take(i as int)), binds(fields@[i as int].1, TypeV::I32), mutable);
                    }
                    i += 1;
                }
                proof {
                    assert(fields@.take(fields.len() as int) =~= fields@);
                    assert(binds(*pattern, target_type@) == binds_fields(fields@));
                }
            },
        }
        Ok(())
    }
}

} // verus!
