use vstd::prelude::*;
use crate::ast::{BinOp, Expr, TrackType, TypeV, UnaryOp};
use crate::checker::LinearChecker;

verus! {

/// The value of an optional type.
pub open spec fn opt_view(o: Option<TrackType>) -> Option<TypeV> {
    match o {
        Some(t) => Some(t@),
        None => None,
    }
}

/// Comparison operators, whose result is a `bool`.
pub open spec fn is_comparison_spec(op: BinOp) -> bool {
    match op {
        BinOp::Eq | BinOp::Neq | BinOp::Lt | BinOp::Gt | BinOp::Lte | BinOp::Gte => true,
        _ => false,
    }
}

/// Whether the operator compares.
pub fn is_comparison(op: &BinOp) -> (r: bool)
    ensures
        r == is_comparison_spec(*op),
{
    match op {
        BinOp::Eq | BinOp::Neq | BinOp::Lt | BinOp::Gt | BinOp::Lte | BinOp::Gte => true,
        _ => false,
    }
}

/// An inferred type, `i32` where none was found.
pub open spec fn or_i32(t: Option<TypeV>) -> TypeV {
    match t {
        Some(x) => x,
        None => TypeV::I32,
    }
}

/// The type inferred for an expression from the variable types and the
/// functions' return types, where one can be.
pub open spec fn infer(
    types: Map<Seq<char>, TypeV>,
    fns: Map<Seq<char>, Option<TypeV>>,
    e: Expr,
) -> Option<TypeV>
    decreases e, 0nat,
{
    match e {
        Expr::IntLiteral(_) => Some(TypeV::I32),
        Expr::BoolLiteral(_) => Some(TypeV::Bool),
        Expr::StringLiteral(_) => Some(TypeV::Ptr(Box::new(TypeV::I32))),
        Expr::Variable(n) => if types.contains_key(n@) {
            Some(types[n@])
        } else {
            None
        },
        Expr::BinaryOp { op, left, .. } => if is_comparison_spec(op) {
            Some(TypeV::Bool)
        } else {
            infer(types, fns, *left)
        },
        Expr::UnaryOp { op, expr } => match op {
            UnaryOp::Not => Some(TypeV::Bool),
            UnaryOp::Neg => infer(types, fns, *expr),
            UnaryOp::Deref => match infer(types, fns, *expr) {
                Some(TypeV::Ptr(i)) => Some(*i),
                Some(TypeV::Ref(i)) => Some(*i),
                _ => None,
            },
        },
        Expr::ArrayLiteral { elements } => Some(
            TypeV::Array(
                Box::new(
                    or_i32(
                        if elements@.len() > 0 {
                            infer(types, fns, elements@[0])
                        } else {
                            None
                        },
                    ),
                ),
                elements@.len() as usize,
            ),
        ),
        Expr::TupleLiteral { elements } => Some(TypeV::Tuple(infer_all(types, fns, elements@))),
        Expr::TupleIndex { target, index } => match infer(types, fns, *target) {
            Some(TypeV::Tuple(ts)) => if index < ts.len() {
                Some(ts[index as int])
            } else {
                None
            },
            Some(TypeV::Ref(inner)) => match *inner {
                TypeV::Tuple(ts) => if index < ts.len() {
                    Some(ts[index as int])
                } else {
                    None
                },
                _ => None,
            },
            _ => None,
        },
        Expr::ArrayIndex { target, .. } => match infer(types, fns, *target) {
            Some(TypeV::Array(i, _)) => Some(*i),
            Some(TypeV::Ptr(i)) => Some(*i),
            Some(TypeV::Slice(i)) => Some(*i),
            Some(TypeV::Ref(i)) => match *i {
                TypeV::Array(el, _) => Some(*el),
                TypeV::Ptr(el) => Some(*el),
                TypeV::Slice(el) => Some(*el),
                other => Some(other),
            },
            _ => None,
        },
        Expr::SliceIndex { target, .. } => match infer(types, fns, *target) {
            Some(TypeV::Array(i, _)) => Some(TypeV::Slice(i)),
            Some(TypeV::Slice(i)) => Some(TypeV::Slice(i)),
            Some(TypeV::Ptr(i)) => Some(TypeV::Slice(i)),
            Some(TypeV::Ref(i)) => match *i {
                TypeV::Array(el, _) => Some(TypeV::Slice(el)),
                TypeV::Slice(el) => Some(TypeV::Slice(el)),
                TypeV::Ptr(el) => Some(TypeV::Slice(el)),
                _ => None,
            },
            _ => None,
        },
        Expr::Range { .. } => Some(TypeV::Void),
        Expr::AddressOf { target } => match infer(types, fns, *target) {
            Some(t) => Some(TypeV::Ref(Box::new(t))),
            None => None,
        },
        Expr::StructInitialization { ty_name, .. } => Some(TypeV::Custom(ty_name@)),
        Expr::FunctionCall { name, .. } => if fns.contains_key(name@) {
            fns[name@]
        } else {
            None
        },
        Expr::LensBlock { body, .. } => if body@.len() > 0 {
            infer(types, fns, body@.last())
        } else {
            None
        },
        Expr::IfElse { then_body, .. } => if then_body@.len() > 0 {
            infer(types, fns, then_body@.last())
        } else {
            None
        },
        Expr::MacroCall { name, .. } => if name@ == "now"@ {
            Some(TypeV::I64)
        } else if fns.contains_key(name@) {
            fns[name@]
        } else {
            None
        },
        Expr::Match { arms, .. } => if arms@.len() > 0 {
            infer(types, fns, arms@[0].body)
        } else {
            None
        },
        _ => Some(TypeV::Void),
    }
}

/// The types inferred for each element, `i32` where none was found.
pub open spec fn infer_all(
    types: Map<Seq<char>, TypeV>,
    fns: Map<Seq<char>, Option<TypeV>>,
    s: Seq<Expr>,
) -> Seq<TypeV>
    decreases s, 1nat,
{
    if s.len() == 0 {
        Seq::empty()
    } else {
        infer_all(types, fns, s.drop_last()).push(or_i32(infer(types, fns, s.last())))
    }
}

proof fn lemma_infer_all(
    types: Map<Seq<char>, TypeV>,
    fns: Map<Seq<char>, Option<TypeV>>,
    s: Seq<Expr>,
)
    ensures
        infer_all(types, fns, s).len() == s.len(),
        forall|i: int|
            0 <= i < s.len() ==> #[trigger] infer_all(types, fns, s)[i] == or_i32(
                infer(types, fns, s[i]),
            ),
    decreases s.len(),
{
    if s.len() > 0 {
        lemma_infer_all(types, fns, s.drop_last());
    }
}

fn elements_type(c: &LinearChecker, whole: &Expr, elements: &Vec<Expr>) -> (r: Vec<TrackType>)
    requires
        c.wf(),
        *whole == (Expr::TupleLiteral { elements: *elements }),
    ensures
        crate::ast::types_view(r@) == infer_all(c.types.view(), c.functions.view(), elements@),
    decreases whole, 0nat,
{
    let ghost ty = c.types.view();
    let ghost fns = c.functions.view();
    let mut out: Vec<TrackType> = Vec::new();
    let mut i: usize = 0;
    proof {
        lemma_infer_all(ty, fns, elements@);
    }
    while i < elements.len()
        invariant
            c.wf(),
            ty == c.types.view(),
            fns == c.functions.view(),
            *whole == (Expr::TupleLiteral { elements: *elements }),
            i <= elements.len(),
            out@.len() == i,
            infer_all(ty, fns, elements@).len() == elements@.len(),
            forall|j: int|
                0 <= j < i ==> (#[trigger] out@[j])@ == infer_all(ty, fns, elements@)[j],
        decreases elements.len() - i,
    {
        proof {
            broadcast use vstd::std_specs::vec::axiom_vec_decreases_to_view;
            assert(decreases_to!(*whole => (*whole)->TupleLiteral_elements));
            assert(decreases_to!(*elements => elements@));
            assert(decreases_to!(elements@ => elements@[i as int]));
            lemma_infer_all(ty, fns, elements@);
        }
        let t = c.infer_type(&elements[i]);
        let t2 = match t {
            Some(x) => x,
            None => TrackType::I32,
        };
        out.push(t2);
        i += 1;
    }
    proof {
        crate::ast::lemma_types_view(out@);
        assert(crate::ast::types_view(out@) =~= infer_all(ty, fns, elements@));
    }
    out
}

impl LinearChecker {
    /// The type inferred for `expr`, where one can be.
    pub fn infer_type(&self, expr: &Expr) -> (r: Option<TrackType>)
        requires
            self.wf(),
        ensures
            opt_view(r) == infer(self.types.view(), self.functions.view(), *expr),
        decreases expr, 1nat,
    {
        proof {
            reveal_with_fuel(crate::ast::type_view, 3);
        }
        match expr {
            Expr::IntLiteral(_) => Some(TrackType::I32),
            Expr::BoolLiteral(_) => Some(TrackType::Bool),
            Expr::StringLiteral(_) => {
                let i = TrackType::I32;
                proof {
                    assert(i@ == TypeV::I32);
                }
                let t = TrackType::Ptr(Box::new(i));
                Some(t)
            },
            Expr::Variable(name) => match self.types.get(name.as_str()) {
                Some(t) => Some(t.copy()),
                None => None,
            },
            Expr::BinaryOp { op, left, .. } => {
                if is_comparison(op) {
                    Some(TrackType::Bool)
                } else {
                    self.infer_type(left)
                }
            },
            Expr::UnaryOp { op, expr: inner } => match op {
                UnaryOp::Not => Some(TrackType::Bool),
                UnaryOp::Neg => self.infer_type(inner),
                UnaryOp::Deref => match self.infer_type(inner) {
                    Some(TrackType::Ptr(i)) => Some(*i),
                    Some(TrackType::Ref(i)) => Some(*i),
                    _ => None,
                },
            },
            Expr::ArrayLiteral { elements } => {
                let first = if elements.len() > 0 {
                    proof {
                        broadcast use vstd::std_specs::vec::axiom_vec_decreases_to_view;
                        assert(decreases_to!(*expr => (*expr)->ArrayLiteral_elements));
                        assert(decreases_to!(*elements => elements@));
                        assert(decreases_to!(elements@ => elements@[0]));
                    }
                    self.infer_type(&elements[0])
                } else {
                    None
                };
                let el = match first {
                    Some(t) => t,
                    None => TrackType::I32,
                };
                let t = TrackType::Array(Box::new(el), elements.len());
                Some(t)
            },
            Expr::TupleLiteral { elements } => {
                let v = elements_type(self, expr, elements);
                Some(TrackType::Tuple(v))
            },
            Expr::TupleIndex { target, index } => match self.infer_type(target) {
                Some(TrackType::Tuple(ts)) => {
                    proof {
                        crate::ast::lemma_types_view(ts@);
                    }
                    if *index < ts.len() {
                        Some(ts[*index].copy())
                    } else {
                        None
                    }
                },
                Some(TrackType::Ref(inner)) => match *inner {
                    TrackType::Tuple(ts) => {
                        proof {
                            crate::ast::lemma_types_view(ts@);
                        }
                        if *index < ts.len() {
                            Some(ts[*index].copy())
                        } else {
                            None
                        }
                    },
                    _ => None,
                },
                _ => None,
            },
            Expr::ArrayIndex { target, .. } => match self.infer_type(target) {
                Some(TrackType::Array(i, _)) => Some(*i),
                Some(TrackType::Ptr(i)) => Some(*i),
                Some(TrackType::Slice(i)) => Some(*i),
                Some(TrackType::Ref(i)) => match *i {
                    TrackType::Array(el, _) => Some(*el),
                    TrackType::Ptr(el) => Some(*el),
                    TrackType::Slice(el) => Some(*el),
                    other => Some(other),
                },
                _ => None,
            },
            Expr::SliceIndex { target, .. } => match self.infer_type(target) {
                Some(TrackType::Array(i, _)) => Some(TrackType::Slice(i)),
                Some(TrackType::Slice(i)) => Some(TrackType::Slice(i)),
                Some(TrackType::Ptr(i)) => Some(TrackType::Slice(i)),
                Some(TrackType::Ref(i)) => match *i {
                    TrackType::Array(el, _) => Some(TrackType::Slice(el)),
                    TrackType::Slice(el) => Some(TrackType::Slice(el)),
                    TrackType::Ptr(el) => Some(TrackType::Slice(el)),
                    _ => None,
                },
                _ => None,
            },
            Expr::Range { .. } => Some(TrackType::Void),
            Expr::AddressOf { target } => match self.infer_type(target) {
                Some(t) => Some(TrackType::Ref(Box::new(t))),
                None => None,
            },
            Expr::StructInitialization { ty_name, .. } => Some(TrackType::Custom(ty_name.clone())),
            Expr::FunctionCall { name, .. } => match self.functions.get(name.as_str()) {
                Some(Some(t)) => Some(t.copy()),
                _ => None,
            },
            Expr::LensBlock { body, .. } => {
                if body.len() > 0 {
                    proof {
                        broadcast use vstd::std_specs::vec::axiom_vec_decreases_to_view;
                        assert(decreases_to!(*expr => (*expr)->LensBlock_body));
                        assert(decreases_to!(*body => body@));
                        assert(decreases_to!(body@ => body@[body@.len() - 1]));
                    }
                    self.infer_type(&body[body.len() - 1])
                } else {
                    None
                }
            },
            Expr::IfElse { then_body, .. } => {
                if then_body.len() > 0 {
                    proof {
                        broadcast use vstd::std_specs::vec::axiom_vec_decreases_to_view;
                        assert(decreases_to!(*expr => (*expr)->IfElse_then_body));
                        assert(decreases_to!(*then_body => then_body@));
                        assert(decreases_to!(then_body@ => then_body@[then_body@.len() - 1]));
                    }
                    self.infer_type(&then_body[then_body.len() - 1])
                } else {
                    None
                }
            },
            Expr::MacroCall { name, .. } => {
                if name.eq(&crate::text::string_of("now")) {
                    Some(TrackType::I64)
                } else {
                    match self.functions.get(name.as_str()) {
                        Some(Some(t)) => Some(t.copy()),
                        _ => None,
                    }
                }
            },
            Expr::Match { arms, .. } => {
                if arms.len() > 0 {
                    proof {
                        broadcast use vstd::std_specs::vec::axiom_vec_decreases_to_view;
                        assert(decreases_to!(*expr => (*expr)->Match_arms));
                        assert(decreases_to!(*arms => arms@));
                        assert(decreases_to!(arms@ => arms@[0]));
                        assert(decreases_to!(arms@[0] => arms@[0].body));
                    }
                    self.infer_type(&arms[0].body)
                } else {
                    None
                }
            },
            _ => Some(TrackType::Void),
        }
    }
}

} // verus!
