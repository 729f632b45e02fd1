use vstd::prelude::*;

verus! {

/// A node of a Track program: statements and expressions share one type.
#[derive(Debug, PartialEq)]
#[allow(inconsistent_fields)]
pub enum Expr {
    IntLiteral(i64),
    StringLiteral(String),
    BoolLiteral(bool),
    Variable(String),
    BinaryOp { op: BinOp, left: Box<Expr>, right: Box<Expr> },
    UnaryOp { op: UnaryOp, expr: Box<Expr> },
    ArrayLiteral { elements: Vec<Expr> },
    TupleLiteral { elements: Vec<Expr> },
    TupleIndex { target: Box<Expr>, index: usize },
    ArrayIndex { target: Box<Expr>, index: Box<Expr> },
    SliceIndex { target: Box<Expr>, start: Option<Box<Expr>>, end: Option<Box<Expr>> },
    Range { start: Box<Expr>, end: Box<Expr> },
    AddressOf { target: Box<Expr> },
    StructInitialization { ty_name: String, fields: Vec<(String, Expr)> },
    LensBlock { target: String, lens_name: String, body: Vec<Expr> },
    FunctionCall { name: String, args: Vec<Expr> },
    IfElse { condition: Box<Expr>, then_body: Vec<Expr>, else_body: Vec<Expr> },
    WhileLoop { condition: Box<Expr>, body: Vec<Expr> },
    ForIn { var: String, iter: Box<Expr>, body: Vec<Expr> },
    Return { value: Option<Box<Expr>> },
    Assign { target: Box<Expr>, value: Box<Expr> },
    FnDef {
        name: String,
        generics: Vec<String>,
        params: Vec<(String, TrackType)>,
        return_type: Option<TrackType>,
        body: Vec<Expr>,
    },
    Use { path: String, imports: Option<Vec<String>>, alias: Option<String> },
    ConstDef { name: String, value: Box<Expr> },
    MacroDef {
        name: String,
        params: Vec<(String, TrackType)>,
        return_type: Option<TrackType>,
        body: Vec<Expr>,
    },
    MacroCall { name: String, args: Vec<Expr>, body: Option<Vec<Expr>> },
    LetDef { name: String, mutable: bool, ty: Option<TrackType>, value: Box<Expr> },
    LetDestructure { pattern: Pattern, mutable: bool, value: Box<Expr> },
    EnumDef { name: String, underlying_type: Option<TrackType>, variants: Vec<(String, Option<Expr>)> },
    UnionDef { name: String, variants: Vec<(String, Option<TrackType>)> },
    TypeAlias { name: String, target: TrackType },
    Match { target: Box<Expr>, arms: Vec<MatchArm> },
}

/// The types of the Track language.
#[derive(Debug, PartialEq)]
pub enum TrackType {
    U8,
    I8,
    I32,
    U32,
    I64,
    U64,
    Bool,
    Ptr(Box<TrackType>),
    Ref(Box<TrackType>),
    Slice(Box<TrackType>),
    Array(Box<TrackType>, usize),
    Tuple(Vec<TrackType>),
    Void,
    Custom(String),
}

/// Binary operators.
#[derive(Debug, Clone, Copy, PartialEq, Eq, Structural)]
pub enum BinOp {
    Add,
    Sub,
    Mul,
    Div,
    Mod,
    Eq,
    Neq,
    Lt,
    Gt,
    Lte,
    Gte,
    And,
    Or,
    BitAnd,
    BitOr,
    Shl,
    Shr,
}

/// Unary operators.
#[derive(Debug, Clone, Copy, PartialEq, Eq, Structural)]
pub enum UnaryOp {
    Neg,
    Not,
    Deref,
}

/// One arm of a `match`: a pattern, an optional guard and a body.
#[derive(Debug, PartialEq)]
pub struct MatchArm {
    pub pattern: Pattern,
    pub guard: Option<Expr>,
    pub body: Expr,
}

/// Patterns of `match` arms and destructuring `let`s.
#[derive(Debug, PartialEq)]
pub enum Pattern {
    Ident(String),
    Variant { enum_or_union: String, variant: String, bindings: Vec<Pattern> },
    Tuple(Vec<Pattern>),
    Struct { name: String, fields: Vec<(String, Pattern)> },
    Literal(Box<Expr>),
    Wildcard,
}

/// The mathematical value of a `TrackType`: names as character sequences.
pub enum TypeV {
    U8,
    I8,
    I32,
    U32,
    I64,
    U64,
    Bool,
    Ptr(Box<TypeV>),
    Ref(Box<TypeV>),
    Slice(Box<TypeV>),
    Array(Box<TypeV>, usize),
    Tuple(Seq<TypeV>),
    Void,
    Custom(Seq<char>),
}

/// The value of a type.
pub open spec fn type_view(t: TrackType) -> TypeV
    decreases t, 0nat,
{
    match t {
        TrackType::U8 => TypeV::U8,
        TrackType::I8 => TypeV::I8,
        TrackType::I32 => TypeV::I32,
        TrackType::U32 => TypeV::U32,
        TrackType::I64 => TypeV::I64,
        TrackType::U64 => TypeV::U64,
        TrackType::Bool => TypeV::Bool,
        TrackType::Ptr(b) => TypeV::Ptr(Box::new(type_view(*b))),
        TrackType::Ref(b) => TypeV::Ref(Box::new(type_view(*b))),
        TrackType::Slice(b) => TypeV::Slice(Box::new(type_view(*b))),
        TrackType::Array(b, n) => TypeV::Array(Box::new(type_view(*b)), n),
        TrackType::Tuple(v) => TypeV::Tuple(types_view(v@)),
        TrackType::Void => TypeV::Void,
        TrackType::Custom(s) => TypeV::Custom(s@),
    }
}

/// The values of a sequence of types, element by element.
pub open spec fn types_view(s: Seq<TrackType>) -> Seq<TypeV>
    decreases s, 1nat,
{
    if s.len() == 0 {
        Seq::empty()
    } else {
        types_view(s.drop_last()).push(type_view(s.last()))
    }
}

impl View for TrackType {
    type V = TypeV;

    open spec fn view(&self) -> TypeV {
        type_view(*self)
    }
}

/// `types_view` has the length of its argument and maps each element.
pub proof fn lemma_types_view(s: Seq<TrackType>)
    ensures
        types_view(s).len() == s.len(),
        forall|i: int| 0 <= i < s.len() ==> #[trigger] types_view(s)[i] == type_view(s[i]),
    decreases s.len(),
{
    if s.len() > 0 {
        lemma_types_view(s.drop_last());
    }
}

/// Two sequences of types with element-wise equal values have equal values.
pub proof fn lemma_types_view_ext(a: Seq<TrackType>, b: Seq<TrackType>)
    requires
        a.len() == b.len(),
        forall|i: int| 0 <= i < a.len() ==> type_view(#[trigger] a[i]) == type_view(b[i]),
    ensures
        types_view(a) == types_view(b),
{
    lemma_types_view(a);
    lemma_types_view(b);
    assert(types_view(a) =~= types_view(b));
}

/// Every element of `s` is smaller than `whole`.
pub open spec fn decreases_into(whole: Expr, s: Seq<Expr>) -> bool {
    forall|i: int| 0 <= i < s.len() ==> #[trigger] (decreases_to!(whole => s[i]))
}

/// The elements of a list held by an expression are smaller than it.
pub proof fn lemma_vec_field(whole: Expr, v: Vec<Expr>)
    requires
        decreases_to!(whole => v),
    ensures
        decreases_into(whole, v@),
{
    broadcast use vstd::std_specs::vec::axiom_vec_decreases_to_view;

    assert forall|i: int| 0 <= i < v@.len() implies #[trigger] (decreases_to!(whole => v@[i])) by {
        assert(decreases_to!(v => v@));
        assert(decreases_to!(v@ => v@[i]));
    }
}

/// One element of a list held by an expression is smaller than it.
pub proof fn lemma_decreases_into(whole: Expr, s: Seq<Expr>, i: int)
    requires
        decreases_into(whole, s),
        0 <= i < s.len(),
    ensures
        decreases_to!(whole => s[i]),
{
}

impl TrackType {
    /// A copy of the type with the same value.
    pub fn copy(&self) -> (r: TrackType)
        ensures
            r@ == self@,
        decreases self,
    {
        match self {
            TrackType::U8 => TrackType::U8,
            TrackType::I8 => TrackType::I8,
            TrackType::I32 => TrackType::I32,
            TrackType::U32 => TrackType::U32,
            TrackType::I64 => TrackType::I64,
            TrackType::U64 => TrackType::U64,
            TrackType::Bool => TrackType::Bool,
            TrackType::Ptr(b) => TrackType::Ptr(Box::new(b.copy())),
            TrackType::Ref(b) => TrackType::Ref(Box::new(b.copy())),
            TrackType::Slice(b) => TrackType::Slice(Box::new(b.copy())),
            TrackType::Array(b, n) => TrackType::Array(Box::new(b.copy()), *n),
            TrackType::Tuple(v) => {
                let mut out: Vec<TrackType> = Vec::new();
                let mut i: usize = 0;
                while i < v.len()
                    invariant
                        i <= v.len(),
                        *self == TrackType::Tuple(*v),
                        out@.len() == i,
                        forall|j: int| 0 <= j < i ==> type_view(#[trigger] out@[j]) == type_view(v@[j]),
                    decreases v.len() - i,
                {
                    proof {
                        broadcast use vstd::std_specs::vec::axiom_vec_decreases_to_view;
                        assert(decreases_to!(*self => (*self)->Tuple_0));
                        assert(decreases_to!(*v => v@));
                        assert(decreases_to!(v@ => v@[i as int]));
                    }
                    let c = v[i].copy();
                    out.push(c);
                    i += 1;
                }
                proof {
                    lemma_types_view_ext(out@, v@);
                }
                TrackType::Tuple(out)
            },
            TrackType::Void => TrackType::Void,
            TrackType::Custom(s) => TrackType::Custom(s.clone()),
        }
    }

    /// Whether two types have the same value.
    pub fn same(&self, other: &TrackType) -> (r: bool)
        ensures
            r == (self@ == other@),
        decreases self, 1nat,
    {
        match self {
            TrackType::U8 => match other {
                TrackType::U8 => true,
                _ => false,
            },
            TrackType::I8 => match other {
                TrackType::I8 => true,
                _ => false,
            },
            TrackType::I32 => match other {
                TrackType::I32 => true,
                _ => false,
            },
            TrackType::U32 => match other {
                TrackType::U32 => true,
                _ => false,
            },
            TrackType::I64 => match other {
                TrackType::I64 => true,
                _ => false,
            },
            TrackType::U64 => match other {
                TrackType::U64 => true,
                _ => false,
            },
            TrackType::Bool => match other {
                TrackType::Bool => true,
                _ => false,
            },
            TrackType::Void => match other {
                TrackType::Void => true,
                _ => false,
            },
            TrackType::Ptr(a) => match other {
                TrackType::Ptr(b) => a.same(b),
                _ => false,
            },
            TrackType::Ref(a) => match other {
                TrackType::Ref(b) => a.same(b),
                _ => false,
            },
            TrackType::Slice(a) => match other {
                TrackType::Slice(b) => a.same(b),
                _ => false,
            },
            TrackType::Array(a, n) => match other {
                TrackType::Array(b, m) => *n == *m && a.same(b),
                _ => false,
            },
            TrackType::Custom(a) => match other {
                TrackType::Custom(b) => a.eq(b),
                _ => false,
            },
            TrackType::Tuple(a) => match other {
                TrackType::Tuple(b) => Self::same_list(self, a, b),
                _ => false,
            },
        }
    }

    fn same_list(whole: &TrackType, a: &Vec<TrackType>, b: &Vec<TrackType>) -> (r: bool)
        requires
            *whole == TrackType::Tuple(*a),
        ensures
            r == (types_view(a@) == types_view(b@)),
        decreases whole, 0nat,
    {
        proof {
            lemma_types_view(a@);
            lemma_types_view(b@);
        }
        if a.len() != b.len() {
            proof {
                assert(types_view(a@).len() != types_view(b@).len());
            }
            return false;
        }
        let mut i: usize = 0;
        while i < a.len()
            invariant
                i <= a.len(),
                a.len() == b.len(),
                *whole == TrackType::Tuple(*a),
                forall|j: int| 0 <= j < i ==> type_view(#[trigger] a@[j]) == type_view(b@[j]),
            decreases a.len() - i,
        {
            proof {
                broadcast use vstd::std_specs::vec::axiom_vec_decreases_to_view;
                assert(decreases_to!(*whole => (*whole)->Tuple_0));
                assert(decreases_to!(*a => a@));
                assert(decreases_to!(a@ => a@[i as int]));
            }
            if !a[i].same(&b[i]) {
                proof {
                    lemma_types_view(a@);
                    lemma_types_view(b@);
                    assert(types_view(a@)[i as int] != types_view(b@)[i as int]);
                }
                return false;
            }
            i += 1;
        }
        proof {
            lemma_types_view_ext(a@, b@);
        }
        true
    }
}

impl Clone for TrackType {
    fn clone(&self) -> (r: Self)
        ensures
            r@ == self@,
    {
        self.copy()
    }
}

} // verus!

verus! {

fn copy_opt_type(t: &Option<TrackType>) -> (r: Option<TrackType>)
    ensures
        match (r, *t) {
            (Some(a), Some(b)) => a@ == b@,
            (None, None) => true,
            _ => false,
        },
{
    match t {
        Some(x) => Some(x.copy()),
        None => None,
    }
}

fn copy_typed_names(v: &Vec<(String, TrackType)>) -> (r: Vec<(String, TrackType)>)
    ensures
        params_v(r@) == params_v(v@),
{
    let mut out: Vec<(String, TrackType)> = Vec::new();
    let mut i: usize = 0;
    while i < v.len()
        invariant
            i <= v.len(),
            out@.len() == i,
            forall|j: int| 0 <= j < i ==> (#[trigger] out@[j]).0@ == v@[j].0@ && out@[j].1@ == v@[j].1@,
        decreases v.len() - i,
    {
        out.push((v[i].0.clone(), v[i].1.copy()));
        i += 1;
    }
    proof {
        assert(params_v(out@) =~= params_v(v@));
    }
    out
}

fn copy_strings(v: &Vec<String>) -> (r: Vec<String>)
    ensures
        strs_v(r@) == strs_v(v@),
{
    let mut out: Vec<String> = Vec::new();
    let mut i: usize = 0;
    while i < v.len()
        invariant
            i <= v.len(),
            out@.len() == i,
            forall|j: int| 0 <= j < i ==> (#[trigger] out@[j])@ == v@[j]@,
        decreases v.len() - i,
    {
        out.push(v[i].clone());
        i += 1;
    }
    proof {
        assert(strs_v(out@) =~= strs_v(v@));
    }
    out
}

fn copy_list(whole: &Expr, v: &Vec<Expr>) -> (r: Vec<Expr>)
    requires
        decreases_into(*whole, v@),
    ensures
        exprs_v(r@) == exprs_v(v@),
    decreases whole, 0nat,
{
    let mut out: Vec<Expr> = Vec::new();
    let mut i: usize = 0;
    proof {
        assert(v@.take(0) =~= Seq::<Expr>::empty());
    }
    while i < v.len()
        invariant
            i <= v.len(),
            decreases_into(*whole, v@),
            exprs_v(out@) == exprs_v(v@.take(i as int)),
        decreases v.len() - i,
    {
        proof {
            lemma_decreases_into(*whole, v@, i as int);
        }
        let c = v[i].copy();
        let ghost before = out@;
        out.push(c);
        proof {
            assert(out@.drop_last() =~= before);
            assert(v@.take(i + 1).drop_last() =~= v@.take(i as int));
        }
        i += 1;
    }
    proof {
        assert(v@.take(v@.len() as int) =~= v@);
    }
    out
}

/// Every part of the match arm is smaller than `whole`.
pub open spec fn arm_within(whole: Expr, arm: MatchArm) -> bool {
    &&& decreases_to!(whole => arm.body)
    &&& decreases_to!(whole => arm.pattern)
    &&& (arm.guard is Some ==> decreases_to!(whole => arm.guard->Some_0))
}

fn copy_fields(whole: &Expr, fields: &Vec<(String, Expr)>) -> (r: Vec<(String, Expr)>)
    requires
        forall|k: int| 0 <= k < fields@.len() ==> #[trigger] decreases_to!(*whole => fields@[k].1),
    ensures
        fields_v(r@) == fields_v(fields@),
    decreases whole, 0nat,
{
    let mut out: Vec<(String, Expr)> = Vec::new();
    let mut i: usize = 0;
    proof {
        assert(fields@.take(0) =~= Seq::<(String, Expr)>::empty());
    }
    while i < fields.len()
        invariant
            i <= fields.len(),
            forall|k: int| 0 <= k < fields@.len() ==> #[trigger] decreases_to!(*whole => fields@[k].1),
            fields_v(out@) == fields_v(fields@.take(i as int)),
        decreases fields.len() - i,
    {
        let c = (fields[i].0.clone(), fields[i].1.copy());
        let ghost before = out@;
        out.push(c);
        proof {
            assert(out@.drop_last() =~= before);
            assert(fields@.take(i + 1).drop_last() =~= fields@.take(i as int));
        }
        i += 1;
    }
    proof {
        assert(fields@.take(fields@.len() as int) =~= fields@);
    }
    out
}

fn copy_variants(whole: &Expr, variants: &Vec<(String, Option<Expr>)>) -> (r: Vec<(String, Option<Expr>)>)
    requires
        forall|k: int| 0 <= k < variants@.len() && (#[trigger] variants@[k]).1 is Some ==> decreases_to!(*whole => variants@[k].1->Some_0),
    ensures
        variants_v(r@) == variants_v(variants@),
    decreases whole, 0nat,
{
    let mut out: Vec<(String, Option<Expr>)> = Vec::new();
    let mut i: usize = 0;
    proof {
        assert(variants@.take(0) =~= Seq::<(String, Option<Expr>)>::empty());
    }
    while i < variants.len()
        invariant
            i <= variants.len(),
            forall|k: int| 0 <= k < variants@.len() && (#[trigger] variants@[k]).1 is Some ==> decreases_to!(*whole => variants@[k].1->Some_0),
            variants_v(out@) == variants_v(variants@.take(i as int)),
        decreases variants.len() - i,
    {
        let v = match &variants[i].1 {
            Some(e) => Some(e.copy()),
            None => None,
        };
        let c = (variants[i].0.clone(), v);
        let ghost before = out@;
        out.push(c);
        proof {
            assert(out@.drop_last() =~= before);
            assert(variants@.take(i + 1).drop_last() =~= variants@.take(i as int));
        }
        i += 1;
    }
    proof {
        assert(variants@.take(variants@.len() as int) =~= variants@);
    }
    out
}

fn copy_union_variants(variants: &Vec<(String, Option<TrackType>)>) -> (r: Vec<(String, Option<TrackType>)>)
    ensures
        union_v(r@) == union_v(variants@),
{
    let mut out: Vec<(String, Option<TrackType>)> = Vec::new();
    let mut i: usize = 0;
    while i < variants.len()
        invariant
            i <= variants.len(),
            out@.len() == i,
            forall|j: int| 0 <= j < i ==> (#[trigger] out@[j]).0@ == variants@[j].0@ && opt_type_v(out@[j].1) == opt_type_v(variants@[j].1),
        decreases variants.len() - i,
    {
        out.push((variants[i].0.clone(), copy_opt_type(&variants[i].1)));
        i += 1;
    }
    proof {
        assert(union_v(out@) =~= union_v(variants@));
    }
    out
}

fn copy_arms(whole: &Expr, arms: &Vec<MatchArm>) -> (r: Vec<MatchArm>)
    requires
        forall|k: int| 0 <= k < arms@.len() ==> arm_within(*whole, #[trigger] arms@[k]),
    ensures
        arms_v(r@) == arms_v(arms@),
    decreases whole, 0nat,
{
    let mut out: Vec<MatchArm> = Vec::new();
    let mut i: usize = 0;
    proof {
        assert(arms@.take(0) =~= Seq::<MatchArm>::empty());
    }
    while i < arms.len()
        invariant
            i <= arms.len(),
            forall|k: int| 0 <= k < arms@.len() ==> arm_within(*whole, #[trigger] arms@[k]),
            arms_v(out@) == arms_v(arms@.take(i as int)),
        decreases arms.len() - i,
    {
        proof {
            assert(arm_within(*whole, arms@[i as int]));
        }
        let g = match &arms[i].guard {
            Some(ge) => Some(ge.copy()),
            None => None,
        };
        let c = MatchArm { pattern: arms[i].pattern.copy(), guard: g, body: arms[i].body.copy() };
        let ghost before = out@;
        out.push(c);
        proof {
            assert(out@.drop_last() =~= before);
            assert(arms@.take(i + 1).drop_last() =~= arms@.take(i as int));
        }
        i += 1;
    }
    proof {
        assert(arms@.take(arms@.len() as int) =~= arms@);
    }
    out
}

fn copy_patterns(whole: &Pattern, v: &Vec<Pattern>) -> (r: Vec<Pattern>)
    requires
        forall|k: int| 0 <= k < v@.len() ==> #[trigger] decreases_to!(*whole => v@[k]),
    ensures
        patterns_v(r@) == patterns_v(v@),
    decreases whole, 0nat,
{
    let mut out: Vec<Pattern> = Vec::new();
    let mut i: usize = 0;
    proof {
        assert(v@.take(0) =~= Seq::<Pattern>::empty());
    }
    while i < v.len()
        invariant
            i <= v.len(),
            forall|k: int| 0 <= k < v@.len() ==> #[trigger] decreases_to!(*whole => v@[k]),
            patterns_v(out@) == patterns_v(v@.take(i as int)),
        decreases v.len() - i,
    {
        let c = v[i].copy();
        let ghost before = out@;
        out.push(c);
        proof {
            assert(out@.drop_last() =~= before);
            assert(v@.take(i + 1).drop_last() =~= v@.take(i as int));
        }
        i += 1;
    }
    proof {
        assert(v@.take(v@.len() as int) =~= v@);
    }
    out
}

fn copy_pfields(whole: &Pattern, fields: &Vec<(String, Pattern)>) -> (r: Vec<(String, Pattern)>)
    requires
        forall|k: int| 0 <= k < fields@.len() ==> #[trigger] decreases_to!(*whole => fields@[k].1),
    ensures
        pfields_v(r@) == pfields_v(fields@),
    decreases whole, 0nat,
{
    let mut out: Vec<(String, Pattern)> = Vec::new();
    let mut i: usize = 0;
    proof {
        assert(fields@.take(0) =~= Seq::<(String, Pattern)>::empty());
    }
    while i < fields.len()
        invariant
            i <= fields.len(),
            forall|k: int| 0 <= k < fields@.len() ==> #[trigger] decreases_to!(*whole => fields@[k].1),
            pfields_v(out@) == pfields_v(fields@.take(i as int)),
        decreases fields.len() - i,
    {
        let c = (fields[i].0.clone(), fields[i].1.copy());
        let ghost before = out@;
        out.push(c);
        proof {
            assert(out@.drop_last() =~= before);
            assert(fields@.take(i + 1).drop_last() =~= fields@.take(i as int));
        }
        i += 1;
    }
    proof {
        assert(fields@.take(fields@.len() as int) =~= fields@);
    }
    out
}

impl Expr {
    /// A copy of the expression.
    pub fn copy(&self) -> (r: Expr)
        ensures
            r@ == self@,
        decreases self, 1nat,
    {
        proof {
            broadcast use vstd::std_specs::vec::axiom_vec_decreases_to_view;
        }
        match self {
            Expr::IntLiteral(n) => Expr::IntLiteral(*n),
            Expr::StringLiteral(s) => Expr::StringLiteral(s.clone()),
            Expr::BoolLiteral(b) => Expr::BoolLiteral(*b),
            Expr::Variable(s) => Expr::Variable(s.clone()),
            Expr::BinaryOp { op, left, right } => Expr::BinaryOp {
                op: *op,
                left: Box::new(left.copy()),
                right: Box::new(right.copy()),
            },
            Expr::UnaryOp { op, expr } => Expr::UnaryOp { op: *op, expr: Box::new(expr.copy()) },
            Expr::ArrayLiteral { elements } => {
                proof {
                    lemma_vec_field(*self, *elements);
                }
                Expr::ArrayLiteral { elements: copy_list(self, elements) }
            },
            Expr::TupleLiteral { elements } => {
                proof {
                    lemma_vec_field(*self, *elements);
                }
                Expr::TupleLiteral { elements: copy_list(self, elements) }
            },
            Expr::TupleIndex { target, index } => Expr::TupleIndex {
                target: Box::new(target.copy()),
                index: *index,
            },
            Expr::ArrayIndex { target, index } => Expr::ArrayIndex {
                target: Box::new(target.copy()),
                index: Box::new(index.copy()),
            },
            Expr::SliceIndex { target, start, end } => {
                let s = match start {
                    Some(x) => Some(Box::new(x.copy())),
                    None => None,
                };
                let e = match end {
                    Some(x) => Some(Box::new(x.copy())),
                    None => None,
                };
                Expr::SliceIndex { target: Box::new(target.copy()), start: s, end: e }
            },
            Expr::Range { start, end } => Expr::Range {
                start: Box::new(start.copy()),
                end: Box::new(end.copy()),
            },
            Expr::AddressOf { target } => Expr::AddressOf { target: Box::new(target.copy()) },
            Expr::StructInitialization { ty_name, fields } => {
                proof {
                    assert forall|k: int| 0 <= k < fields@.len() implies #[trigger] decreases_to!(*self => fields@[k].1) by {
                        assert(decreases_to!(*self => (*self)->StructInitialization_fields));
                        assert(decreases_to!(*fields => fields@));
                        assert(decreases_to!(fields@ => fields@[k]));
                        assert(decreases_to!(fields@[k] => fields@[k].1));
                    }
                }
                Expr::StructInitialization { ty_name: ty_name.clone(), fields: copy_fields(self, fields) }
            },
            Expr::LensBlock { target, lens_name, body } => {
                proof {
                    lemma_vec_field(*self, *body);
                }
                Expr::LensBlock {
                    target: target.clone(),
                    lens_name: lens_name.clone(),
                    body: copy_list(self, body),
                }
            },
            Expr::FunctionCall { name, args } => {
                proof {
                    lemma_vec_field(*self, *args);
                }
                Expr::FunctionCall { name: name.clone(), args: copy_list(self, args) }
            },
            Expr::IfElse { condition, then_body, else_body } => {
                proof {
                    lemma_vec_field(*self, *then_body);
                    lemma_vec_field(*self, *else_body);
                }
                Expr::IfElse {
                    condition: Box::new(condition.copy()),
                    then_body: copy_list(self, then_body),
                    else_body: copy_list(self, else_body),
                }
            },
            Expr::WhileLoop { condition, body } => {
                proof {
                    lemma_vec_field(*self, *body);
                }
                Expr::WhileLoop { condition: Box::new(condition.copy()), body: copy_list(self, body) }
            },
            Expr::ForIn { var, iter, body } => {
                proof {
                    lemma_vec_field(*self, *body);
                }
                Expr::ForIn {
                    var: var.clone(),
                    iter: Box::new(iter.copy()),
                    body: copy_list(self, body),
                }
            },
            Expr::Return { value } => Expr::Return {
                value: match value {
                    Some(v) => Some(Box::new(v.copy())),
                    None => None,
                },
            },
            Expr::Assign { target, value } => Expr::Assign {
                target: Box::new(target.copy()),
                value: Box::new(value.copy()),
            },
            Expr::FnDef { name, generics, params, return_type, body } => {
                proof {
                    lemma_vec_field(*self, *body);
                }
                Expr::FnDef {
                    name: name.clone(),
                    generics: copy_strings(generics),
                    params: copy_typed_names(params),
                    return_type: copy_opt_type(return_type),
                    body: copy_list(self, body),
                }
            },
            Expr::Use { path, imports, alias } => Expr::Use {
                path: path.clone(),
                imports: match imports {
                    Some(v) => Some(copy_strings(v)),
                    None => None,
                },
                alias: match alias {
                    Some(a) => Some(a.clone()),
                    None => None,
                },
            },
            Expr::ConstDef { name, value } => Expr::ConstDef {
                name: name.clone(),
                value: Box::new(value.copy()),
            },
            Expr::MacroDef { name, params, return_type, body } => {
                proof {
                    lemma_vec_field(*self, *body);
                }
                Expr::MacroDef {
                    name: name.clone(),
                    params: copy_typed_names(params),
                    return_type: copy_opt_type(return_type),
                    body: copy_list(self, body),
                }
            },
            Expr::MacroCall { name, args, body } => {
                proof {
                    lemma_vec_field(*self, *args);
                }
                let b = match body {
                    Some(v) => {
                        proof {
                            assert(decreases_to!(*self => (*self)->MacroCall_body));
                            assert(decreases_to!((*self)->MacroCall_body => *v));
                            lemma_vec_field(*self, *v);
                        }
                        Some(copy_list(self, v))
                    },
                    None => None,
                };
                Expr::MacroCall { name: name.clone(), args: copy_list(self, args), body: b }
            },
            Expr::LetDef { name, mutable, ty, value } => Expr::LetDef {
                name: name.clone(),
                mutable: *mutable,
                ty: copy_opt_type(ty),
                value: Box::new(value.copy()),
            },
            Expr::LetDestructure { pattern, mutable, value } => Expr::LetDestructure {
                pattern: pattern.copy(),
                mutable: *mutable,
                value: Box::new(value.copy()),
            },
            Expr::EnumDef { name, underlying_type, variants } => {
                proof {
                    assert forall|k: int| 0 <= k < variants@.len() && (#[trigger] variants@[k]).1 is Some implies decreases_to!(*self => variants@[k].1->Some_0) by {
                        assert(decreases_to!(*self => (*self)->EnumDef_variants));
                        assert(decreases_to!(*variants => variants@));
                        assert(decreases_to!(variants@ => variants@[k]));
                        assert(decreases_to!(variants@[k] => variants@[k].1));
                        assert(decreases_to!(variants@[k].1 => variants@[k].1->Some_0));
                    }
                }
                Expr::EnumDef {
                    name: name.clone(),
                    underlying_type: copy_opt_type(underlying_type),
                    variants: copy_variants(self, variants),
                }
            },
            Expr::UnionDef { name, variants } => Expr::UnionDef {
                name: name.clone(),
                variants: copy_union_variants(variants),
            },
            Expr::TypeAlias { name, target } => Expr::TypeAlias {
                name: name.clone(),
                target: target.copy(),
            },
            Expr::Match { target, arms } => {
                proof {
                    assert forall|k: int| 0 <= k < arms@.len() implies arm_within(*self, #[trigger] arms@[k]) by {
                        assert(decreases_to!(*self => (*self)->Match_arms));
                        assert(decreases_to!(*arms => arms@));
                        assert(decreases_to!(arms@ => arms@[k]));
                        assert(decreases_to!(arms@[k] => arms@[k].body));
                        assert(decreases_to!(arms@[k] => arms@[k].pattern));
                        assert(decreases_to!(arms@[k] => arms@[k].guard));
                        if arms@[k].guard is Some {
                            assert(decreases_to!(arms@[k].guard => arms@[k].guard->Some_0));
                        }
                    }
                }
                Expr::Match { target: Box::new(target.copy()), arms: copy_arms(self, arms) }
            },
        }
    }
}

impl Pattern {
    /// A copy of the pattern.
    pub fn copy(&self) -> (r: Pattern)
        ensures
            r@ == self@,
        decreases self, 1nat,
    {
        proof {
            broadcast use vstd::std_specs::vec::axiom_vec_decreases_to_view;
        }
        match self {
            Pattern::Ident(s) => Pattern::Ident(s.clone()),
            Pattern::Wildcard => Pattern::Wildcard,
            Pattern::Literal(e) => Pattern::Literal(Box::new(e.copy())),
            Pattern::Tuple(ps) => {
                proof {
                    assert forall|k: int| 0 <= k < ps@.len() implies #[trigger] decreases_to!(*self => ps@[k]) by {
                        assert(decreases_to!(*self => (*self)->Tuple_0));
                        assert(decreases_to!(*ps => ps@));
                        assert(decreases_to!(ps@ => ps@[k]));
                    }
                }
                Pattern::Tuple(copy_patterns(self, ps))
            },
            Pattern::Variant { enum_or_union, variant, bindings } => {
                proof {
                    assert forall|k: int| 0 <= k < bindings@.len() implies #[trigger] decreases_to!(*self => bindings@[k]) by {
                        assert(decreases_to!(*self => (*self)->Variant_bindings));
                        assert(decreases_to!(*bindings => bindings@));
                        assert(decreases_to!(bindings@ => bindings@[k]));
                    }
                }
                Pattern::Variant {
                    enum_or_union: enum_or_union.clone(),
                    variant: variant.clone(),
                    bindings: copy_patterns(self, bindings),
                }
            },
            Pattern::Struct { name, fields } => {
                proof {
                    assert forall|k: int| 0 <= k < fields@.len() implies #[trigger] decreases_to!(*self => fields@[k].1) by {
                        assert(decreases_to!(*self => (*self)->Struct_fields));
                        assert(decreases_to!(*fields => fields@));
                        assert(decreases_to!(fields@ => fields@[k]));
                        assert(decreases_to!(fields@[k] => fields@[k].1));
                    }
                }
                Pattern::Struct { name: name.clone(), fields: copy_pfields(self, fields) }
            },
        }
    }
}

impl Clone for Expr {
    fn clone(&self) -> (r: Self)
        ensures
            r@ == self@,
    {
        self.copy()
    }
}

impl Clone for Pattern {
    fn clone(&self) -> (r: Self)
        ensures
            r@ == self@,
    {
        self.copy()
    }
}

} // verus!

verus! {

/// The mathematical value of an expression: names as character sequences,
/// lists as sequences, types as their values.
pub enum ExprV {
    IntLiteral(i64),
    StringLiteral(Seq<char>),
    BoolLiteral(bool),
    Variable(Seq<char>),
    BinaryOp(BinOp, Box<ExprV>, Box<ExprV>),
    UnaryOp(UnaryOp, Box<ExprV>),
    ArrayLiteral(Seq<ExprV>),
    TupleLiteral(Seq<ExprV>),
    TupleIndex(Box<ExprV>, usize),
    ArrayIndex(Box<ExprV>, Box<ExprV>),
    SliceIndex(Box<ExprV>, Option<Box<ExprV>>, Option<Box<ExprV>>),
    Range(Box<ExprV>, Box<ExprV>),
    AddressOf(Box<ExprV>),
    StructInitialization(Seq<char>, Seq<(Seq<char>, ExprV)>),
    LensBlock(Seq<char>, Seq<char>, Seq<ExprV>),
    FunctionCall(Seq<char>, Seq<ExprV>),
    IfElse(Box<ExprV>, Seq<ExprV>, Seq<ExprV>),
    WhileLoop(Box<ExprV>, Seq<ExprV>),
    ForIn(Seq<char>, Box<ExprV>, Seq<ExprV>),
    Return(Option<Box<ExprV>>),
    Assign(Box<ExprV>, Box<ExprV>),
    FnDef(Seq<char>, Seq<Seq<char>>, Seq<(Seq<char>, TypeV)>, Option<TypeV>, Seq<ExprV>),
    Use(Seq<char>, Option<Seq<Seq<char>>>, Option<Seq<char>>),
    ConstDef(Seq<char>, Box<ExprV>),
    MacroDef(Seq<char>, Seq<(Seq<char>, TypeV)>, Option<TypeV>, Seq<ExprV>),
    MacroCall(Seq<char>, Seq<ExprV>, Option<Seq<ExprV>>),
    LetDef(Seq<char>, bool, Option<TypeV>, Box<ExprV>),
    LetDestructure(PatternV, bool, Box<ExprV>),
    EnumDef(Seq<char>, Option<TypeV>, Seq<(Seq<char>, Option<ExprV>)>),
    UnionDef(Seq<char>, Seq<(Seq<char>, Option<TypeV>)>),
    TypeAlias(Seq<char>, TypeV),
    Match(Box<ExprV>, Seq<(PatternV, Option<ExprV>, ExprV)>),
}

/// The mathematical value of a pattern.
pub enum PatternV {
    Ident(Seq<char>),
    Variant(Seq<char>, Seq<char>, Seq<PatternV>),
    Tuple(Seq<PatternV>),
    Struct(Seq<char>, Seq<(Seq<char>, PatternV)>),
    Literal(Box<ExprV>),
    Wildcard,
}

/// The names of a list of strings.
pub open spec fn strs_v(s: Seq<String>) -> Seq<Seq<char>> {
    Seq::new(s.len(), |i: int| s[i]@)
}

/// The values of named types.
pub open spec fn params_v(s: Seq<(String, TrackType)>) -> Seq<(Seq<char>, TypeV)> {
    Seq::new(s.len(), |i: int| (s[i].0@, s[i].1@))
}

/// The value of an optional type.
pub open spec fn opt_type_v(t: Option<TrackType>) -> Option<TypeV> {
    match t {
        Some(x) => Some(x@),
        None => None,
    }
}

/// The values of union variants.
pub open spec fn union_v(s: Seq<(String, Option<TrackType>)>) -> Seq<(Seq<char>, Option<TypeV>)> {
    Seq::new(s.len(), |i: int| (s[i].0@, opt_type_v(s[i].1)))
}

/// The value of an expression.
pub open spec fn expr_v(e: Expr) -> ExprV
    decreases e, 0nat,
{
    match e {
        Expr::IntLiteral(n) => ExprV::IntLiteral(n),
        Expr::StringLiteral(s) => ExprV::StringLiteral(s@),
        Expr::BoolLiteral(b) => ExprV::BoolLiteral(b),
        Expr::Variable(s) => ExprV::Variable(s@),
        Expr::BinaryOp { op, left, right } => ExprV::BinaryOp(op, Box::new(expr_v(*left)), Box::new(expr_v(*right))),
        Expr::UnaryOp { op, expr } => ExprV::UnaryOp(op, Box::new(expr_v(*expr))),
        Expr::ArrayLiteral { elements } => ExprV::ArrayLiteral(exprs_v(elements@)),
        Expr::TupleLiteral { elements } => ExprV::TupleLiteral(exprs_v(elements@)),
        Expr::TupleIndex { target, index } => ExprV::TupleIndex(Box::new(expr_v(*target)), index),
        Expr::ArrayIndex { target, index } => ExprV::ArrayIndex(Box::new(expr_v(*target)), Box::new(expr_v(*index))),
        Expr::SliceIndex { target, start, end } => ExprV::SliceIndex(
            Box::new(expr_v(*target)),
            match start {
                Some(x) => Some(Box::new(expr_v(*x))),
                None => None,
            },
            match end {
                Some(x) => Some(Box::new(expr_v(*x))),
                None => None,
            },
        ),
        Expr::Range { start, end } => ExprV::Range(Box::new(expr_v(*start)), Box::new(expr_v(*end))),
        Expr::AddressOf { target } => ExprV::AddressOf(Box::new(expr_v(*target))),
        Expr::StructInitialization { ty_name, fields } => ExprV::StructInitialization(ty_name@, fields_v(fields@)),
        Expr::LensBlock { target, lens_name, body } => ExprV::LensBlock(target@, lens_name@, exprs_v(body@)),
        Expr::FunctionCall { name, args } => ExprV::FunctionCall(name@, exprs_v(args@)),
        Expr::IfElse { condition, then_body, else_body } => ExprV::IfElse(
            Box::new(expr_v(*condition)),
            exprs_v(then_body@),
            exprs_v(else_body@),
        ),
        Expr::WhileLoop { condition, body } => ExprV::WhileLoop(Box::new(expr_v(*condition)), exprs_v(body@)),
        Expr::ForIn { var, iter, body } => ExprV::ForIn(var@, Box::new(expr_v(*iter)), exprs_v(body@)),
        Expr::Return { value } => ExprV::Return(
            match value {
                Some(v) => Some(Box::new(expr_v(*v))),
                None => None,
            },
        ),
        Expr::Assign { target, value } => ExprV::Assign(Box::new(expr_v(*target)), Box::new(expr_v(*value))),
        Expr::FnDef { name, generics, params, return_type, body } => ExprV::FnDef(
            name@,
            strs_v(generics@),
            params_v(params@),
            opt_type_v(return_type),
            exprs_v(body@),
        ),
        Expr::Use { path, imports, alias } => ExprV::Use(
            path@,
            match imports {
                Some(v) => Some(strs_v(v@)),
                None => None,
            },
            match alias {
                Some(a) => Some(a@),
                None => None,
            },
        ),
        Expr::ConstDef { name, value } => ExprV::ConstDef(name@, Box::new(expr_v(*value))),
        Expr::MacroDef { name, params, return_type, body } => ExprV::MacroDef(
            name@,
            params_v(params@),
            opt_type_v(return_type),
            exprs_v(body@),
        ),
        Expr::MacroCall { name, args, body } => ExprV::MacroCall(
            name@,
            exprs_v(args@),
            match body {
                Some(b) => Some(exprs_v(b@)),
                None => None,
            },
        ),
        Expr::LetDef { name, mutable, ty, value } => ExprV::LetDef(name@, mutable, opt_type_v(ty), Box::new(expr_v(*value))),
        Expr::LetDestructure { pattern, mutable, value } => ExprV::LetDestructure(
            pattern_v(pattern),
            mutable,
            Box::new(expr_v(*value)),
        ),
        Expr::EnumDef { name, underlying_type, variants } => ExprV::EnumDef(
            name@,
            opt_type_v(underlying_type),
            variants_v(variants@),
        ),
        Expr::UnionDef { name, variants } => ExprV::UnionDef(name@, union_v(variants@)),
        Expr::TypeAlias { name, target } => ExprV::TypeAlias(name@, target@),
        Expr::Match { target, arms } => ExprV::Match(Box::new(expr_v(*target)), arms_v(arms@)),
    }
}

/// The values of a list of expressions.
pub open spec fn exprs_v(s: Seq<Expr>) -> Seq<ExprV>
    decreases s, 1nat,
{
    if s.len() == 0 {
        Seq::empty()
    } else {
        exprs_v(s.drop_last()).push(expr_v(s.last()))
    }
}

/// The values of struct literal fields.
pub open spec fn fields_v(s: Seq<(String, Expr)>) -> Seq<(Seq<char>, ExprV)>
    decreases s, 1nat,
{
    if s.len() == 0 {
        Seq::empty()
    } else {
        fields_v(s.drop_last()).push((s.last().0@, expr_v(s.last().1)))
    }
}

/// The values of enum variants.
pub open spec fn variants_v(s: Seq<(String, Option<Expr>)>) -> Seq<(Seq<char>, Option<ExprV>)>
    decreases s, 1nat,
{
    if s.len() == 0 {
        Seq::empty()
    } else {
        variants_v(s.drop_last()).push(
            (
                s.last().0@,
                match s.last().1 {
                    Some(e) => Some(expr_v(e)),
                    None => None,
                },
            ),
        )
    }
}

/// The values of match arms.
pub open spec fn arms_v(s: Seq<MatchArm>) -> Seq<(PatternV, Option<ExprV>, ExprV)>
    decreases s, 1nat,
{
    if s.len() == 0 {
        Seq::empty()
    } else {
        arms_v(s.drop_last()).push(
            (
                pattern_v(s.last().pattern),
                match s.last().guard {
                    Some(g) => Some(expr_v(g)),
                    None => None,
                },
                expr_v(s.last().body),
            ),
        )
    }
}

/// The value of a pattern.
pub open spec fn pattern_v(p: Pattern) -> PatternV
    decreases p, 0nat,
{
    match p {
        Pattern::Ident(n) => PatternV::Ident(n@),
        Pattern::Variant { enum_or_union, variant, bindings } => PatternV::Variant(
            enum_or_union@,
            variant@,
            patterns_v(bindings@),
        ),
        Pattern::Tuple(ps) => PatternV::Tuple(patterns_v(ps@)),
        Pattern::Struct { name, fields } => PatternV::Struct(name@, pfields_v(fields@)),
        Pattern::Literal(e) => PatternV::Literal(Box::new(expr_v(*e))),
        Pattern::Wildcard => PatternV::Wildcard,
    }
}

/// The values of a list of patterns.
pub open spec fn patterns_v(s: Seq<Pattern>) -> Seq<PatternV>
    decreases s, 1nat,
{
    if s.len() == 0 {
        Seq::empty()
    } else {
        patterns_v(s.drop_last()).push(pattern_v(s.last()))
    }
}

/// The values of struct pattern fields.
pub open spec fn pfields_v(s: Seq<(String, Pattern)>) -> Seq<(Seq<char>, PatternV)>
    decreases s, 1nat,
{
    if s.len() == 0 {
        Seq::empty()
    } else {
        pfields_v(s.drop_last()).push((s.last().0@, pattern_v(s.last().1)))
    }
}

impl View for Expr {
    type V = ExprV;

    open spec fn view(&self) -> ExprV {
        expr_v(*self)
    }
}

impl View for Pattern {
    type V = PatternV;

    open spec fn view(&self) -> PatternV {
        pattern_v(*self)
    }
}

} // verus!
