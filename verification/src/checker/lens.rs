use vstd::prelude::*;
use crate::ast::{Expr, MatchArm};
use crate::checker::{LinearChecker, quote, quoted};

verus! {

/// The first of two optional findings.
pub open spec fn first_of(a: Option<Seq<char>>, b: Option<Seq<char>>) -> Option<Seq<char>> {
    match a {
        Some(x) => Some(x),
        None => b,
    }
}

/// The first lens alias that the expression mentions where it could escape,
/// in the order the expression is read. Calls are not searched, nor
/// definitions.
pub open spec fn lens_in(al: Set<Seq<char>>, e: Expr) -> Option<Seq<char>>
    decreases e, 0nat,
{
    match e {
        Expr::Variable(n) => if al.contains(n@) {
            Some(n@)
        } else {
            None
        },
        Expr::BinaryOp { left, right, .. } => first_of(lens_in(al, *left), lens_in(al, *right)),
        Expr::UnaryOp { expr, .. } => lens_in(al, *expr),
        Expr::AddressOf { target } => lens_in(al, *target),
        Expr::ArrayLiteral { elements } => lens_list(al, elements@),
        Expr::TupleLiteral { elements } => lens_list(al, elements@),
        Expr::ArrayIndex { target, index } => first_of(lens_in(al, *target), lens_in(al, *index)),
        Expr::SliceIndex { target, start, end } => first_of(
            lens_in(al, *target),
            first_of(
                match start {
                    Some(s) => lens_in(al, *s),
                    None => None,
                },
                match end {
                    Some(x) => lens_in(al, *x),
                    None => None,
                },
            ),
        ),
        Expr::Range { start, end } => first_of(lens_in(al, *start), lens_in(al, *end)),
        Expr::StructInitialization { fields, .. } => lens_fields(al, fields@),
        Expr::IfElse { condition, then_body, else_body } => first_of(
            lens_in(al, *condition),
            first_of(lens_list(al, then_body@), lens_list(al, else_body@)),
        ),
        Expr::WhileLoop { condition, body } => first_of(
            lens_in(al, *condition),
            lens_list(al, body@),
        ),
        Expr::Return { value } => match value {
            Some(v) => lens_in(al, *v),
            None => None,
        },
        Expr::Assign { target, value } => first_of(lens_in(al, *target), lens_in(al, *value)),
        Expr::LetDef { value, .. } => lens_in(al, *value),
        Expr::ConstDef { value, .. } => lens_in(al, *value),
        Expr::LetDestructure { value, .. } => lens_in(al, *value),
        Expr::TupleIndex { target, .. } => lens_in(al, *target),
        Expr::MacroCall { args, body, .. } => first_of(
            lens_list(al, args@),
            match body {
                Some(b) => lens_list(al, b@),
                None => None,
            },
        ),
        Expr::LensBlock { body, .. } => lens_list(al, body@),
        Expr::Match { target, arms } => first_of(lens_in(al, *target), lens_arms(al, arms@)),
        _ => None,
    }
}

/// The first finding in a list of expressions.
pub open spec fn lens_list(al: Set<Seq<char>>, s: Seq<Expr>) -> Option<Seq<char>>
    decreases s, 1nat,
{
    if s.len() == 0 {
        None
    } else {
        first_of(lens_list(al, s.drop_last()), lens_in(al, s.last()))
    }
}

/// The first finding in the values of struct fields.
pub open spec fn lens_fields(al: Set<Seq<char>>, s: Seq<(String, Expr)>) -> Option<Seq<char>>
    decreases s, 1nat,
{
    if s.len() == 0 {
        None
    } else {
        first_of(lens_fields(al, s.drop_last()), lens_in(al, s.last().1))
    }
}

/// The first finding in match arms, each guard before its body.
pub open spec fn lens_arms(al: Set<Seq<char>>, s: Seq<MatchArm>) -> Option<Seq<char>>
    decreases s, 1nat,
{
    if s.len() == 0 {
        None
    } else {
        first_of(
            lens_arms(al, s.drop_last()),
            first_of(
                match s.last().guard {
                    Some(g) => lens_in(al, g),
                    None => None,
                },
                lens_in(al, s.last().body),
            ),
        )
    }
}

/// The message for a lens that would escape.
pub open spec fn lens_escape_msg(n: Seq<char>) -> Seq<char> {
    quoted(
        "Compile Error: Lens '"@,
        n,
        "' cannot be moved, stored, returned, or escape its with block."@,
    )
}

/// The value of an optional name.
pub open spec fn opt_name(o: Option<String>) -> Option<Seq<char>> {
    match o {
        Some(s) => Some(s@),
        None => None,
    }
}

impl LinearChecker {
    fn lens_in_list(&self, whole: &Expr, s: &Vec<Expr>) -> (r: Option<String>)
        requires
            self.wf(),
            crate::ast::decreases_into(*whole, s@),
        ensures
            opt_name(r) == lens_list(self.lens_aliases.view(), s@),
        decreases whole, 1nat,
    {
        let ghost al = self.lens_aliases.view();
        let mut i: usize = 0;
        while i < s.len()
            invariant
                self.wf(),
                al == self.lens_aliases.view(),
                crate::ast::decreases_into(*whole, s@),
                i <= s.len(),
                lens_list(al, s@.take(i as int)) is None,
            decreases s.len() - i,
        {
            proof {
                assert(s@.take(i + 1).drop_last() =~= s@.take(i as int));
                assert(s@.take(i + 1).last() == s@[i as int]);
                crate::ast::lemma_decreases_into(*whole, s@, i as int);
            }
            let f = self.find_lens_alias(&s[i]);
            if f.is_some() {
                proof {
                    lemma_lens_list_found(al, s@, i as int);
                }
                return f;
            }
            i += 1;
        }
        proof {
            assert(s@.take(s.len() as int) =~= s@);
        }
        None
    }

    /// The first lens alias that `expr` mentions where it could escape.
    pub fn find_lens_alias(&self, expr: &Expr) -> (r: Option<String>)
        requires
            self.wf(),
        ensures
            opt_name(r) == lens_in(self.lens_aliases.view(), *expr),
        decreases expr, 2nat,
    {
        proof {
            broadcast use vstd::std_specs::vec::axiom_vec_decreases_to_view;
        }
        match expr {
            Expr::Variable(name) => {
                if self.lens_aliases.contains(name.as_str()) {
                    Some(name.clone())
                } else {
                    None
                }
            },
            Expr::BinaryOp { left, right, .. } => {
                let a = self.find_lens_alias(left);
                let b = if a.is_some() {
                    None
                } else {
                    self.find_lens_alias(right)
                };
                if a.is_some() {
                    a
                } else {
                    b
                }
            },
            Expr::UnaryOp { expr: inner, .. } => self.find_lens_alias(inner),
            Expr::AddressOf { target } => self.find_lens_alias(target),
            Expr::ArrayLiteral { elements } => {
                proof {
                    assert(decreases_to!(*expr => *elements));
                    crate::ast::lemma_vec_field(*expr, *elements);
                }
                self.lens_in_list(expr, elements)
            },
            Expr::TupleLiteral { elements } => {
                proof {
                    assert(decreases_to!(*expr => *elements));
                    crate::ast::lemma_vec_field(*expr, *elements);
                }
                self.lens_in_list(expr, elements)
            },
            Expr::ArrayIndex { target, index } => {
                let a = self.find_lens_alias(target);
                if a.is_some() {
                    a
                } else {
                    self.find_lens_alias(index)
                }
            },
            Expr::SliceIndex { target, start, end } => {
                let a = self.find_lens_alias(target);
                if a.is_some() {
                    return a;
                }
                let b = match start {
                    Some(st) => self.find_lens_alias(st),
                    None => None,
                };
                if b.is_some() {
                    return b;
                }
                match end {
                    Some(en) => self.find_lens_alias(en),
                    None => None,
                }
            },
            Expr::Range { start, end } => {
                let a = self.find_lens_alias(start);
                if a.is_some() {
                    a
                } else {
                    self.find_lens_alias(end)
                }
            },
            Expr::StructInitialization { fields, .. } => {
                let ghost al = self.lens_aliases.view();
                let mut i: usize = 0;
                while i < fields.len()
                    invariant
                        self.wf(),
                        al == self.lens_aliases.view(),
                        (*expr) is StructInitialization,
                        (*expr)->StructInitialization_fields == *fields,
                        i <= fields.len(),
                        lens_fields(al, fields@.take(i as int)) is None,
                    decreases fields.len() - i,
                {
                    proof {
                        assert(fields@.take(i + 1).drop_last() =~= fields@.take(i as int));
                        assert(fields@.take(i + 1).last() == fields@[i as int]);
                        assert(decreases_to!(*expr => (*expr)->StructInitialization_fields));
                        assert(decreases_to!(*fields => fields@));
                        assert(decreases_to!(fields@ => fields@[i as int]));
                        assert(decreases_to!(fields@[i as int] => fields@[i as int].1));
                    }
                    let f = self.find_lens_alias(&fields[i].1);
                    if f.is_some() {
                        proof {
                            lemma_lens_fields_found(al, fields@, i as int);
                        }
                        return f;
                    }
                    i += 1;
                }
                proof {
                    assert(fields@.take(fields.len() as int) =~= fields@);
                }
                None
            },
            Expr::IfElse { condition, then_body, else_body } => {
                let a = self.find_lens_alias(condition);
                if a.is_some() {
                    return a;
                }
                proof {
                    assert(decreases_to!(*expr => *then_body));
                    crate::ast::lemma_vec_field(*expr, *then_body);
                    assert(decreases_to!(*expr => *else_body));
                    crate::ast::lemma_vec_field(*expr, *else_body);
                }
                let b = self.lens_in_list(expr, then_body);
                if b.is_some() {
                    return b;
                }
                self.lens_in_list(expr, else_body)
            },
            Expr::WhileLoop { condition, body } => {
                let a = self.find_lens_alias(condition);
                if a.is_some() {
                    return a;
                }
                proof {
                    assert(decreases_to!(*expr => *body));
                    crate::ast::lemma_vec_field(*expr, *body);
                }
                self.lens_in_list(expr, body)
            },
            Expr::Return { value } => match value {
                Some(v) => self.find_lens_alias(v),
                None => None,
            },
            Expr::Assign { target, value } => {
                let a = self.find_lens_alias(target);
                if a.is_some() {
                    a
                } else {
                    self.find_lens_alias(value)
                }
            },
            Expr::LetDef { value, .. } => self.find_lens_alias(value),
            Expr::ConstDef { value, .. } => self.find_lens_alias(value),
            Expr::LetDestructure { value, .. } => self.find_lens_alias(value),
            Expr::TupleIndex { target, .. } => self.find_lens_alias(target),
            Expr::MacroCall { args, body, .. } => {
                proof {
                    assert(decreases_to!(*expr => *args));
                    crate::ast::lemma_vec_field(*expr, *args);
                }
                let a = self.lens_in_list(expr, args);
                if a.is_some() {
                    return a;
                }
                match body {
                    Some(b) => {
                        proof {
                            assert(decreases_to!(*expr => *b));
                    crate::ast::lemma_vec_field(*expr, *b);
                        }
                        self.lens_in_list(expr, b)
                    },
                    None => None,
                }
            },
            Expr::LensBlock { body, .. } => {
                proof {
                    assert(decreases_to!(*expr => *body));
                    crate::ast::lemma_vec_field(*expr, *body);
                }
                self.lens_in_list(expr, body)
            },
            Expr::Match { target, arms } => {
                let a = self.find_lens_alias(target);
                if a.is_some() {
                    return a;
                }
                let ghost al = self.lens_aliases.view();
                let mut i: usize = 0;
                while i < arms.len()
                    invariant
                        self.wf(),
                        al == self.lens_aliases.view(),
                        (*expr) is Match,
                        (*expr)->Match_arms == *arms,
                        lens_in(al, *(*expr)->Match_target) is None,
                        i <= arms.len(),
                        lens_arms(al, arms@.take(i as int)) is None,
                    decreases arms.len() - i,
                {
                    proof {
                        assert(arms@.take(i + 1).drop_last() =~= arms@.take(i as int));
                        assert(arms@.take(i + 1).last() == arms@[i as int]);
                        assert(decreases_to!(*expr => (*expr)->Match_arms));
                        assert(decreases_to!(*arms => arms@));
                        assert(decreases_to!(arms@ => arms@[i as int]));
                        assert(decreases_to!(arms@[i as int] => arms@[i as int].body));
                    }
                    let g = match &arms[i].guard {
                        Some(ge) => {
                            proof {
                                assert(decreases_to!(arms@[i as int] => arms@[i as int].guard));
                                assert(decreases_to!(arms@[i as int].guard => (arms@[i as int].guard)->Some_0));
                            }
                            self.find_lens_alias(ge)
                        },
                        None => None,
                    };
                    let f = if g.is_some() {
                        g
                    } else {
                        self.find_lens_alias(&arms[i].body)
                    };
                    if f.is_some() {
                        proof {
                            lemma_lens_arms_found(al, arms@, i as int);
                        }
                        return f;
                    }
                    i += 1;
                }
                proof {
                    assert(arms@.take(arms.len() as int) =~= arms@);
                }
                None
            },
            _ => None,
        }
    }

    /// Refuses an expression through which a lens would escape its block.
    pub fn reject_lens_escape(&self, expr: &Expr) -> (r: Result<(), String>)
        requires
            self.wf(),
        ensures
            match lens_in(self.lens_aliases.view(), *expr) {
                Some(n) => r is Err && r->Err_0@ == lens_escape_msg(n),
                None => r is Ok,
            },
    {
        match self.find_lens_alias(expr) {
            Some(name) => Err(
                quote(
                    "Compile Error: Lens '",
                    name.as_str(),
                    "' cannot be moved, stored, returned, or escape its with block.",
                ),
            ),
            None => Ok(()),
        }
    }
}

proof fn lemma_lens_list_found(al: Set<Seq<char>>, s: Seq<Expr>, i: int)
    requires
        0 <= i < s.len(),
        lens_list(al, s.take(i)) is None,
        lens_in(al, s[i]) is Some,
    ensures
        lens_list(al, s) == lens_in(al, s[i]),
    decreases s.len(),
{
    if s.len() == i + 1 {
        assert(s.drop_last() =~= s.take(i));
    } else {
        assert(s.drop_last().take(i) =~= s.take(i));
        lemma_lens_list_found(al, s.drop_last(), i);
    }
}

proof fn lemma_lens_fields_found(al: Set<Seq<char>>, s: Seq<(String, Expr)>, i: int)
    requires
        0 <= i < s.len(),
        lens_fields(al, s.take(i)) is None,
        lens_in(al, s[i].1) is Some,
    ensures
        lens_fields(al, s) == lens_in(al, s[i].1),
    decreases s.len(),
{
    if s.len() == i + 1 {
        assert(s.drop_last() =~= s.take(i));
    } else {
        assert(s.drop_last().take(i) =~= s.take(i));
        lemma_lens_fields_found(al, s.drop_last(), i);
    }
}

proof fn lemma_lens_arms_found(al: Set<Seq<char>>, s: Seq<MatchArm>, i: int)
    requires
        0 <= i < s.len(),
        lens_arms(al, s.take(i)) is None,
        first_of(
            match s[i].guard {
                Some(g) => lens_in(al, g),
                None => None,
            },
            lens_in(al, s[i].body),
        ) is Some,
    ensures
        lens_arms(al, s) == first_of(
            match s[i].guard {
                Some(g) => lens_in(al, g),
                None => None,
            },
            lens_in(al, s[i].body),
        ),
    decreases s.len(),
{
    if s.len() == i + 1 {
        assert(s.drop_last() =~= s.take(i));
    } else {
        assert(s.drop_last().take(i) =~= s.take(i));
        lemma_lens_arms_found(al, s.drop_last(), i);
    }
}

} // verus!
