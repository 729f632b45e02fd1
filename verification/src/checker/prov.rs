use vstd::prelude::*;
use crate::ast::{Expr, TrackType, TypeV};
use crate::checker::LinearChecker;
use crate::checker::infer::infer;
use crate::text::chars_of;

verus! {

/// `a` comes before `b` in the order of strings, comparing from position
/// `i` on: by the first character that differs, a proper prefix first.
pub open spec fn str_lt_from(a: Seq<char>, b: Seq<char>, i: int) -> bool
    decreases a.len() - i,
{
    if i < 0 || i >= a.len() {
        0 <= i < b.len()
    } else if i >= b.len() {
        false
    } else if a[i] != b[i] {
        a[i] < b[i]
    } else {
        str_lt_from(a, b, i + 1)
    }
}

/// The order of strings: lexicographic by character.
pub open spec fn str_lt(a: Seq<char>, b: Seq<char>) -> bool {
    str_lt_from(a, b, 0)
}

/// Whether `a` comes before `b`.
pub fn string_lt(a: &String, b: &String) -> (r: bool)
    ensures
        r == str_lt(a@, b@),
{
    let x = chars_of(a.as_str());
    let y = chars_of(b.as_str());
    let mut i: usize = 0;
    while i < x.len() && i < y.len()
        invariant
            x@ == a@,
            y@ == b@,
            i <= x.len(),
            i <= y.len(),
            str_lt_from(a@, b@, 0) == str_lt_from(a@, b@, i as int),
        decreases x.len() - i,
    {
        if x[i] != y[i] {
            return x[i] < y[i];
        }
        i += 1;
    }
    i < y.len()
}

/// The first position in `s`, from `i` on, whose string does not come
/// before `x`.
pub open spec fn lower_bound(s: Seq<Seq<char>>, x: Seq<char>, i: int) -> int
    decreases s.len() - i,
{
    if i < 0 || i >= s.len() {
        s.len() as int
    } else if !str_lt(s[i], x) {
        i
    } else {
        lower_bound(s, x, i + 1)
    }
}

/// `x` put into `s` before the first string that does not come before it,
/// unless that string is `x` itself.
pub open spec fn sorted_insert(s: Seq<Seq<char>>, x: Seq<char>) -> Seq<Seq<char>> {
    let i = lower_bound(s, x, 0);
    if i < s.len() && s[i] == x {
        s
    } else {
        s.insert(i, x)
    }
}

/// The strings sorted with duplicates removed.
pub open spec fn sort_dedup(p: Seq<Seq<char>>) -> Seq<Seq<char>>
    decreases p.len(),
{
    if p.len() == 0 {
        p
    } else {
        sorted_insert(sort_dedup(p.drop_last()), p.last())
    }
}

/// A list of more than one name is sorted and freed of duplicates.
pub open spec fn normalize(p: Seq<Seq<char>>) -> Seq<Seq<char>> {
    if p.len() > 1 {
        sort_dedup(p)
    } else {
        p
    }
}

/// The names of a list of strings.
pub open spec fn names_view(v: Seq<String>) -> Seq<Seq<char>> {
    Seq::new(v.len(), |i: int| v[i]@)
}

/// The last element's value, or none.
pub open spec fn is_ref_type(t: Option<TypeV>) -> bool {
    match t {
        Some(TypeV::Ref(_)) => true,
        _ => false,
    }
}

/// The variables a reference-valued expression may point into.
pub open spec fn prov(
    types: Map<Seq<char>, TypeV>,
    fns: Map<Seq<char>, Option<TypeV>>,
    borrows: Map<Seq<char>, Seq<Seq<char>>>,
    e: Expr,
) -> Seq<Seq<char>>
    decreases e, 0nat,
{
    match e {
        Expr::AddressOf { target } => match *target {
            Expr::Variable(n) => seq![n@],
            Expr::ArrayIndex { target: inner, .. } => prov(types, fns, borrows, *inner),
            _ => prov(types, fns, borrows, *target),
        },
        Expr::Variable(n) => if borrows.contains_key(n@) {
            borrows[n@]
        } else if types.contains_key(n@) && is_ref_type(Some(types[n@])) {
            seq![n@]
        } else {
            Seq::empty()
        },
        Expr::FunctionCall { args, .. } => normalize(prov_args(types, fns, borrows, args@)),
        Expr::IfElse { then_body, else_body, .. } => normalize(
            (if then_body@.len() > 0 {
                prov(types, fns, borrows, then_body@.last())
            } else {
                Seq::empty()
            }) + (if else_body@.len() > 0 {
                prov(types, fns, borrows, else_body@.last())
            } else {
                Seq::empty()
            }),
        ),
        Expr::LensBlock { body, .. } => if body@.len() > 0 {
            prov(types, fns, borrows, body@.last())
        } else {
            Seq::empty()
        },
        _ => Seq::empty(),
    }
}

/// The provenance of the reference-typed arguments, in order.
pub open spec fn prov_args(
    types: Map<Seq<char>, TypeV>,
    fns: Map<Seq<char>, Option<TypeV>>,
    borrows: Map<Seq<char>, Seq<Seq<char>>>,
    s: Seq<Expr>,
) -> Seq<Seq<char>>
    decreases s, 1nat,
{
    if s.len() == 0 {
        Seq::empty()
    } else {
        prov_args(types, fns, borrows, s.drop_last()) + (if is_ref_type(
            infer(types, fns, s.last()),
        ) {
            prov(types, fns, borrows, s.last())
        } else {
            Seq::empty()
        })
    }
}

/// Inserts `x` into `v` as `sorted_insert` does.
fn insert_sorted(v: &mut Vec<String>, x: String)
    ensures
        names_view(final(v)@) == sorted_insert(names_view(old(v)@), x@),
{
    let ghost s = names_view(v@);
    let mut i: usize = 0;
    while i < v.len() && string_lt(&v[i], &x)
        invariant
            s == names_view(v@),
            i <= v.len(),
            lower_bound(s, x@, 0) == lower_bound(s, x@, i as int),
        decreases v.len() - i,
    {
        i += 1;
    }
    proof {
        assert(lower_bound(s, x@, i as int) == i);
    }
    if i < v.len() && v[i].eq(&x) {
        return;
    }
    let ghost xv = x@;
    v.insert(i, x);
    proof {
        assert(names_view(v@) =~= s.insert(i as int, xv));
    }
}

/// Sorts the names and removes duplicates, when there are more than one.
pub fn normalize_names(p: Vec<String>) -> (r: Vec<String>)
    ensures
        names_view(r@) == normalize(names_view(p@)),
{
    if p.len() <= 1 {
        return p;
    }
    let mut out: Vec<String> = Vec::new();
    let mut i: usize = 0;
    let ghost pv = names_view(p@);
    proof {
        assert(names_view(out@) =~= sort_dedup(pv.take(0)));
    }
    while i < p.len()
        invariant
            pv == names_view(p@),
            i <= p.len(),
            names_view(out@) == sort_dedup(pv.take(i as int)),
        decreases p.len() - i,
    {
        insert_sorted(&mut out, p[i].clone());
        proof {
            assert(pv.take(i + 1).drop_last() =~= pv.take(i as int));
        }
        i += 1;
    }
    proof {
        assert(pv.take(p.len() as int) =~= pv);
    }
    out
}

fn append_names(out: &mut Vec<String>, more: Vec<String>)
    ensures
        names_view(final(out)@) == names_view(old(out)@) + names_view(more@),
{
    let mut more = more;
    let ghost a = names_view(out@);
    let ghost b = names_view(more@);
    out.append(&mut more);
    proof {
        assert(names_view(out@) =~= a + b);
    }
}

impl LinearChecker {
    /// The variables that the reference-valued `expr` may point into.
    pub fn get_provenance(&self, expr: &Expr) -> (r: Vec<String>)
        requires
            self.wf(),
        ensures
            names_view(r@) == prov(
                self.types.view(),
                self.functions.view(),
                self.borrows.view(),
                *expr,
            ),
        decreases expr, 1nat,
    {
        match expr {
            Expr::AddressOf { target } => match &**target {
                Expr::Variable(name) => {
                    let v = vec![name.clone()];
                    proof {
                        assert(names_view(v@) =~= seq![name@]);
                    }
                    v
                },
                Expr::ArrayIndex { target: inner, .. } => self.get_provenance(inner),
                _ => self.get_provenance(target),
            },
            Expr::Variable(name) => {
                match self.borrows.get(name.as_str()) {
                    Some(targets) => {
                        let mut v: Vec<String> = Vec::new();
                        let mut i: usize = 0;
                        while i < targets.len()
                            invariant
                                i <= targets.len(),
                                v@.len() == i,
                                forall|j: int| 0 <= j < i ==> (#[trigger] v@[j])@ == targets@[j]@,
                            decreases targets.len() - i,
                        {
                            v.push(targets[i].clone());
                            i += 1;
                        }
                        proof {
                            assert(names_view(v@) =~= targets.deep_view());
                        }
                        v
                    },
                    None => {
                        let is_ref = match self.types.get(name.as_str()) {
                            Some(TrackType::Ref(_)) => true,
                            _ => false,
                        };
                        if is_ref {
                            let v = vec![name.clone()];
                            proof {
                                assert(names_view(v@) =~= seq![name@]);
                            }
                            v
                        } else {
                            let v: Vec<String> = Vec::new();
                            proof {
                                assert(names_view(v@) =~= Seq::<Seq<char>>::empty());
                            }
                            v
                        }
                    },
                }
            },
            Expr::FunctionCall { args, .. } => {
                let ghost ty = self.types.view();
                let ghost fns = self.functions.view();
                let ghost bor = self.borrows.view();
                let mut p: Vec<String> = Vec::new();
                let mut i: usize = 0;
                proof {
                    assert(names_view(p@) =~= prov_args(ty, fns, bor, args@.take(0)));
                }
                while i < args.len()
                    invariant
                        self.wf(),
                        ty == self.types.view(),
                        fns == self.functions.view(),
                        bor == self.borrows.view(),
                        (*expr) is FunctionCall,
                        (*expr)->FunctionCall_args == *args,
                        i <= args.len(),
                        names_view(p@) == prov_args(ty, fns, bor, args@.take(i as int)),
                    decreases args.len() - i,
                {
                    proof {
                        broadcast use vstd::std_specs::vec::axiom_vec_decreases_to_view;
                        assert(decreases_to!(*expr => (*expr)->FunctionCall_args));
                        assert(decreases_to!(*args => args@));
                        assert(decreases_to!(args@ => args@[i as int]));
                        assert(args@.take(i + 1).drop_last() =~= args@.take(i as int));
                        assert(args@.take(i + 1).last() == args@[i as int]);
                    }
                    let is_ref = match self.infer_type(&args[i]) {
                        Some(TrackType::Ref(_)) => true,
                        _ => false,
                    };
                    if is_ref {
                        let more = self.get_provenance(&args[i]);
                        append_names(&mut p, more);
                    } else {
                        proof {
                            assert(names_view(p@) + Seq::<Seq<char>>::empty() =~= names_view(p@));
                        }
                    }
                    i += 1;
                }
                proof {
                    assert(args@.take(args.len() as int) =~= args@);
                }
                normalize_names(p)
            },
            Expr::IfElse { then_body, else_body, .. } => {
                let mut p: Vec<String> = Vec::new();
                if then_body.len() > 0 {
                    proof {
                        broadcast use vstd::std_specs::vec::axiom_vec_decreases_to_view;
                        assert(decreases_to!(*expr => (*expr)->IfElse_then_body));
                        assert(decreases_to!(*then_body => then_body@));
                        assert(decreases_to!(then_body@ => then_body@[then_body@.len() - 1]));
                    }
                    let more = self.get_provenance(&then_body[then_body.len() - 1]);
                    append_names(&mut p, more);
                }
                let ghost first = names_view(p@);
                if else_body.len() > 0 {
                    proof {
                        broadcast use vstd::std_specs::vec::axiom_vec_decreases_to_view;
                        assert(decreases_to!(*expr => (*expr)->IfElse_else_body));
                        assert(decreases_to!(*else_body => else_body@));
                        assert(decreases_to!(else_body@ => else_body@[else_body@.len() - 1]));
                    }
                    let more = self.get_provenance(&else_body[else_body.len() - 1]);
                    append_names(&mut p, more);
                }
                proof {
                    let ty = self.types.view();
                    let fns = self.functions.view();
                    let bor = self.borrows.view();
                    let a = if then_body@.len() > 0 {
                        prov(ty, fns, bor, then_body@.last())
                    } else {
                        Seq::empty()
                    };
                    let b = if else_body@.len() > 0 {
                        prov(ty, fns, bor, else_body@.last())
                    } else {
                        Seq::empty()
                    };
                    assert(first =~= a);
                    assert(names_view(p@) =~= a + b);
                }
                normalize_names(p)
            },
            Expr::LensBlock { body, .. } => {
                if body.len() > 0 {
                    proof {
                        broadcast use vstd::std_specs::vec::axiom_vec_decreases_to_view;
                        assert(decreases_to!(*expr => (*expr)->LensBlock_body));
                        assert(decreases_to!(*body => body@));
                        assert(decreases_to!(body@ => body@[body@.len() - 1]));
                    }
                    self.get_provenance(&body[body.len() - 1])
                } else {
                    let v: Vec<String> = Vec::new();
                    proof {
                        assert(names_view(v@) =~= Seq::<Seq<char>>::empty());
                    }
                    v
                }
            },
            _ => {
                let v: Vec<String> = Vec::new();
                proof {
                    assert(names_view(v@) =~= Seq::<Seq<char>>::empty());
                }
                v
            },
        }
    }
}

} // verus!
