use vstd::prelude::*;
use crate::ast::{TrackType, TypeV};
use crate::checker::LinearChecker;
use crate::checker::builtins::entries_view;
use crate::text::{chars_of, string_of, push_char, push_str, push_string};

verus! {

/// The path with each `::` (found from the left, without overlap) written
/// as `/`.
pub open spec fn replace_dc(s: Seq<char>) -> Seq<char>
    decreases s.len(),
{
    if s.len() < 2 {
        s
    } else if s[0] == ':' && s[1] == ':' {
        seq!['/'] + replace_dc(s.skip(2))
    } else {
        seq![s[0]] + replace_dc(s.skip(1))
    }
}

/// Writes each `::` of the path as `/`.
pub fn normalize_path(path: &String) -> (r: String)
    ensures
        r@ == replace_dc(path@),
{
    let v = chars_of(path.as_str());
    let mut out = String::new();
    let mut i: usize = 0;
    proof {
        assert(v@.skip(0) =~= v@);
    }
    while i < v.len()
        invariant
            v@ == path@,
            i <= v@.len(),
            replace_dc(path@) == out@ + replace_dc(v@.skip(i as int)),
        decreases v.len() - i,
    {
        let ghost rest = v@.skip(i as int);
        if i + 1 < v.len() && v[i] == ':' && v[i + 1] == ':' {
            push_char(&mut out, '/');
            proof {
                assert(rest.skip(2) =~= v@.skip(i + 2));
            }
            i += 2;
        } else {
            push_char(&mut out, v[i]);
            proof {
                assert(rest.skip(1) =~= v@.skip(i + 1));
                assert(rest[0] == v@[i as int]);
            }
            i += 1;
        }
    }
    proof {
        assert(v@.skip(i as int).len() == 0);
        assert(out@ + Seq::<char>::empty() =~= out@);
    }
    out
}

/// The part of the path after its last `/`.
pub open spec fn slash_seg(s: Seq<char>) -> Seq<char>
    decreases s.len(),
{
    if s.len() == 0 {
        s
    } else if s.last() == '/' {
        Seq::empty()
    } else {
        slash_seg(s.drop_last()).push(s.last())
    }
}

fn slash_seg_exec(path: &String) -> (r: String)
    ensures
        r@ == slash_seg(path@),
{
    let v = chars_of(path.as_str());
    let mut k: usize = v.len();
    proof {
        assert(v@.take(k as int) =~= v@);
        assert(v@.skip(k as int) =~= Seq::<char>::empty());
        assert(v@ + Seq::<char>::empty() =~= v@);
    }
    while k > 0 && v[k - 1] != '/'
        invariant
            v@ == path@,
            k <= v@.len(),
            slash_seg(v@) == slash_seg(v@.take(k as int)) + v@.skip(k as int),
        decreases k,
    {
        proof {
            let t = v@.take(k as int);
            assert(t.drop_last() =~= v@.take(k - 1));
            assert(v@.skip(k - 1) =~= seq![t.last()] + v@.skip(k as int));
        }
        k -= 1;
    }
    proof {
        if k > 0 {
            assert(v@.take(k as int).last() == '/');
        }
        assert(slash_seg(v@.take(k as int)) =~= Seq::<char>::empty());
        assert(v@.subrange(k as int, v@.len() as int) =~= v@.skip(k as int));
    }
    crate::text::string_from_chars(&v, k, v.len())
}

/// The first type exported under `item`, if any.
pub open spec fn lookup(provided: Seq<(Seq<char>, TypeV)>, item: Seq<char>) -> Option<TypeV>
    decreases provided.len(),
{
    if provided.len() == 0 {
        None
    } else if provided[0].0 == item {
        Some(provided[0].1)
    } else {
        lookup(provided.drop_first(), item)
    }
}

pub open spec fn not_exported_msg(path: Seq<char>, item: Seq<char>) -> Seq<char> {
    "Compile Error: Module '"@ + path + "' does not export '"@ + item + "'"@
}

/// A name under a namespace.
pub open spec fn qualified(ns: Seq<char>, n: Seq<char>) -> Seq<char> {
    ns + "::"@ + n
}

/// The entries for importing the named items, each under its own name or
/// under `prefix::`; the first item the module does not export is refused.
pub open spec fn named_items(
    provided: Seq<(Seq<char>, TypeV)>,
    items: Seq<Seq<char>>,
    prefix: Option<Seq<char>>,
    path: Seq<char>,
) -> Result<Seq<(Seq<char>, TypeV)>, Seq<char>>
    decreases items.len(),
{
    if items.len() == 0 {
        Ok(Seq::empty())
    } else {
        match named_items(provided, items.drop_last(), prefix, path) {
            Err(e) => Err(e),
            Ok(es) => match lookup(provided, items.last()) {
                Some(t) => Ok(
                    es.push(
                        (
                            match prefix {
                                Some(a) => qualified(a, items.last()),
                                None => items.last(),
                            },
                            t,
                        ),
                    ),
                ),
                None => Err(not_exported_msg(path, items.last())),
            },
        }
    }
}

/// Every export, under `ns::`.
pub open spec fn prefixed(provided: Seq<(Seq<char>, TypeV)>, ns: Seq<char>) -> Seq<(Seq<char>, TypeV)> {
    Seq::new(provided.len(), |i: int| (qualified(ns, provided[i].0), provided[i].1))
}

/// The function entries that an import of a standard module adds, or why it
/// is refused.
pub open spec fn import_plan(
    path: Seq<char>,
    imports: Option<Seq<Seq<char>>>,
    alias: Option<Seq<char>>,
    provided: Seq<(Seq<char>, TypeV)>,
) -> Result<Seq<(Seq<char>, TypeV)>, Seq<char>> {
    match alias {
        Some(a) => match imports {
            Some(items) => if items.len() == 1 {
                match lookup(provided, items[0]) {
                    Some(t) => Ok(seq![(a, t)]),
                    None => Err(not_exported_msg(path, items[0])),
                }
            } else {
                named_items(provided, items, Some(a), path)
            },
            None => Ok(prefixed(provided, a)),
        },
        None => match imports {
            Some(items) => named_items(provided, items, None, path),
            None => Ok(prefixed(provided, slash_seg(path))),
        },
    }
}

/// The names of an optional list of strings.
pub open spec fn opt_names(o: Option<Vec<String>>) -> Option<Seq<Seq<char>>> {
    match o {
        Some(v) => Some(Seq::new(v@.len(), |i: int| v@[i]@)),
        None => None,
    }
}

/// The value of an optional string.
pub open spec fn opt_str(o: Option<String>) -> Option<Seq<char>> {
    match o {
        Some(s) => Some(s@),
        None => None,
    }
}

fn lookup_exec(provided: &Vec<(String, TrackType)>, item: &String) -> (r: Option<TrackType>)
    ensures
        crate::checker::infer::opt_view(r) == lookup(entries_view(provided@), item@),
{
    let ghost pv = entries_view(provided@);
    let mut i: usize = 0;
    proof {
        assert(pv.skip(0) =~= pv);
    }
    while i < provided.len()
        invariant
            pv == entries_view(provided@),
            i <= provided.len(),
            lookup(pv, item@) == lookup(pv.skip(i as int), item@),
        decreases provided.len() - i,
    {
        proof {
            assert(pv.skip(i as int).drop_first() =~= pv.skip(i + 1));
        }
        if provided[i].0.eq(item) {
            return Some(provided[i].1.copy());
        }
        i += 1;
    }
    None
}

fn qualify(ns: &String, n: &String) -> (r: String)
    ensures
        r@ == qualified(ns@, n@),
{
    let mut m = ns.clone();
    push_str(&mut m, "::");
    push_string(&mut m, n);
    m
}

fn not_exported(path: &String, item: &String) -> (r: String)
    ensures
        r@ == not_exported_msg(path@, item@),
{
    let mut m = string_of("Compile Error: Module '");
    push_string(&mut m, path);
    push_str(&mut m, "' does not export '");
    push_string(&mut m, item);
    push_str(&mut m, "'");
    m
}

fn named_items_exec(
    provided: &Vec<(String, TrackType)>,
    items: &Vec<String>,
    prefix: &Option<String>,
    path: &String,
) -> (r: Result<Vec<(String, TrackType)>, String>)
    ensures
        match (r, named_items(entries_view(provided@), opt_names(Some(*items))->Some_0, opt_str(*prefix), path@)) {
            (Ok(v), Ok(s)) => entries_view(v@) == s,
            (Err(m), Err(e)) => m@ == e,
            _ => false,
        },
{
    let ghost pv = entries_view(provided@);
    let ghost iv = opt_names(Some(*items))->Some_0;
    let mut out: Vec<(String, TrackType)> = Vec::new();
    let mut i: usize = 0;
    proof {
        assert(iv.take(0) =~= Seq::<Seq<char>>::empty());
        assert(entries_view(out@) =~= Seq::<(Seq<char>, TypeV)>::empty());
    }
    while i < items.len()
        invariant
            pv == entries_view(provided@),
            iv == opt_names(Some(*items))->Some_0,
            iv.len() == items@.len(),
            i <= items.len(),
            named_items(pv, iv.take(i as int), opt_str(*prefix), path@) == Ok::<
                Seq<(Seq<char>, TypeV)>,
                Seq<char>,
            >(entries_view(out@)),
        decreases items.len() - i,
    {
        proof {
            assert(iv.take(i + 1).drop_last() =~= iv.take(i as int));
            assert(iv.take(i + 1).last() == items@[i as int]@);
        }
        match lookup_exec(provided, &items[i]) {
            Some(t) => {
                let name = match prefix {
                    Some(a) => qualify(a, &items[i]),
                    None => items[i].clone(),
                };
                let ghost before = entries_view(out@);
                let ghost tv = t@;
                out.push((name, t));
                proof {
                    assert(entries_view(out@) =~= before.push((name@, tv)));
                }
            },
            None => {
                proof {
                    lemma_named_items_err(pv, iv, opt_str(*prefix), path@, i as int);
                }
                return Err(not_exported(path, &items[i]));
            },
        }
        i += 1;
    }
    proof {
        assert(iv.take(items.len() as int) =~= iv);
    }
    Ok(out)
}

proof fn lemma_named_items_err(
    pv: Seq<(Seq<char>, TypeV)>,
    iv: Seq<Seq<char>>,
    prefix: Option<Seq<char>>,
    path: Seq<char>,
    i: int,
)
    requires
        0 <= i < iv.len(),
        named_items(pv, iv.take(i), prefix, path) is Ok,
        lookup(pv, iv[i]) is None,
    ensures
        named_items(pv, iv, prefix, path) == Err::<Seq<(Seq<char>, TypeV)>, Seq<char>>(
            not_exported_msg(path, iv[i]),
        ),
    decreases iv.len(),
{
    if iv.len() == i + 1 {
        assert(iv.drop_last() =~= iv.take(i));
    } else {
        assert(iv.drop_last().take(i) =~= iv.take(i));
        lemma_named_items_err(pv, iv.drop_last(), prefix, path, i);
    }
}

fn prefixed_exec(provided: &Vec<(String, TrackType)>, ns: &String) -> (r: Vec<(String, TrackType)>)
    ensures
        entries_view(r@) == prefixed(entries_view(provided@), ns@),
{
    let mut out: Vec<(String, TrackType)> = Vec::new();
    let mut i: usize = 0;
    while i < provided.len()
        invariant
            i <= provided.len(),
            out@.len() == i,
            forall|j: int|
                0 <= j < i ==> (#[trigger] out@[j]).0@ == qualified(ns@, provided@[j].0@) && out@[j].1@
                    == provided@[j].1@,
        decreases provided.len() - i,
    {
        out.push((qualify(ns, &provided[i].0), provided[i].1.copy()));
        i += 1;
    }
    proof {
        assert(entries_view(out@) =~= prefixed(entries_view(provided@), ns@));
    }
    out
}

/// The function entries that importing from the standard module exporting
/// `provided` adds, or the refusal.
pub fn import_entries(
    path: &String,
    imports: &Option<Vec<String>>,
    alias: &Option<String>,
    provided: &Vec<(String, TrackType)>,
) -> (r: Result<Vec<(String, TrackType)>, String>)
    ensures
        match (r, import_plan(path@, opt_names(*imports), opt_str(*alias), entries_view(provided@))) {
            (Ok(v), Ok(s)) => entries_view(v@) == s,
            (Err(m), Err(e)) => m@ == e,
            _ => false,
        },
{
    match alias {
        Some(a) => match imports {
            Some(items) => {
                if items.len() == 1 {
                    match lookup_exec(provided, &items[0]) {
                        Some(t) => {
                            let ghost tv = t@;
                            let v = vec![(a.clone(), t)];
                            proof {
                                assert(entries_view(v@) =~= seq![(a@, tv)]);
                            }
                            Ok(v)
                        },
                        None => Err(not_exported(path, &items[0])),
                    }
                } else {
                    named_items_exec(provided, items, alias, path)
                }
            },
            None => Ok(prefixed_exec(provided, a)),
        },
        None => match imports {
            Some(items) => named_items_exec(provided, items, alias, path),
            None => {
                let ns = slash_seg_exec(path);
                Ok(prefixed_exec(provided, &ns))
            },
        },
    }
}

/// The files a local module may be found in, in the order they are tried.
pub open spec fn module_candidates(path: Seq<char>, norm: Seq<char>) -> Seq<Seq<char>> {
    seq![
        "src/"@ + norm + ".trk"@,
        norm + ".trk"@,
        "compiler/src/"@ + norm + ".trk"@,
        "compiler/"@ + norm + ".trk"@,
        "src/"@ + norm + "/mod.trk"@,
        "compiler/src/"@ + path + ".trk"@,
        "compiler/"@ + path + ".trk"@,
    ]
}

/// The first candidate from `i` on that is a known module.
pub open spec fn first_known(c: Seq<Seq<char>>, known: Set<Seq<char>>, i: int) -> Option<Seq<char>>
    decreases c.len() - i,
{
    if i < 0 || i >= c.len() {
        None
    } else if known.contains(c[i]) {
        Some(c[i])
    } else {
        first_known(c, known, i + 1)
    }
}

/// A candidate found is a known one.
pub proof fn lemma_first_known(c: Seq<Seq<char>>, known: Set<Seq<char>>, i: int)
    ensures
        first_known(c, known, i) matches Some(x) ==> known.contains(x),
    decreases c.len() - i,
{
    if 0 <= i < c.len() && !known.contains(c[i]) {
        lemma_first_known(c, known, i + 1);
    }
}

fn surround(a: &str, m: &String, b: &str) -> (r: String)
    ensures
        r@ == a@ + m@ + b@,
{
    let mut s = string_of(a);
    push_string(&mut s, m);
    push_str(&mut s, b);
    s
}

/// The candidate files of a local module, in the order they are tried.
fn candidates_vec(path: &String, norm: &String) -> (c: Vec<String>)
    ensures
        c@.len() == module_candidates(path@, norm@).len(),
        forall|j: int| 0 <= j < c@.len() ==> #[trigger] c@[j]@ == module_candidates(path@, norm@)[j],
{
    let mut c: Vec<String> = Vec::new();
    c.push(surround("src/", norm, ".trk"));
    let mut plain = norm.clone();
    push_str(&mut plain, ".trk");
    c.push(plain);
    c.push(surround("compiler/src/", norm, ".trk"));
    c.push(surround("compiler/", norm, ".trk"));
    c.push(surround("src/", norm, "/mod.trk"));
    c.push(surround("compiler/src/", path, ".trk"));
    c.push(surround("compiler/", path, ".trk"));
    c
}

impl LinearChecker {
    /// The first file among the candidates for a local module that is known.
    pub fn find_module(&self, path: &String, norm: &String) -> (r: Option<String>)
        requires
            self.wf(),
        ensures
            opt_str(r) == first_known(
                module_candidates(path@, norm@),
                self.modules.view().dom(),
                0,
            ),
    {
        let c = candidates_vec(path, norm);
        let ghost cv = module_candidates(path@, norm@);
        let mut i: usize = 0;
        while i < c.len()
            invariant
                self.wf(),
                cv == module_candidates(path@, norm@),
                cv.len() == c@.len(),
                forall|j: int| 0 <= j < cv.len() ==> #[trigger] cv[j] == c@[j]@,
                i <= c.len(),
                first_known(cv, self.modules.view().dom(), 0) == first_known(
                    cv,
                    self.modules.view().dom(),
                    i as int,
                ),
            decreases c.len() - i,
        {
            if self.modules.contains_key(c[i].as_str()) {
                let found = c[i].clone();
                proof {
                    assert(cv[i as int] == c@[i as int]@);
                    assert(self.modules.view().dom().contains(cv[i as int]));
                    assert(first_known(cv, self.modules.view().dom(), i as int) == Some(cv[i as int]));
                    assert(found@ == cv[i as int]);
                }
                return Some(found);
            }
            i += 1;
        }
        None
    }
}

/// The candidate files of an import, when it names no standard module.
pub open spec fn use_candidates(e: crate::ast::Expr) -> Seq<Seq<char>> {
    match e {
        crate::ast::Expr::Use { path, .. } => if crate::checker::builtins::std_exports(replace_dc(path@)) is None {
            module_candidates(path@, replace_dc(path@))
        } else {
            Seq::empty()
        },
        _ => Seq::empty(),
    }
}

/// The candidate files of the local imports of a program's statements, in
/// order.
pub open spec fn program_candidates(p: Seq<crate::ast::Expr>) -> Seq<Seq<char>>
    decreases p.len(),
{
    if p.len() == 0 {
        Seq::empty()
    } else {
        program_candidates(p.drop_last()) + use_candidates(p.last())
    }
}

/// The files that the local imports at the top level of a program may be
/// found in, for each import in order, as the checker tries them.
pub fn import_candidates(program: &[crate::ast::Expr]) -> (r: Vec<String>)
    ensures
        crate::checker::prov::names_view(r@) == program_candidates(program@),
{
    let mut out: Vec<String> = Vec::new();
    let mut i: usize = 0;
    proof {
        assert(program@.take(0) =~= Seq::<crate::ast::Expr>::empty());
        assert(crate::checker::prov::names_view(out@) =~= Seq::<Seq<char>>::empty());
    }
    while i < program.len()
        invariant
            i <= program.len(),
            crate::checker::prov::names_view(out@) == program_candidates(program@.take(i as int)),
        decreases program.len() - i,
    {
        let ghost before = crate::checker::prov::names_view(out@);
        proof {
            assert(program@.take(i + 1).drop_last() =~= program@.take(i as int));
            assert(program@.take(i + 1).last() == program@[i as int]);
        }
        match &program[i] {
            crate::ast::Expr::Use { path, .. } => {
                let norm = normalize_path(path);
                if module_exports_is_none(&norm) {
                    let c = candidates_vec(path, &norm);
                    let mut k: usize = 0;
                    while k < c.len()
                        invariant
                            k <= c.len(),
                            crate::checker::prov::names_view(out@) == before + crate::checker::prov::names_view(c@).take(k as int),
                        decreases c.len() - k,
                    {
                        let ghost b2 = out@;
                        out.push(c[k].clone());
                        proof {
                            assert(crate::checker::prov::names_view(out@) =~= crate::checker::prov::names_view(b2).push(c@[k as int]@));
                            assert(crate::checker::prov::names_view(c@).take(k + 1) =~= crate::checker::prov::names_view(c@).take(k as int).push(c@[k as int]@));
                        }
                        k += 1;
                    }
                    proof {
                        assert(crate::checker::prov::names_view(c@).take(c.len() as int) =~= module_candidates(path@, norm@));
                    }
                } else {
                    proof {
                        assert(before + Seq::<Seq<char>>::empty() =~= before);
                    }
                }
            },
            _ => {
                proof {
                    assert(before + Seq::<Seq<char>>::empty() =~= before);
                }
            },
        }
        i += 1;
    }
    proof {
        assert(program@.take(program.len() as int) =~= program@);
    }
    out
}

fn module_exports_is_none(norm: &String) -> (r: bool)
    ensures
        r == crate::checker::builtins::std_exports(norm@) is None,
{
    crate::checker::builtins::module_exports(norm).is_none()
}

} // verus!
