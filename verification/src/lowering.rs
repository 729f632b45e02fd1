//! The decisions of native code generation that do not depend on the code
//! generator's own state: the machine type of each Track type, function
//! signatures, enum discriminants, how a call's name is resolved, when a
//! value must be narrowed or widened, and when a `main` is synthesized.
use vstd::prelude::*;
use crate::ast::{Expr, TrackType, TypeV};
use crate::checker::calls::{last_segment, trim_at};
use crate::text::{chars_of, push_str, push_string, string_from_chars, string_of};

verus! {

/// The integer widths values are lowered to.
#[derive(Debug, Clone, Copy, PartialEq, Eq, Structural)]
pub enum IrType {
    I8,
    I32,
    I64,
}

/// The machine type of a Track type: bytes and booleans are 8 bits, 32-bit
/// integers and `void` 32 bits, everything else (64-bit integers,
/// pointers, references, slices, arrays, tuples, named types) 64 bits.
pub open spec fn ir_type_spec(t: TypeV) -> IrType {
    match t {
        TypeV::U8 | TypeV::I8 | TypeV::Bool => IrType::I8,
        TypeV::I32 | TypeV::U32 | TypeV::Void => IrType::I32,
        _ => IrType::I64,
    }
}

/// The machine type of a Track type.
pub fn ir_type_of(t: &TrackType) -> (r: IrType)
    ensures
        r == ir_type_spec(t@),
{
    match t {
        TrackType::U8 | TrackType::I8 | TrackType::Bool => IrType::I8,
        TrackType::I32 | TrackType::U32 | TrackType::Void => IrType::I32,
        _ => IrType::I64,
    }
}

/// Machine widths: only `u8`, `i8` and `bool` are 8 bits, only `i32`, `u32`
/// and `void` are 32 bits, and every other type (64-bit integers, pointers,
/// references, slices, arrays, tuples, named types) is 64 bits, so no
/// address is ever truncated.
pub proof fn law_machine_widths(t: TypeV)
    ensures
        (ir_type_spec(t) == IrType::I8) <==> (t is U8 || t is I8 || t is Bool),
        (ir_type_spec(t) == IrType::I32) <==> (t is I32 || t is U32 || t is Void),
        (t is I64 || t is U64 || t is Ptr || t is Ref || t is Slice || t is Array || t is Tuple
            || t is Custom) ==> ir_type_spec(t) == IrType::I64,
{
}

/// The return type of a function's signature: `main` returns a 32-bit
/// status; a declared type other than `void` gives its machine type;
/// otherwise nothing is returned.
pub open spec fn return_ir_spec(name: Seq<char>, ret: Option<TypeV>) -> Option<IrType> {
    if name == "main"@ {
        Some(IrType::I32)
    } else {
        match ret {
            Some(t) => if t == TypeV::Void {
                None
            } else {
                Some(ir_type_spec(t))
            },
            None => None,
        }
    }
}

/// The parameter and return types of a function's signature.
pub fn signature_types(name: &str, params: &Vec<(String, TrackType)>, return_type: &Option<TrackType>) -> (r: (
    Vec<IrType>,
    Option<IrType>,
))
    ensures
        r.0@.len() == params@.len(),
        forall|i: int| 0 <= i < params@.len() ==> #[trigger] r.0@[i] == ir_type_spec(params@[i].1@),
        r.1 == return_ir_spec(name@, crate::checker::infer::opt_view(*return_type)),
{
    let mut ps: Vec<IrType> = Vec::new();
    let mut i: usize = 0;
    while i < params.len()
        invariant
            i <= params.len(),
            ps@.len() == i,
            forall|j: int| 0 <= j < i ==> #[trigger] ps@[j] == ir_type_spec(params@[j].1@),
        decreases params.len() - i,
    {
        ps.push(ir_type_of(&params[i].1));
        i += 1;
    }
    let ret = if string_of(name).eq(&string_of("main")) {
        Some(IrType::I32)
    } else {
        match return_type {
            Some(t) => {
                if t.same(&TrackType::Void) {
                    None
                } else {
                    Some(ir_type_of(t))
                }
            },
            None => None,
        }
    };
    proof {
        reveal_with_fuel(crate::ast::type_view, 2);
    }
    (ps, ret)
}

/// The discriminant that a qualified variant name gets when no enum
/// declares it: the built-in colours, ownership states, value kinds and
/// results by their position, 0 for anything else.
pub open spec fn builtin_discriminant_spec(v: Seq<char>) -> i64 {
    if v == "Red"@ || v == "Active"@ || v == "Int"@ || v == "Ok"@ {
        0
    } else if v == "Green"@ || v == "Locked"@ || v == "Float"@ || v == "Err"@ {
        1
    } else if v == "Blue"@ || v == "Spent"@ || v == "Bool"@ {
        2
    } else {
        0
    }
}

/// The discriminant of a built-in variant name.
pub fn builtin_discriminant(v: &str) -> (r: i64)
    ensures
        r == builtin_discriminant_spec(v@),
{
    let s = string_of(v);
    if s.eq(&string_of("Red")) || s.eq(&string_of("Active")) || s.eq(&string_of("Int")) || s.eq(
        &string_of("Ok"),
    ) {
        0
    } else if s.eq(&string_of("Green")) || s.eq(&string_of("Locked")) || s.eq(&string_of("Float"))
        || s.eq(&string_of("Err")) {
        1
    } else if s.eq(&string_of("Blue")) || s.eq(&string_of("Spent")) || s.eq(&string_of("Bool")) {
        2
    } else {
        0
    }
}

/// Where the first `::` of `s` at or after `i` starts, or the length.
pub open spec fn first_dc(s: Seq<char>, i: int) -> int
    decreases s.len() - i,
{
    if i < 0 || i + 1 >= s.len() {
        s.len() as int
    } else if s[i] == ':' && s[i + 1] == ':' {
        i
    } else {
        first_dc(s, i + 1)
    }
}

/// The second `::`-separated segment of a qualified name (`Color::Red`
/// gives `Red`); empty when there is none.
pub open spec fn second_segment(s: Seq<char>) -> Seq<char> {
    let a = first_dc(s, 0);
    if a >= s.len() {
        Seq::empty()
    } else {
        let b = first_dc(s, a + 2);
        s.subrange(a + 2, if b < s.len() { b } else { s.len() as int })
    }
}

proof fn lemma_first_dc(s: Seq<char>, i: int)
    requires
        0 <= i,
    ensures
        first_dc(s, i) >= i || first_dc(s, i) == s.len(),
        first_dc(s, i) <= s.len(),
        first_dc(s, i) < s.len() ==> first_dc(s, i) + 1 < s.len(),
    decreases s.len() - i,
{
    if !(i + 1 >= s.len()) && !(s[i] == ':' && s[i + 1] == ':') {
        lemma_first_dc(s, i + 1);
    }
}

fn first_dc_exec(v: &Vec<char>, from: usize) -> (r: usize)
    ensures
        r == first_dc(v@, from as int),
{
    let mut i: usize = from;
    while i < v.len() && i + 1 < v.len()
        invariant
            from <= i,
            first_dc(v@, from as int) == first_dc(v@, i as int),
        decreases v.len() - i,
    {
        if v[i] == ':' && v[i + 1] == ':' {
            return i;
        }
        i += 1;
    }
    v.len()
}

/// The second `::`-separated segment of a qualified name.
pub fn second_name_segment(name: &str) -> (r: String)
    ensures
        r@ == second_segment(name@),
{
    let v = chars_of(name);
    let a = first_dc_exec(&v, 0);
    proof {
        lemma_first_dc(v@, 0);
    }
    if a >= v.len() {
        return String::new();
    }
    let b = first_dc_exec(&v, a + 2);
    proof {
        lemma_first_dc(v@, a + 2);
    }
    let end = if b < v.len() {
        b
    } else {
        v.len()
    };
    string_from_chars(&v, a + 2, end)
}

/// The names a call is looked up by: as written, without leading `@`, and
/// its last `::`-separated segment.
pub fn call_lookup_names(name: &str) -> (r: (String, String))
    ensures
        r.0@ == trim_at(name@),
        r.1@ == last_segment(trim_at(name@)),
{
    let v = chars_of(name);
    let mut c: usize = 0;
    proof {
        assert(v@.skip(0) =~= v@);
    }
    while c < v.len() && v[c] == '@'
        invariant
            v@ == name@,
            c <= v@.len(),
            trim_at(v@) == trim_at(v@.skip(c as int)),
        decreases v.len() - c,
    {
        proof {
            assert(v@.skip(c as int).drop_first() =~= v@.skip(c + 1));
        }
        c += 1;
    }
    proof {
        assert(v@.skip(c as int) == trim_at(v@.skip(c as int)));
        assert(v@.subrange(c as int, v@.len() as int) =~= v@.skip(c as int));
    }
    let clean = string_from_chars(&v, c, v.len());
    let w = chars_of(clean.as_str());
    let mut i: usize = 0;
    let mut start: usize = 0;
    proof {
        assert(w@.skip(0) =~= w@);
    }
    while i < w.len() && i + 1 < w.len()
        invariant
            w@ == trim_at(name@),
            start <= i,
            i <= w@.len() + 1,
            start <= w@.len(),
            crate::checker::calls::seg_start(w@, 0, 0) == crate::checker::calls::seg_start(
                w@,
                i as int,
                start as int,
            ),
        decreases w.len() + 1 - i,
    {
        if w[i] == ':' && w[i + 1] == ':' {
            i = i + 2;
            start = i;
        } else {
            i = i + 1;
        }
    }
    proof {
        assert(crate::checker::calls::seg_start(w@, i as int, start as int) == start);
        assert(w@.subrange(start as int, w@.len() as int) =~= w@.skip(start as int));
    }
    let target = string_from_chars(&w, start, w.len());
    (clean, target)
}

/// How an argument or a returned value is brought to the width expected.
#[derive(Debug, Clone, Copy, PartialEq, Eq, Structural)]
pub enum Conversion {
    Keep,
    Narrow,
    Widen,
}

/// Narrow a wider value, widen a narrower one, keep one of the same size.
pub fn conversion(actual_bytes: u32, expected_bytes: u32) -> (r: Conversion)
    ensures
        actual_bytes > expected_bytes ==> r == Conversion::Narrow,
        actual_bytes < expected_bytes ==> r == Conversion::Widen,
        actual_bytes == expected_bytes ==> r == Conversion::Keep,
{
    if actual_bytes > expected_bytes {
        Conversion::Narrow
    } else if actual_bytes < expected_bytes {
        Conversion::Widen
    } else {
        Conversion::Keep
    }
}

/// Whether a module without a `main` gets one made from its top-level
/// statements: entry modules are those named `main` or `track_module`, or
/// whose name ends with `main`.
pub fn needs_main_wrapper(has_main: bool, module_name: &str) -> (r: bool)
    ensures
        r == (!has_main && (module_name@ == "main"@ || module_name@ == "track_module"@ || (
        module_name@.len() >= 4 && module_name@.skip(module_name@.len() - 4) == "main"@))),
{
    if has_main {
        return false;
    }
    let s = string_of(module_name);
    if s.eq(&string_of("main")) || s.eq(&string_of("track_module")) {
        return true;
    }
    let v = chars_of(module_name);
    if v.len() < 4 {
        return false;
    }
    let n = v.len();
    let tail = string_from_chars(&v, n - 4, n);
    proof {
        assert(v@.subrange(n - 4, n as int) =~= v@.skip(n - 4));
    }
    tail.eq(&string_of("main"))
}

/// The discriminants that every module starts with: the built-in colours,
/// ownership states, value kinds and results.
pub open spec fn initial_variants_spec() -> Seq<(Seq<char>, i64)> {
    seq![
        ("Red"@, 0i64),
        ("Green"@, 1i64),
        ("Blue"@, 2i64),
        ("Active"@, 0i64),
        ("Locked"@, 1i64),
        ("Spent"@, 2i64),
        ("Int"@, 0i64),
        ("Float"@, 1i64),
        ("Bool"@, 2i64),
        ("Ok"@, 0i64),
        ("Err"@, 1i64),
    ]
}

/// The values of named discriminants.
pub open spec fn discs_view(v: Seq<(String, i64)>) -> Seq<(Seq<char>, i64)> {
    Seq::new(v.len(), |i: int| (v[i].0@, v[i].1))
}

/// The discriminants that every module starts with.
pub fn initial_variants() -> (r: Vec<(String, i64)>)
    ensures
        discs_view(r@) == initial_variants_spec(),
{
    let r = vec![
        (string_of("Red"), 0i64),
        (string_of("Green"), 1i64),
        (string_of("Blue"), 2i64),
        (string_of("Active"), 0i64),
        (string_of("Locked"), 1i64),
        (string_of("Spent"), 2i64),
        (string_of("Int"), 0i64),
        (string_of("Float"), 1i64),
        (string_of("Bool"), 2i64),
        (string_of("Ok"), 0i64),
        (string_of("Err"), 1i64),
    ];
    proof {
        assert(discs_view(r@) =~= initial_variants_spec());
    }
    r
}

/// The discriminants a list of variant names declares: each variant by
/// its position, both bare and qualified by the type's name.
pub open spec fn variant_discs(ty: Seq<char>, names: Seq<Seq<char>>) -> Seq<(Seq<char>, i64)>
    decreases names.len(),
{
    if names.len() == 0 {
        Seq::empty()
    } else {
        let k = (names.len() - 1) as i64;
        variant_discs(ty, names.drop_last()) + seq![(names.last(), k), (ty + "::"@ + names.last(), k)]
    }
}

/// The discriminants that the enums and unions of a program declare, in
/// order.
pub open spec fn program_discs(p: Seq<Expr>) -> Seq<(Seq<char>, i64)>
    decreases p.len(),
{
    if p.len() == 0 {
        Seq::empty()
    } else {
        program_discs(p.drop_last()) + match p.last() {
            Expr::EnumDef { name, variants, .. } => variant_discs(
                name@,
                Seq::new(variants@.len(), |i: int| variants@[i].0@),
            ),
            Expr::UnionDef { name, variants } => variant_discs(
                name@,
                Seq::new(variants@.len(), |i: int| variants@[i].0@),
            ),
            _ => Seq::empty(),
        }
    }
}

fn push_discs(out: &mut Vec<(String, i64)>, ty: &String, names: &Vec<String>)
    ensures
        discs_view(final(out)@) == discs_view(old(out)@) + variant_discs(ty@, Seq::new(names@.len(), |i: int| names@[i]@)),
{
    let ghost ns = Seq::new(names@.len(), |i: int| names@[i]@);
    let ghost start = discs_view(out@);
    let mut i: usize = 0;
    proof {
        assert(ns.take(0) =~= Seq::<Seq<char>>::empty());
        assert(start + variant_discs(ty@, ns.take(0)) =~= start);
    }
    while i < names.len()
        invariant
            ns == Seq::new(names@.len(), |i: int| names@[i]@),
            start == discs_view(old(out)@),
            i <= names.len(),
            discs_view(out@) == start + variant_discs(ty@, ns.take(i as int)),
        decreases names.len() - i,
    {
        let ghost before = discs_view(out@);
        let k = #[verifier::truncate] (i as i64);
        out.push((names[i].clone(), k));
        let mut q = ty.clone();
        push_str(&mut q, "::");
        push_string(&mut q, &names[i]);
        out.push((q, k));
        proof {
            assert(ns.take(i + 1).drop_last() =~= ns.take(i as int));
            assert(ns.take(i + 1).last() == names@[i as int]@);
            assert(discs_view(out@) =~= before + seq![(names@[i as int]@, k), (ty@ + "::"@ + names@[i as int]@, k)]);
        }
        i += 1;
    }
    proof {
        assert(ns.take(names@.len() as int) =~= ns);
    }
}

/// The discriminants that the enums and unions of a program declare.
pub fn declared_variants(program: &[Expr]) -> (r: Vec<(String, i64)>)
    ensures
        discs_view(r@) == program_discs(program@),
{
    let mut out: Vec<(String, i64)> = Vec::new();
    let mut i: usize = 0;
    proof {
        assert(program@.take(0) =~= Seq::<Expr>::empty());
        assert(discs_view(out@) =~= Seq::<(Seq<char>, i64)>::empty());
    }
    while i < program.len()
        invariant
            i <= program.len(),
            discs_view(out@) == program_discs(program@.take(i as int)),
        decreases program.len() - i,
    {
        proof {
            assert(program@.take(i + 1).drop_last() =~= program@.take(i as int));
            assert(program@.take(i + 1).last() == program@[i as int]);
        }
        let ghost before = discs_view(out@);
        match &program[i] {
            Expr::EnumDef { name, variants, .. } => {
                let names = variant_names_enum(variants);
                push_discs(&mut out, name, &names);
                proof {
                    assert(Seq::new(names@.len(), |j: int| names@[j]@) =~= Seq::new(
                        variants@.len(),
                        |j: int| variants@[j].0@,
                    ));
                }
            },
            Expr::UnionDef { name, variants } => {
                let names = variant_names_union(variants);
                push_discs(&mut out, name, &names);
                proof {
                    assert(Seq::new(names@.len(), |j: int| names@[j]@) =~= Seq::new(
                        variants@.len(),
                        |j: int| variants@[j].0@,
                    ));
                }
            },
            _ => {
                proof {
                    assert(before + Seq::<(Seq<char>, i64)>::empty() =~= before);
                }
            },
        }
        i += 1;
    }
    proof {
        assert(program@.take(program.len() as int) =~= program@);
    }
    out
}

fn variant_names_enum(variants: &Vec<(String, Option<Expr>)>) -> (r: Vec<String>)
    ensures
        r@.len() == variants@.len(),
        forall|j: int| 0 <= j < r@.len() ==> #[trigger] r@[j]@ == variants@[j].0@,
{
    let mut out: Vec<String> = Vec::new();
    let mut k: usize = 0;
    while k < variants.len()
        invariant
            k <= variants.len(),
            out@.len() == k,
            forall|j: int| 0 <= j < k ==> #[trigger] out@[j]@ == variants@[j].0@,
        decreases variants.len() - k,
    {
        out.push(variants[k].0.clone());
        k += 1;
    }
    out
}

fn variant_names_union(variants: &Vec<(String, Option<TrackType>)>) -> (r: Vec<String>)
    ensures
        r@.len() == variants@.len(),
        forall|j: int| 0 <= j < r@.len() ==> #[trigger] r@[j]@ == variants@[j].0@,
{
    let mut out: Vec<String> = Vec::new();
    let mut k: usize = 0;
    while k < variants.len()
        invariant
            k <= variants.len(),
            out@.len() == k,
            forall|j: int| 0 <= j < k ==> #[trigger] out@[j]@ == variants@[j].0@,
        decreases variants.len() - k,
    {
        out.push(variants[k].0.clone());
        k += 1;
    }
    out
}

} // verus!
