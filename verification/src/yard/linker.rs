use vstd::prelude::*;
use crate::text::{chars_of, string_of};
use crate::yard::commands::args_view;

verus! {

/// The linker driver: links object files and the runtime into an
/// executable with `cc`.
pub struct LinkerEngine;

/// Whitespace as `char::is_whitespace` counts it: the characters with
/// Unicode's `White_Space` property.
pub open spec fn is_white(c: char) -> bool {
    ('\u{9}' <= c && c <= '\u{d}') || c == ' ' || c == '\u{85}' || c == '\u{a0}' || c == '\u{1680}' || (
    '\u{2000}' <= c && c <= '\u{200a}') || c == '\u{2028}' || c == '\u{2029}' || c == '\u{202f}' || c
        == '\u{205f}' || c == '\u{3000}'
}

fn is_white_exec(c: char) -> (r: bool)
    ensures
        r == is_white(c),
{
    ('\u{9}' <= c && c <= '\u{d}') || c == ' ' || c == '\u{85}' || c == '\u{a0}' || c == '\u{1680}' || (
    '\u{2000}' <= c && c <= '\u{200a}') || c == '\u{2028}' || c == '\u{2029}' || c == '\u{202f}' || c
        == '\u{205f}' || c == '\u{3000}'
}

/// `s` without whitespace at either end.
pub open spec fn trimmed(s: Seq<char>) -> Seq<char> {
    if exists|i: int| 0 <= i < s.len() && !is_white(#[trigger] s[i]) {
        let a = choose|a: int|
            0 <= a < s.len() && !is_white(s[a]) && forall|j: int| 0 <= j < a ==> is_white(#[trigger] s[j]);
        let b = choose|b: int|
            0 <= b < s.len() && !is_white(s[b]) && forall|j: int| b < j < s.len() ==> is_white(#[trigger] s[j]);
        s.subrange(a, b + 1)
    } else {
        Seq::empty()
    }
}

/// The text without whitespace at either end.
pub fn trim(t: &str) -> (r: String)
    ensures
        r@ == trimmed(t@),
{
    let v = chars_of(t);
    let mut a: usize = 0;
    while a < v.len() && is_white_exec(v[a])
        invariant
            v@ == t@,
            a <= v@.len(),
            forall|j: int| 0 <= j < a ==> is_white(#[trigger] v@[j]),
        decreases v.len() - a,
    {
        a += 1;
    }
    if a == v.len() {
        proof {
            if exists|i: int| 0 <= i < v@.len() && !is_white(#[trigger] v@[i]) {
                let i = choose|i: int| 0 <= i < v@.len() && !is_white(#[trigger] v@[i]);
                assert(is_white(v@[i]));
            }
        }
        return String::new();
    }
    let mut b: usize = v.len() - 1;
    while b > a && is_white_exec(v[b])
        invariant
            v@ == t@,
            a <= b < v@.len(),
            !is_white(v@[a as int]),
            forall|j: int| b < j < v@.len() ==> is_white(#[trigger] v@[j]),
        decreases b,
    {
        b -= 1;
    }
    proof {
        assert(!is_white(v@[b as int]));
        assert(exists|i: int| 0 <= i < v@.len() && !is_white(#[trigger] v@[i]));
        let a2 = choose|a2: int|
            0 <= a2 < v@.len() && !is_white(v@[a2]) && forall|j: int| 0 <= j < a2 ==> is_white(#[trigger] v@[j]);
        let b2 = choose|b2: int|
            0 <= b2 < v@.len() && !is_white(v@[b2]) && forall|j: int| b2 < j < v@.len() ==> is_white(#[trigger] v@[j]);
        if a2 < a {
            assert(is_white(v@[a2]));
        }
        if a < a2 {
            assert(is_white(v@[a as int]));
        }
        if b2 < b {
            assert(is_white(v@[b as int]));
        }
        if b < b2 {
            assert(is_white(v@[b2]));
        }
    }
    crate::text::string_from_chars(&v, a, b + 1)
}

impl LinkerEngine {
    /// The flag that selects a fast linker: `mold` when it runs, else
    /// `ld.lld` when it runs, else none.
    pub fn fast_linker_flag(mold_runs: bool, lld_runs: bool) -> (r: Option<String>)
        ensures
            mold_runs ==> r is Some && r->Some_0@ == "-fuse-ld=mold"@,
            !mold_runs && lld_runs ==> r is Some && r->Some_0@ == "-fuse-ld=lld"@,
            !mold_runs && !lld_runs ==> r is None,
    {
        if mold_runs {
            Some(string_of("-fuse-ld=mold"))
        } else if lld_runs {
            Some(string_of("-fuse-ld=lld"))
        } else {
            None
        }
    }

    /// Whether the cached runtime object can be reused: it exists and the
    /// recorded hash, trimmed, is the runtime source's hash.
    pub fn runtime_is_fresh(obj_exists: bool, recorded: Option<String>, hash: &str) -> (r: bool)
        ensures
            r == (obj_exists && match recorded {
                Some(s) => trimmed(s@) == hash@,
                None => false,
            }),
    {
        if !obj_exists {
            return false;
        }
        match recorded {
            Some(s) => trim(s.as_str()).eq(&string_of(hash)),
            None => false,
        }
    }

    /// The arguments of the `cc` call that links: the fast linker flag if
    /// any, the object files, the runtime object, then the output and the
    /// libraries.
    pub fn link_args(obj_files: &Vec<String>, runtime_obj: &str, exe_path: &str, fast_flag: &Option<String>) -> (r: Vec<
        String,
    >)
        ensures
            args_view(r@) == (match fast_flag {
                Some(f) => seq![f@],
                None => Seq::<Seq<char>>::empty(),
            }) + args_view(obj_files@) + seq![runtime_obj@, "-o"@, exe_path@, "-lm"@, "-no-pie"@],
    {
        let mut out: Vec<String> = Vec::new();
        match fast_flag {
            Some(f) => out.push(f.clone()),
            None => {},
        }
        let ghost head = args_view(out@);
        let mut i: usize = 0;
        while i < obj_files.len()
            invariant
                i <= obj_files.len(),
                args_view(out@) == head + args_view(obj_files@).take(i as int),
            decreases obj_files.len() - i,
        {
            let ghost before = out@;
            let c = obj_files[i].clone();
            out.push(c);
            proof {
                assert(args_view(out@) =~= args_view(before).push(obj_files@[i as int]@));
                assert(args_view(obj_files@).take(i + 1) =~= args_view(obj_files@).take(i as int).push(
                    obj_files@[i as int]@,
                ));
                assert(args_view(out@) =~= head + args_view(obj_files@).take(i + 1));
            }
            i += 1;
        }
        let ghost mid = args_view(out@);
        out.push(string_of(runtime_obj));
        out.push(string_of("-o"));
        out.push(string_of(exe_path));
        out.push(string_of("-lm"));
        out.push(string_of("-no-pie"));
        proof {
            assert(args_view(obj_files@).take(obj_files@.len() as int) =~= args_view(obj_files@));
            assert(args_view(out@) =~= mid + seq![runtime_obj@, "-o"@, exe_path@, "-lm"@, "-no-pie"@]);
            assert(head =~= (match fast_flag {
                Some(f) => seq![f@],
                None => Seq::<Seq<char>>::empty(),
            }));
        }
        out
    }
}

} // verus!
