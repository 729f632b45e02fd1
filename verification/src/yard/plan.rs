//! The decisions of a build that do not depend on files or threads: where
//! each object goes, which failure is reported, the order of diagnostics and
//! of the linker's inputs.
use vstd::prelude::*;
use crate::checker::prov::{str_lt, str_lt_from, string_lt};
use crate::text::{chars_equal, chars_of, push_str, string_from_chars};
use crate::yard::paths::{join_path, joined};

verus! {

/// A source path without its `.trk` extension.
pub open spec fn strip_trk(p: Seq<char>) -> Seq<char> {
    if p.len() >= 4 && p.subrange(p.len() - 4, p.len() as int) == ".trk"@ {
        p.subrange(0, p.len() - 4)
    } else {
        p
    }
}

/// The object file of a source file, by its path within the project: under
/// `objects` in the target directory, so that sources with one file name in
/// different directories do not share an object.
pub fn object_path(target: &str, rel_src: &str) -> (r: String)
    ensures
        r@ == joined(joined(target@, "objects"@), strip_trk(rel_src@) + ".o"@),
{
    let dir = join_path(target, "objects");
    let v = chars_of(rel_src);
    let suffix: Vec<char> = vec!['.', 't', 'r', 'k'];
    proof {
        reveal_strlit(".trk");
        assert(suffix@ =~= ".trk"@);
    }
    let mut name = if v.len() >= 4 && chars_equal(&v, v.len() - 4, v.len(), suffix.as_slice()) {
        string_from_chars(&v, 0, v.len() - 4)
    } else {
        string_from_chars(&v, 0, v.len())
    };
    proof {
        assert(v@.subrange(0, v@.len() as int) =~= v@);
    }
    push_str(&mut name, ".o");
    join_path(dir.as_str(), name.as_str())
}

/// The position of the failure with the least source index among the first
/// `n` results, the earliest of them where several share it.
pub open spec fn least_failure(rs: Seq<(usize, Result<(), String>)>, n: int) -> Option<int>
    decreases n,
{
    if n <= 0 || n > rs.len() {
        None
    } else {
        let best = least_failure(rs, n - 1);
        if rs[n - 1].1 is Err && (best is None || rs[n - 1].0 < rs[best->Some_0].0) {
            Some(n - 1)
        } else {
            best
        }
    }
}

proof fn lemma_least_failure(rs: Seq<(usize, Result<(), String>)>, n: int)
    ensures
        least_failure(rs, n) matches Some(k) ==> 0 <= k < n && k < rs.len() && rs[k].1 is Err,
    decreases n,
{
    if n > 0 && n <= rs.len() {
        lemma_least_failure(rs, n - 1);
    }
}

/// The error to report of a build whose units gave `results`, each with the
/// index of its source file: that of the first source file that failed.
pub fn first_failure(results: &Vec<(usize, Result<(), String>)>) -> (r: Option<String>)
    ensures
        match least_failure(results@, results@.len() as int) {
            Some(k) => r == Some(results@[k].1->Err_0),
            None => r is None,
        },
{
    let mut best: Option<usize> = None;
    let mut i: usize = 0;
    while i < results.len()
        invariant
            i <= results.len(),
            match least_failure(results@, i as int) {
                Some(k) => best == Some(k as usize) && k < i,
                None => best is None,
            },
        decreases results.len() - i,
    {
        proof {
            lemma_least_failure(results@, i as int);
            lemma_least_failure(results@, i + 1);
        }
        let better = match &results[i].1 {
            Err(_) => match best {
                None => true,
                Some(b) => results[i].0 < results[b].0,
            },
            Ok(_) => false,
        };
        if better {
            best = Some(i);
        }
        i += 1;
    }
    proof {
        lemma_least_failure(results@, results@.len() as int);
    }
    match best {
        Some(b) => match &results[b].1 {
            Err(e) => Some(e.clone()),
            Ok(_) => None,
        },
        None => None,
    }
}

/// The outcome of a build: the first unit's failure, else the failure to
/// save the cache, else success.
pub fn build_outcome(first: Option<String>, cache_saved: Result<(), String>) -> (r: Result<(), String>)
    ensures
        match first {
            Some(e) => r == Err::<(), String>(e),
            None => r == cache_saved,
        },
{
    match first {
        Some(e) => Err(e),
        None => cache_saved,
    }
}

/// The texts are in order: none comes before one ahead of it.
pub open spec fn texts_sorted(s: Seq<String>) -> bool {
    forall|i: int, j: int| 0 <= i < j < s.len() ==> !str_lt(#[trigger] s[j]@, #[trigger] s[i]@)
}

fn sort_texts(v: Vec<String>) -> (r: Vec<String>)
    ensures
        texts_sorted(r@),
        r@.to_multiset() == v@.to_multiset(),
{
    broadcast use vstd::seq_lib::group_to_multiset_ensures;

    let mut out: Vec<String> = Vec::new();
    let mut i: usize = 0;
    proof {
        assert(v@.take(0) =~= Seq::<String>::empty());
    }
    while i < v.len()
        invariant
            i <= v.len(),
            texts_sorted(out@),
            out@.to_multiset() == v@.take(i as int).to_multiset(),
        decreases v.len() - i,
    {
        let x = v[i].clone();
        let mut k: usize = 0;
        while k < out.len() && !string_lt(&x, &out[k])
            invariant
                k <= out.len(),
                forall|j: int| 0 <= j < k ==> !str_lt(x@, #[trigger] out@[j]@),
            decreases out.len() - k,
        {
            k += 1;
        }
        let ghost before = out@;
        out.insert(k, x);
        proof {
            vstd::seq_lib::to_multiset_insert(before, k as int, x);
            assert(v@.take(i + 1) =~= v@.take(i as int).push(v@[i as int]));
            vstd::seq_lib::to_multiset_build(v@.take(i as int), v@[i as int]);
            assert(out@ == before.insert(k as int, x));
            assert forall|a: int, b: int| 0 <= a < b < out@.len() implies !str_lt(
                #[trigger] out@[b]@,
                #[trigger] out@[a]@,
            ) by {
                if b < k {
                    assert(out@[a] == before[a] && out@[b] == before[b]);
                } else if b == k {
                    assert(out@[a] == before[a]);
                } else if a == k {
                    assert(out@[b] == before[b - 1]);
                    if k < before.len() {
                        assert(str_lt(x@, before[k as int]@));
                        if b - 1 > k {
                            assert(!str_lt(before[b - 1]@, before[k as int]@));
                        }
                        if str_lt(before[b - 1]@, x@) {
                            crate::checker::laws::lemma_lt_transitive(before[b - 1]@, x@, before[k as int]@, 0);
                            if b - 1 == k {
                                crate::checker::laws::lemma_lt_irreflexive(before[k as int]@, 0);
                            }
                        }
                    }
                } else if a < k {
                    assert(out@[a] == before[a] && out@[b] == before[b - 1]);
                } else {
                    assert(out@[a] == before[a - 1] && out@[b] == before[b - 1]);
                }
            }
        }
        i += 1;
    }
    proof {
        assert(v@.take(v@.len() as int) =~= v@);
    }
    out
}

/// The diagnostics of a check, in order, whatever order the workers
/// reported them in.
pub fn sorted_diagnostics(errs: Vec<String>) -> (r: Vec<String>)
    ensures
        texts_sorted(r@),
        r@.to_multiset() == errs@.to_multiset(),
{
    sort_texts(errs)
}

/// The linker's inputs: the object files in order, then the runtime's.
pub fn link_inputs(objs: Vec<String>, runtime: String) -> (r: Vec<String>)
    ensures
        r@.len() == objs@.len() + 1,
        r@.last() == runtime,
        texts_sorted(r@.drop_last()),
        r@.drop_last().to_multiset() == objs@.to_multiset(),
{
    broadcast use vstd::seq_lib::group_to_multiset_ensures;

    let ghost ov = objs@;
    let mut out = sort_texts(objs);
    let ghost sorted = out@;
    proof {
        assert(sorted.to_multiset().len() == ov.to_multiset().len());
    }
    out.push(runtime);
    proof {
        assert(out@.drop_last() =~= sorted);
    }
    out
}

} // verus!
