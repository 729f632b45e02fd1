use vstd::prelude::*;
use crate::checker::{LinearChecker, quoted};
use crate::text::{chars_of, string_of, string_from_chars, push_str, push_string};

verus! {

/// The smallest of three numbers.
pub open spec fn min3(x: nat, y: nat, z: nat) -> nat {
    if x <= y && x <= z {
        x
    } else if y <= z {
        y
    } else {
        z
    }
}

/// The edit distance of two strings: the fewest insertions, deletions and
/// substitutions of single characters that turn one into the other.
pub open spec fn lev(a: Seq<char>, b: Seq<char>) -> nat
    decreases a.len() + b.len(),
{
    if a.len() == 0 {
        b.len()
    } else if b.len() == 0 {
        a.len()
    } else {
        min3(
            lev(a.drop_last(), b) + 1,
            lev(a, b.drop_last()) + 1,
            lev(a.drop_last(), b.drop_last()) + (if a.last() == b.last() {
                0nat
            } else {
                1nat
            }),
        )
    }
}

/// A text is at distance zero from itself, and only from itself.
pub proof fn law_lev_zero(a: Seq<char>, b: Seq<char>)
    ensures
        lev(a, a) == 0,
        lev(a, b) == 0 <==> a == b,
    decreases a.len() + b.len(),
{
    lemma_lev_self(a);
    if lev(a, b) == 0 {
        if a.len() > 0 && b.len() > 0 {
            law_lev_zero(a.drop_last(), b.drop_last());
            assert(a =~= a.drop_last().push(a.last()));
            assert(b =~= b.drop_last().push(b.last()));
        } else if a.len() == 0 {
            assert(b.len() == 0);
            assert(a =~= b);
        } else {
            assert(a.len() == 0);
        }
    }
}

proof fn lemma_lev_self(a: Seq<char>)
    ensures
        lev(a, a) == 0,
    decreases a.len(),
{
    if a.len() > 0 {
        lemma_lev_self(a.drop_last());
    }
}

/// The edit distance does not depend on the order of the two texts.
pub proof fn law_lev_symmetric(a: Seq<char>, b: Seq<char>)
    ensures
        lev(a, b) == lev(b, a),
    decreases a.len() + b.len(),
{
    if a.len() > 0 && b.len() > 0 {
        law_lev_symmetric(a.drop_last(), b);
        law_lev_symmetric(a, b.drop_last());
        law_lev_symmetric(a.drop_last(), b.drop_last());
    }
}

/// The edit distance is at most the longer length.
pub proof fn lemma_lev_bound(a: Seq<char>, b: Seq<char>)
    ensures
        lev(a, b) <= if a.len() >= b.len() {
            a.len()
        } else {
            b.len()
        },
    decreases a.len() + b.len(),
{
    if a.len() > 0 && b.len() > 0 {
        lemma_lev_bound(a.drop_last(), b.drop_last());
    }
}

fn min_usize(x: usize, y: usize) -> (r: usize)
    ensures
        r == if x <= y {
            x
        } else {
            y
        },
{
    if x <= y {
        x
    } else {
        y
    }
}

/// The edit distance of `a` and `b`.
pub fn levenshtein_distance(a: &str, b: &str) -> (r: usize)
    requires
        a@.len() < usize::MAX,
        b@.len() < usize::MAX,
    ensures
        r == lev(a@, b@),
{
    let x = chars_of(a);
    let y = chars_of(b);
    let n = y.len();
    let mut prev: Vec<usize> = Vec::new();
    let mut j: usize = 0;
    while j <= n
        invariant
            n == y@.len(),
            n < usize::MAX,
            j <= n + 1,
            prev@.len() == j,
            forall|k: int| 0 <= k < j ==> #[trigger] prev@[k] == lev(Seq::<char>::empty(), y@.take(k)),
        decreases n + 1 - j,
    {
        prev.push(j);
        j += 1;
    }
    let mut i: usize = 1;
    while i <= x.len()
        invariant
            n == y@.len(),
            x@ == a@,
            y@ == b@,
            x@.len() < usize::MAX,
            n < usize::MAX,
            1 <= i <= x@.len() + 1,
            prev@.len() == n + 1,
            forall|k: int|
                0 <= k <= n ==> #[trigger] prev@[k] == lev(x@.take(i - 1), y@.take(k)),
        decreases x@.len() + 1 - i,
    {
        let mut cur: Vec<usize> = Vec::new();
        proof {
            assert(x@.take(i as int).len() == i);
            assert(lev(x@.take(i as int), y@.take(0)) == i) by {
                assert(y@.take(0).len() == 0);
            }
        }
        cur.push(i);
        let mut k: usize = 1;
        while k <= n
            invariant
                n == y@.len(),
                x@ == a@,
                y@ == b@,
                x@.len() < usize::MAX,
                n < usize::MAX,
                1 <= i <= x@.len(),
                1 <= k <= n + 1,
                prev@.len() == n + 1,
                cur@.len() == k,
                forall|m: int|
                    0 <= m <= n ==> #[trigger] prev@[m] == lev(x@.take(i - 1), y@.take(m)),
                forall|m: int| 0 <= m < k ==> #[trigger] cur@[m] == lev(x@.take(i as int), y@.take(m)),
            decreases n + 1 - k,
        {
            let ghost xa = x@.take(i as int);
            let ghost yb = y@.take(k as int);
            proof {
                assert(xa.drop_last() =~= x@.take(i - 1));
                assert(yb.drop_last() =~= y@.take(k - 1));
                assert(xa.last() == x@[i - 1]);
                assert(yb.last() == y@[k - 1]);
                lemma_lev_bound(x@.take(i - 1), y@.take(k as int));
                lemma_lev_bound(xa, y@.take(k - 1));
                lemma_lev_bound(x@.take(i - 1), y@.take(k - 1));
            }
            let cost: usize = if x[i - 1] == y[k - 1] {
                0
            } else {
                1
            };
            let d = min_usize(min_usize(prev[k] + 1, cur[k - 1] + 1), prev[k - 1] + cost);
            proof {
                assert(d == lev(xa, yb));
            }
            cur.push(d);
            k += 1;
        }
        prev = cur;
        i += 1;
    }
    proof {
        assert(x@.take(x@.len() as int) =~= x@);
        assert(y@.take(n as int) =~= y@);
    }
    prev[n]
}

/// A distance, counted up to 3.
pub open spec fn cap3(n: nat) -> nat {
    if n < 3 {
        n
    } else {
        3
    }
}

/// The edit distance of `x` and `y`, or 3 where it is 3 or more.
pub fn levenshtein_capped(x: &Vec<char>, y: &Vec<char>) -> (r: usize)
    ensures
        r == cap3(lev(x@, y@)),
{
    let n = y.len();
    let mut prev: Vec<usize> = Vec::new();
    prev.push(0);
    let mut j: usize = 0;
    proof {
        assert(y@.take(0).len() == 0);
    }
    while j < n
        invariant
            n == y@.len(),
            j <= n,
            prev@.len() == j + 1,
            forall|k: int| 0 <= k <= j ==> #[trigger] prev@[k] == cap3(lev(Seq::<char>::empty(), y@.take(k))),
        decreases n - j,
    {
        j += 1;
        let c: usize = if j < 3 {
            j
        } else {
            3
        };
        proof {
            assert(y@.take(j as int).len() == j);
        }
        prev.push(c);
    }
    let mut i: usize = 0;
    while i < x.len()
        invariant
            n == y@.len(),
            i <= x@.len(),
            prev@.len() == n + 1,
            forall|k: int|
                0 <= k <= n ==> #[trigger] prev@[k] == cap3(lev(x@.take(i as int), y@.take(k))),
        decreases x@.len() - i,
    {
        i += 1;
        let mut cur: Vec<usize> = Vec::new();
        let first: usize = if i < 3 {
            i
        } else {
            3
        };
        proof {
            assert(x@.take(i as int).len() == i);
            assert(lev(x@.take(i as int), y@.take(0)) == i) by {
                assert(y@.take(0).len() == 0);
            }
        }
        cur.push(first);
        let mut k: usize = 0;
        while k < n
            invariant
                n == y@.len(),
                1 <= i <= x@.len(),
                k <= n,
                prev@.len() == n + 1,
                cur@.len() == k + 1,
                forall|m: int|
                    0 <= m <= n ==> #[trigger] prev@[m] == cap3(lev(x@.take(i - 1), y@.take(m))),
                forall|m: int| 0 <= m <= k ==> #[trigger] cur@[m] == cap3(lev(x@.take(i as int), y@.take(m))),
            decreases n - k,
        {
            k += 1;
            let ghost xa = x@.take(i as int);
            let ghost yb = y@.take(k as int);
            proof {
                assert(xa.drop_last() =~= x@.take(i - 1));
                assert(yb.drop_last() =~= y@.take(k - 1));
                assert(xa.last() == x@[i - 1]);
                assert(yb.last() == y@[k - 1]);
            }
            let cost: usize = if x[i - 1] == y[k - 1] {
                0
            } else {
                1
            };
            let d0 = min_usize(min_usize(prev[k] + 1, cur[k - 1] + 1), prev[k - 1] + cost);
            let d = if d0 < 3 {
                d0
            } else {
                3
            };
            proof {
                assert(d == cap3(lev(xa, yb)));
            }
            cur.push(d);
        }
        prev = cur;
    }
    proof {
        assert(x@.take(x@.len() as int) =~= x@);
        assert(y@.take(n as int) =~= y@);
    }
    prev[n]
}

/// The functions that the compiler calls itself and a program may not.
pub open spec fn is_forbidden(n: Seq<char>) -> bool {
    n == "free"@ || n == "str_free"@ || n == "vec_free"@ || n == "file_close"@
}

/// The name without its leading `@` characters.
pub open spec fn trim_at(s: Seq<char>) -> Seq<char>
    decreases s.len(),
{
    if s.len() > 0 && s[0] == '@' {
        trim_at(s.drop_first())
    } else {
        s
    }
}

/// Where the last `::`-separated segment of `s` starts, the separators
/// found from the left without overlap; `start` is where the segment being
/// read began.
pub open spec fn seg_start(s: Seq<char>, i: int, start: int) -> int
    decreases s.len() - i,
{
    if i < 0 || i + 1 >= s.len() {
        start
    } else if s[i] == ':' && s[i + 1] == ':' {
        seg_start(s, i + 2, i + 2)
    } else {
        seg_start(s, i + 1, start)
    }
}

/// The last `::`-separated segment of a name.
pub open spec fn last_segment(s: Seq<char>) -> Seq<char> {
    s.skip(seg_start(s, 0, 0))
}

/// The closest known name within distance 2 of `t`, the earliest among
/// equally close ones, scanning `keys` from `i` with the best so far.
pub open spec fn best_from(
    keys: Seq<Seq<char>>,
    t: Seq<char>,
    i: int,
    best: Option<(Seq<char>, nat)>,
) -> Option<Seq<char>>
    decreases keys.len() - i,
{
    if i < 0 || i >= keys.len() {
        match best {
            Some(b) => Some(b.0),
            None => None,
        }
    } else {
        let d = lev(t, keys[i]);
        if d <= 2 && (best is None || d < best->Some_0.1) {
            best_from(keys, t, i + 1, Some((keys[i], d)))
        } else {
            best_from(keys, t, i + 1, best)
        }
    }
}

pub open spec fn forbidden_msg(n: Seq<char>) -> Seq<char> {
    quoted(
        "Compile Error: '"@,
        n,
        "' is managed automatically by the compiler. Linear types are freed at their spend points — do not call this directly."@,
    )
}

pub open spec fn suggestion_msg(n: Seq<char>, s: Seq<char>) -> Seq<char> {
    "Compile Error: Undefined function '"@ + n + "'. Did you mean '"@ + s + "'?"@
}

/// What the checker answers for a call of `name`, before its arguments: a
/// forbidden function is refused; an unknown one is refused when a known
/// name is close to it, and otherwise let through.
pub open spec fn call_answer(
    fns: Map<Seq<char>, Option<crate::ast::TypeV>>,
    keys: Seq<Seq<char>>,
    name: Seq<char>,
) -> Result<(), Seq<char>> {
    let clean = trim_at(name);
    let target = last_segment(clean);
    if is_forbidden(name) {
        Err(forbidden_msg(name))
    } else if fns.contains_key(name) || fns.contains_key(clean) || fns.contains_key(target) {
        Ok(())
    } else {
        match best_from(keys, target, 0, None) {
            Some(s) => Err(suggestion_msg(name, s)),
            None => Ok(()),
        }
    }
}

fn is_forbidden_exec(n: &String) -> (r: bool)
    ensures
        r == is_forbidden(n@),
{
    n.eq(&string_of("free")) || n.eq(&string_of("str_free")) || n.eq(&string_of("vec_free")) || n.eq(
        &string_of("file_close"),
    )
}

fn trim_at_exec(v: &Vec<char>) -> (r: usize)
    ensures
        r <= v@.len(),
        v@.skip(r as int) == trim_at(v@),
{
    let mut i: usize = 0;
    proof {
        assert(v@.skip(0) =~= v@);
    }
    while i < v.len() && v[i] == '@'
        invariant
            i <= v@.len(),
            trim_at(v@) == trim_at(v@.skip(i as int)),
        decreases v.len() - i,
    {
        proof {
            assert(v@.skip(i as int).drop_first() =~= v@.skip(i + 1));
        }
        i += 1;
    }
    proof {
        assert(v@.skip(i as int) == trim_at(v@.skip(i as int)));
    }
    i
}

fn seg_start_exec(v: &Vec<char>, from: usize) -> (r: usize)
    requires
        from <= v@.len(),
    ensures
        from <= r <= v@.len(),
        r == from + seg_start(v@.skip(from as int), 0, 0),
{
    let ghost s = v@.skip(from as int);
    let mut i: usize = from;
    let mut start: usize = from;
    while i < v.len() && i + 1 < v.len()
        invariant
            s == v@.skip(from as int),
            from <= start <= i,
            i <= v@.len() + 1,
            start <= v@.len(),
            seg_start(s, 0, 0) + from == seg_start(s, i - from, start - from) + from,
        decreases v.len() + 1 - i,
    {
        if v[i] == ':' && v[i + 1] == ':' {
            i = i + 2;
            start = i;
        } else {
            i = i + 1;
        }
    }
    proof {
        assert(seg_start(s, i - from, start - from) == start - from);
    }
    start
}

impl LinearChecker {
    /// Answers a call of `name` before its arguments are checked.
    pub fn check_call_name(&self, name: &String) -> (r: Result<(), String>)
        requires
            self.wf(),
        ensures
            match (r, call_answer(self.functions.view(), self.functions.key_seq(), name@)) {
                (Ok(_), Ok(_)) => true,
                (Err(m), Err(e)) => m@ == e,
                _ => false,
            },
    {
        if is_forbidden_exec(name) {
            let mut m = string_of("Compile Error: '");
            push_string(&mut m, name);
            push_str(
                &mut m,
                "' is managed automatically by the compiler. Linear types are freed at their spend points — do not call this directly.",
            );
            return Err(m);
        }
        let v = chars_of(name.as_str());
        let c = trim_at_exec(&v);
        let clean = string_from_chars(&v, c, v.len());
        let t = seg_start_exec(&v, c);
        proof {
            assert(v@.subrange(c as int, v@.len() as int) =~= v@.skip(c as int));
            assert(v@.skip(c as int).skip(t - c) =~= v@.skip(t as int));
        }
        let target = string_from_chars(&v, t, v.len());
        proof {
            assert(target@ =~= v@.skip(t as int));
        }
        if self.functions.contains_key(name.as_str()) || self.functions.contains_key(clean.as_str())
            || self.functions.contains_key(target.as_str()) {
            return Ok(());
        }
        let ghost keys = self.functions.key_seq();
        let tv = chars_of(target.as_str());
        let mut best: Option<String> = None;
        let mut best_d: usize = 0;
        let mut i: usize = 0;
        while i < self.functions.len()
            invariant
                self.wf(),
                keys == self.functions.key_seq(),
                i <= keys.len(),
                target@ == last_segment(trim_at(name@)),
                tv@ == target@,
                best is None ==> best_d == 0,
                best_d <= 2,
                best_from(keys, target@, 0, None) == best_from(
                    keys,
                    target@,
                    i as int,
                    match best {
                        Some(b) => Some((b@, best_d as nat)),
                        None => None,
                    },
                ),
            decreases keys.len() - i,
        {
            let cand = self.functions.key_at(i);
            let cv = chars_of(cand.as_str());
            let d = levenshtein_capped(&tv, &cv);
            if d <= 2 && (best.is_none() || d < best_d) {
                best = Some(cand.clone());
                best_d = d;
            }
            i += 1;
        }
        match best {
            Some(s) => {
                let mut m = string_of("Compile Error: Undefined function '");
                push_string(&mut m, name);
                push_str(&mut m, "'. Did you mean '");
                push_string(&mut m, &s);
                push_str(&mut m, "'?");
                proof {
                    assert(m@ =~= suggestion_msg(name@, s@));
                }
                Err(m)
            },
            None => Ok(()),
        }
    }
}

} // verus!
