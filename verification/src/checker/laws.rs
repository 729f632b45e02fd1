use vstd::prelude::*;
use crate::checker::{
    LinearChecker, VariableState, moved_registry, move_result, borrow_result, settle, reopened,
    spent_msg, frozen_msg, borrow_locked_msg, is_copy_type_spec,
};
use crate::ast::TypeV;
use crate::checker::flow::{first_conflict, first_loop_violation, state_or_spent};
use crate::checker::prov::{str_lt, str_lt_from, lower_bound, sorted_insert, sort_dedup, normalize};

verus! {

/// Moving an `Active` linear resource spends it, and every later read of it
/// is refused as a use-after-free.
pub proof fn law_move_then_use_after_free(reg: Map<Seq<char>, VariableState>, n: Seq<char>)
    requires
        reg.contains_key(n),
        reg[n] == VariableState::Active,
    ensures
        move_result(reg, n) == Ok::<(), Seq<char>>(()),
        moved_registry(reg, false, false, n)[n] == VariableState::Spent,
        move_result(moved_registry(reg, false, false, n), n) == Err::<(), Seq<char>>(spent_msg(n)),
{
}

/// The copy types are exactly the primitive integers (`u8`, `i8`, `i32`,
/// `u32`, `i64`, `u64`), `bool` and references.
pub proof fn law_copy_types(t: TypeV)
    ensures
        is_copy_type_spec(t) <==> (t is U8 || t is I8 || t is I32 || t is U32 || t is I64 || t is U64
            || t is Bool || t is Ref),
{
}

/// Reading an `Active` variable of a primitive integer type, `bool` or a
/// reference is accepted and never changes its state, so it can be read
/// again and again.
pub proof fn law_primitive_reads_copy(c: LinearChecker, n: Seq<char>)
    requires
        c.types.view().contains_key(n),
        ({
            let t = c.types.view()[n];
            t is U8 || t is I8 || t is I32 || t is U32 || t is I64 || t is U64 || t is Bool || t is Ref
        }),
        c.registry.view().contains_key(n),
        c.registry.view()[n] == VariableState::Active,
    ensures
        c.copy_var(n),
        forall|alias: bool|
            #![trigger moved_registry(c.registry.view(), c.copy_var(n), alias, n)]
            moved_registry(c.registry.view(), c.copy_var(n), alias, n) == c.registry.view(),
        move_result(c.registry.view(), n) == Ok::<(), Seq<char>>(()),
        forall|alias: bool|
            #![trigger moved_registry(c.registry.view(), c.copy_var(n), alias, n)]
            move_result(moved_registry(c.registry.view(), c.copy_var(n), alias, n), n) == Ok::<
                (),
                Seq<char>,
            >(()),
{
}

/// Reading a copy variable, or a lens alias, never changes its state.
pub proof fn law_copy_and_lens_reads_keep_state(
    reg: Map<Seq<char>, VariableState>,
    copy: bool,
    alias: bool,
    n: Seq<char>,
)
    requires
        copy || alias,
    ensures
        moved_registry(reg, copy, alias, n) == reg,
{
}

/// A refused read leaves every state as it was.
pub proof fn law_refused_read_changes_nothing(
    reg: Map<Seq<char>, VariableState>,
    copy: bool,
    alias: bool,
    n: Seq<char>,
)
    requires
        move_result(reg, n) is Err,
    ensures
        moved_registry(reg, copy, alias, n) == reg,
{
}

/// A `Locked` resource cannot be moved; one locked in a lens cannot be
/// borrowed either, while one frozen by borrows can be borrowed again
/// (shared borrows).
pub proof fn law_locked_is_frozen(reg: Map<Seq<char>, VariableState>, lensed: Set<Seq<char>>, n: Seq<char>)
    requires
        reg.contains_key(n),
        reg[n] == VariableState::Locked,
    ensures
        move_result(reg, n) == Err::<(), Seq<char>>(frozen_msg(n)),
        lensed.contains(n) ==> borrow_result(reg, lensed, n) == Err::<(), Seq<char>>(borrow_locked_msg(n)),
        !lensed.contains(n) ==> borrow_result(reg, lensed, n) == Ok::<(), Seq<char>>(()),
{
}

/// Bringing lock states up to date never revives a spent resource, and
/// keeps the set of variables.
pub proof fn law_settle_keeps_spent(
    reg: Map<Seq<char>, VariableState>,
    borrows: Map<Seq<char>, Seq<Seq<char>>>,
    locked: Set<Seq<char>>,
    n: Seq<char>,
)
    requires
        reg.contains_key(n),
        reg[n] == VariableState::Spent,
    ensures
        settle(reg, borrows, locked)[n] == VariableState::Spent,
        settle(reg, borrows, locked).dom() == reg.dom(),
{
}

/// A shared borrow freezes its target: while a reference that borrows `x` is
/// `Active`, an `Active` `x` becomes `Locked`.
pub proof fn law_borrow_freezes_target(
    reg: Map<Seq<char>, VariableState>,
    borrows: Map<Seq<char>, Seq<Seq<char>>>,
    locked: Set<Seq<char>>,
    r: Seq<char>,
    x: Seq<char>,
)
    requires
        reg.contains_key(r),
        reg[r] == VariableState::Active,
        borrows.contains_key(r),
        borrows[r].contains(x),
        reg.contains_key(x),
        reg[x] == VariableState::Active,
    ensures
        settle(reg, borrows, locked)[x] == VariableState::Locked,
{
    assert(borrows[r].contains(x));
}

/// The end of a borrow restores its target: a `Locked` resource that no lens
/// holds and no `Active` reference borrows becomes `Active` again.
pub proof fn law_borrow_end_restores_target(
    reg: Map<Seq<char>, VariableState>,
    borrows: Map<Seq<char>, Seq<Seq<char>>>,
    locked: Set<Seq<char>>,
    x: Seq<char>,
)
    requires
        reg.contains_key(x),
        reg[x] == VariableState::Locked,
        !locked.contains(x),
        forall|r: Seq<char>|
            borrows.contains_key(r) && #[trigger] borrows[r].contains(x) ==> !reg.contains_key(r)
                || reg[r] != VariableState::Active,
    ensures
        settle(reg, borrows, locked)[x] == VariableState::Active,
{
}

/// Opening a lens on an `Active` resource and closing it again gives back
/// the registry and the lens set, when the lock states were up to date.
pub proof fn law_lens_round_trip(
    reg: Map<Seq<char>, VariableState>,
    borrows: Map<Seq<char>, Seq<Seq<char>>>,
    locked: Set<Seq<char>>,
    n: Seq<char>,
)
    requires
        settle(reg, borrows, locked) == reg,
        reg.contains_key(n),
        reg[n] == VariableState::Active,
        !locked.contains(n),
    ensures
        locked.insert(n).remove(n) == locked,
        settle(reopened(reg.insert(n, VariableState::Locked), n), borrows, locked.insert(n).remove(n))
            == reg,
{
    assert(locked.insert(n).remove(n) =~= locked);
    assert(reg.insert(n, VariableState::Locked).insert(n, VariableState::Active) =~= reg);
}

/// Branches join only when they agree: if no variable from before an `if`
/// ends its branches in different states, every one of them ends both in
/// the same state; where one does not, the first such is reported.
pub proof fn law_join_needs_agreement(
    keys: Seq<Seq<char>>,
    t: Map<Seq<char>, VariableState>,
    e: Map<Seq<char>, VariableState>,
)
    ensures
        first_conflict(keys, t, e, 0) == keys.len() ==> forall|i: int|
            0 <= i < keys.len() ==> state_or_spent(t, #[trigger] keys[i]) == state_or_spent(e, keys[i]),
        first_conflict(keys, t, e, 0) < keys.len() ==> {
            let j = first_conflict(keys, t, e, 0);
            &&& 0 <= j
            &&& state_or_spent(t, keys[j]) != state_or_spent(e, keys[j])
            &&& forall|i: int| 0 <= i < j ==> state_or_spent(t, #[trigger] keys[i]) == state_or_spent(e, keys[i])
        },
{
    lemma_conflict_from(keys, t, e, 0);
}

proof fn lemma_conflict_from(
    keys: Seq<Seq<char>>,
    t: Map<Seq<char>, VariableState>,
    e: Map<Seq<char>, VariableState>,
    k: int,
)
    requires
        0 <= k <= keys.len(),
    ensures
        k <= first_conflict(keys, t, e, k) <= keys.len(),
        forall|i: int|
            k <= i < first_conflict(keys, t, e, k) ==> state_or_spent(t, #[trigger] keys[i]) == state_or_spent(
                e,
                keys[i],
            ),
        first_conflict(keys, t, e, k) < keys.len() ==> state_or_spent(t, keys[first_conflict(keys, t, e, k)])
            != state_or_spent(e, keys[first_conflict(keys, t, e, k)]),
    decreases keys.len() - k,
{
    if k < keys.len() && state_or_spent(t, keys[k]) == state_or_spent(e, keys[k]) {
        lemma_conflict_from(keys, t, e, k + 1);
    }
}

/// A loop is accepted only when its body spends no linear resource that
/// was `Active` before it: where none is reported, every variable that was
/// `Active` before the loop and is not a copy is not `Spent` after the body.
pub proof fn law_loop_spends_nothing_from_outside(
    keys: Seq<Seq<char>>,
    pre: Map<Seq<char>, VariableState>,
    c: LinearChecker,
)
    ensures
        first_loop_violation(keys, pre, c, 0) == keys.len() ==> forall|i: int|
            0 <= i < keys.len() && pre[#[trigger] keys[i]] == VariableState::Active && !c.copy_var(keys[i])
                ==> !(c.registry.view().contains_key(keys[i]) && c.registry.view()[keys[i]]
                == VariableState::Spent),
{
    lemma_violation_from(keys, pre, c, 0);
}

proof fn lemma_violation_from(keys: Seq<Seq<char>>, pre: Map<Seq<char>, VariableState>, c: LinearChecker, k: int)
    requires
        0 <= k <= keys.len(),
    ensures
        k <= first_loop_violation(keys, pre, c, k) <= keys.len(),
        forall|i: int|
            k <= i < first_loop_violation(keys, pre, c, k) && pre[#[trigger] keys[i]] == VariableState::Active
                && !c.copy_var(keys[i]) ==> !(c.registry.view().contains_key(keys[i])
                && c.registry.view()[keys[i]] == VariableState::Spent),
    decreases keys.len() - k,
{
    if k < keys.len() && !(pre[keys[k]] == VariableState::Active && !c.copy_var(keys[k])
        && c.registry.view().contains_key(keys[k]) && c.registry.view()[keys[k]] == VariableState::Spent) {
        lemma_violation_from(keys, pre, c, k + 1);
    }
}

/// Each name comes strictly before the next.
pub open spec fn strictly_sorted(s: Seq<Seq<char>>) -> bool {
    forall|i: int, j: int| 0 <= i < j < s.len() ==> str_lt(#[trigger] s[i], #[trigger] s[j])
}

pub(crate) proof fn lemma_lt_irreflexive(a: Seq<char>, i: int)
    requires
        0 <= i,
    ensures
        !str_lt_from(a, a, i),
    decreases a.len() - i,
{
    if i < a.len() {
        lemma_lt_irreflexive(a, i + 1);
    }
}

pub(crate) proof fn lemma_lt_transitive(a: Seq<char>, b: Seq<char>, c: Seq<char>, i: int)
    requires
        0 <= i,
        str_lt_from(a, b, i),
        str_lt_from(b, c, i),
    ensures
        str_lt_from(a, c, i),
    decreases a.len() - i,
{
    if i < a.len() && i < b.len() && i < c.len() && a[i] == b[i] && b[i] == c[i] {
        lemma_lt_transitive(a, b, c, i + 1);
    }
}

proof fn lemma_lt_total(a: Seq<char>, b: Seq<char>, i: int)
    requires
        0 <= i <= a.len(),
        i <= b.len(),
        forall|j: int| 0 <= j < i ==> a[j] == b[j],
        a != b,
    ensures
        str_lt_from(a, b, i) || str_lt_from(b, a, i),
    decreases a.len() - i,
{
    if i == a.len() && i == b.len() {
        assert(a =~= b);
    } else if i < a.len() && i < b.len() {
        if a[i] == b[i] {
            lemma_lt_total(a, b, i + 1);
        } else {
            assert(a[i] < b[i] || b[i] < a[i]);
        }
    }
}

proof fn lemma_lower_bound(s: Seq<Seq<char>>, x: Seq<char>, k: int)
    requires
        0 <= k <= s.len(),
    ensures
        k <= lower_bound(s, x, k) <= s.len(),
        forall|j: int| k <= j < lower_bound(s, x, k) ==> str_lt(#[trigger] s[j], x),
        lower_bound(s, x, k) < s.len() ==> !str_lt(s[lower_bound(s, x, k)], x),
    decreases s.len() - k,
{
    if k < s.len() && str_lt(s[k], x) {
        lemma_lower_bound(s, x, k + 1);
    }
}

proof fn lemma_sorted_insert(s: Seq<Seq<char>>, x: Seq<char>)
    requires
        strictly_sorted(s),
    ensures
        strictly_sorted(sorted_insert(s, x)),
        sorted_insert(s, x).to_set() == s.to_set().insert(x),
{
    let i = lower_bound(s, x, 0);
    lemma_lower_bound(s, x, 0);
    if i < s.len() && s[i] == x {
        assert(s.to_set().insert(x) =~= s.to_set()) by {
            assert(s.contains(x));
        }
    } else {
        let r = s.insert(i, x);
        if i < s.len() {
            lemma_lt_total(x, s[i], 0);
        }
        assert forall|p: int, q: int| 0 <= p < q < r.len() implies str_lt(#[trigger] r[p], #[trigger] r[q]) by {
            if q < i {
                assert(r[p] == s[p] && r[q] == s[q]);
            } else if q == i {
                assert(r[p] == s[p]);
            } else if p == i {
                assert(r[q] == s[q - 1]);
                if q - 1 > i {
                    lemma_lt_transitive(x, s[i], s[q - 1], 0);
                }
            } else if p < i {
                assert(r[p] == s[p] && r[q] == s[q - 1]);
            } else {
                assert(r[p] == s[p - 1] && r[q] == s[q - 1]);
            }
        }
        assert forall|y: Seq<char>| #[trigger] r.to_set().contains(y) == s.to_set().insert(x).contains(y) by {
            if r.contains(y) {
                let k = choose|k: int| 0 <= k < r.len() && r[k] == y;
                if k < i {
                    assert(s[k] == y);
                } else if k > i {
                    assert(s[k - 1] == y);
                }
            }
            if s.contains(y) {
                let k = choose|k: int| 0 <= k < s.len() && s[k] == y;
                if k < i {
                    assert(r[k] == y);
                } else {
                    assert(r[k + 1] == y);
                }
            }
            if y == x {
                assert(r[i] == y);
            }
        }
        assert(r.to_set() =~= s.to_set().insert(x));
    }
}

/// The provenance of a reference, when it names more than one variable, is
/// sorted and freed of duplicates: each name comes strictly before the
/// next, and the names are exactly those collected.
pub proof fn law_provenance_is_sorted_without_duplicates(p: Seq<Seq<char>>)
    ensures
        strictly_sorted(sort_dedup(p)),
        sort_dedup(p).to_set() == p.to_set(),
        p.len() > 1 ==> normalize(p) == sort_dedup(p),
        p.len() <= 1 ==> normalize(p) == p,
    decreases p.len(),
{
    if p.len() == 0 {
        assert(p.to_set() =~= Set::<Seq<char>>::empty());
        assert(sort_dedup(p).to_set() =~= Set::<Seq<char>>::empty());
    } else {
        law_provenance_is_sorted_without_duplicates(p.drop_last());
        lemma_sorted_insert(sort_dedup(p.drop_last()), p.last());
        assert(p.to_set() =~= p.drop_last().to_set().insert(p.last())) by {
            assert forall|y: Seq<char>| #[trigger] p.to_set().contains(y) == p.drop_last().to_set().insert(p.last()).contains(y) by {
                if p.contains(y) {
                    let k = choose|k: int| 0 <= k < p.len() && p[k] == y;
                    if k < p.len() - 1 {
                        assert(p.drop_last()[k] == y);
                    }
                }
                if p.drop_last().contains(y) {
                    let k = choose|k: int| 0 <= k < p.drop_last().len() && p.drop_last()[k] == y;
                    assert(p[k] == y);
                }
                if y == p.last() {
                    assert(p[p.len() - 1] == y);
                }
            }
        }
    }
}

/// A strictly sorted list names no variable twice.
pub proof fn law_sorted_names_are_distinct(s: Seq<Seq<char>>)
    requires
        strictly_sorted(s),
    ensures
        s.no_duplicates(),
{
    assert forall|i: int, j: int| 0 <= i < s.len() && 0 <= j < s.len() && i != j implies s[i] != s[j] by {
        lemma_lt_irreflexive(s[i], 0);
        if i < j {
            assert(str_lt(s[i], s[j]));
        } else {
            assert(str_lt(s[j], s[i]));
        }
    }
}

} // verus!
