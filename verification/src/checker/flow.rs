use vstd::prelude::*;
use crate::ast::{TrackType, TypeV};
use crate::checker::{LinearChecker, VariableState, state_text, push_state};
use crate::collections::{StrMap, DeepCopy};
use crate::text::{string_of, push_str, push_string};

verus! {

/// The state of `k` in `m`, `Spent` where `m` has none.
pub open spec fn state_or_spent(m: Map<Seq<char>, VariableState>, k: Seq<char>) -> VariableState {
    if m.contains_key(k) {
        m[k]
    } else {
        VariableState::Spent
    }
}

/// The first position from `i` on whose variable ends the two branches in
/// different states; the length where there is none.
pub open spec fn first_conflict(
    keys: Seq<Seq<char>>,
    t: Map<Seq<char>, VariableState>,
    e: Map<Seq<char>, VariableState>,
    i: int,
) -> int
    decreases keys.len() - i,
{
    if i < 0 || i >= keys.len() {
        keys.len() as int
    } else if state_or_spent(t, keys[i]) != state_or_spent(e, keys[i]) {
        i
    } else {
        first_conflict(keys, t, e, i + 1)
    }
}

pub open spec fn inconsistent_msg(n: Seq<char>, ts: VariableState, es: VariableState) -> Seq<char> {
    "Compile Error: Resource '"@ + n + "' has inconsistent state after if/else. Then branch: "@
        + state_text(ts) + ", Else branch: "@ + state_text(es)
}

/// The registry after the branches join: each variable from before the `if`
/// with its state at the end of the branches.
pub open spec fn merged_states(
    pre: Map<Seq<char>, VariableState>,
    t: Map<Seq<char>, VariableState>,
) -> Map<Seq<char>, VariableState> {
    Map::new(|k: Seq<char>| pre.contains_key(k), |k: Seq<char>| state_or_spent(t, k))
}

/// The types after the branches join: those from before the `if`, of the
/// variables from before it.
pub open spec fn merged_types(
    pre: Map<Seq<char>, VariableState>,
    ty: Map<Seq<char>, TypeV>,
) -> Map<Seq<char>, TypeV> {
    Map::new(|k: Seq<char>| pre.contains_key(k) && ty.contains_key(k), |k: Seq<char>| ty[k])
}

/// The borrows after the branches join: for each variable from before the
/// `if`, those at the end of the first branch, else of the second.
pub open spec fn merged_borrows(
    pre: Map<Seq<char>, VariableState>,
    tb: Map<Seq<char>, Seq<Seq<char>>>,
    eb: Map<Seq<char>, Seq<Seq<char>>>,
) -> Map<Seq<char>, Seq<Seq<char>>> {
    Map::new(
        |k: Seq<char>| pre.contains_key(k) && (tb.contains_key(k) || eb.contains_key(k)),
        |k: Seq<char>|
            if tb.contains_key(k) {
                tb[k]
            } else {
                eb[k]
            },
    )
}

fn state_or_spent_exec(m: &StrMap<VariableState>, k: &str) -> (r: VariableState)
    requires
        m.wf(),
    ensures
        r == state_or_spent(m.view(), k@),
{
    match m.get(k) {
        Some(s) => *s,
        None => VariableState::Spent,
    }
}

/// Joins the two branches of an `if`: every variable from before it must
/// end both branches in the same state.
pub fn merge_branches(
    pre: &StrMap<VariableState>,
    pre_types: &StrMap<TrackType>,
    then_end: &StrMap<VariableState>,
    else_end: &StrMap<VariableState>,
    then_borrows: &StrMap<Vec<String>>,
    else_borrows: &StrMap<Vec<String>>,
) -> (r: Result<(StrMap<VariableState>, StrMap<TrackType>, StrMap<Vec<String>>), String>)
    requires
        pre.wf(),
        pre_types.wf(),
        then_end.wf(),
        else_end.wf(),
        then_borrows.wf(),
        else_borrows.wf(),
    ensures
        ({
            let keys = pre.key_seq();
            let j = first_conflict(keys, then_end.view(), else_end.view(), 0);
            if j < keys.len() {
                r is Err && r->Err_0@ == inconsistent_msg(
                    keys[j],
                    state_or_spent(then_end.view(), keys[j]),
                    state_or_spent(else_end.view(), keys[j]),
                )
            } else {
                &&& r is Ok
                &&& r->Ok_0.0.wf()
                &&& r->Ok_0.1.wf()
                &&& r->Ok_0.2.wf()
                &&& r->Ok_0.0.view() == merged_states(pre.view(), then_end.view())
                &&& r->Ok_0.1.view() == merged_types(pre.view(), pre_types.view())
                &&& r->Ok_0.2.view() == merged_borrows(
                    pre.view(),
                    then_borrows.view(),
                    else_borrows.view(),
                )
            }
        }),
{
    let ghost keys = pre.key_seq();
    let ghost tv = then_end.view();
    let ghost ev = else_end.view();
    proof {
        pre.lemma_keys();
    }
    let mut merged: StrMap<VariableState> = StrMap::new();
    let mut types: StrMap<TrackType> = StrMap::new();
    let mut borrows: StrMap<Vec<String>> = StrMap::new();
    let mut i: usize = 0;
    while i < pre.len()
        invariant
            pre.wf(),
            pre_types.wf(),
            then_end.wf(),
            else_end.wf(),
            then_borrows.wf(),
            else_borrows.wf(),
            keys == pre.key_seq(),
            tv == then_end.view(),
            ev == else_end.view(),
            keys.no_duplicates(),
            forall|k: Seq<char>| #[trigger] pre.view().contains_key(k) <==> keys.contains(k),
            i <= keys.len(),
            first_conflict(keys, tv, ev, 0) == first_conflict(keys, tv, ev, i as int),
            merged.wf(),
            types.wf(),
            borrows.wf(),
            merged.view() == Map::new(
                |k: Seq<char>| keys.take(i as int).contains(k),
                |k: Seq<char>| state_or_spent(tv, k),
            ),
            types.view() == Map::new(
                |k: Seq<char>| keys.take(i as int).contains(k) && pre_types.view().contains_key(k),
                |k: Seq<char>| pre_types.view()[k],
            ),
            borrows.view() == Map::new(
                |k: Seq<char>|
                    keys.take(i as int).contains(k) && (then_borrows.view().contains_key(k)
                        || else_borrows.view().contains_key(k)),
                |k: Seq<char>|
                    if then_borrows.view().contains_key(k) {
                        then_borrows.view()[k]
                    } else {
                        else_borrows.view()[k]
                    },
            ),
        decreases keys.len() - i,
    {
        let name = pre.key_at(i);
        let then_s = state_or_spent_exec(then_end, name.as_str());
        let else_s = state_or_spent_exec(else_end, name.as_str());
        if then_s != else_s {
            let mut m = string_of("Compile Error: Resource '");
            push_string(&mut m, name);
            push_str(&mut m, "' has inconsistent state after if/else. Then branch: ");
            push_state(&mut m, then_s);
            push_str(&mut m, ", Else branch: ");
            push_state(&mut m, else_s);
            proof {
                assert(m@ =~= inconsistent_msg(name@, then_s, else_s));
            }
            return Err(m);
        }
        let ghost kv = name@;
        let ghost ii = i as int;
        proof {
            assert(keys.take(ii + 1) =~= keys.take(ii).push(kv));
            lemma_take_contains(keys, ii);
        }
        merged.insert(name.clone(), then_s);
        match pre_types.get(name.as_str()) {
            Some(ty) => {
                types.insert(name.clone(), ty.copy());
            },
            None => {},
        }
        match then_borrows.get(name.as_str()) {
            Some(b) => {
                borrows.insert(name.clone(), b.deep_copy());
            },
            None => match else_borrows.get(name.as_str()) {
                Some(b) => {
                    borrows.insert(name.clone(), b.deep_copy());
                },
                None => {},
            },
        }
        proof {
            assert(merged.view() =~= Map::new(
                |k: Seq<char>| keys.take(ii + 1).contains(k),
                |k: Seq<char>| state_or_spent(tv, k),
            ));
            assert(types.view() =~= Map::new(
                |k: Seq<char>| keys.take(ii + 1).contains(k) && pre_types.view().contains_key(k),
                |k: Seq<char>| pre_types.view()[k],
            ));
            assert(borrows.view() =~= Map::new(
                |k: Seq<char>|
                    keys.take(ii + 1).contains(k) && (then_borrows.view().contains_key(k)
                        || else_borrows.view().contains_key(k)),
                |k: Seq<char>|
                    if then_borrows.view().contains_key(k) {
                        then_borrows.view()[k]
                    } else {
                        else_borrows.view()[k]
                    },
            ));
        }
        i += 1;
    }
    proof {
        assert(keys.take(keys.len() as int) =~= keys);
        assert(merged.view() =~= merged_states(pre.view(), tv));
        assert(types.view() =~= merged_types(pre.view(), pre_types.view()));
        assert(borrows.view() =~= merged_borrows(pre.view(), then_borrows.view(), else_borrows.view()));
    }
    Ok((merged, types, borrows))
}

/// The first position from `i` on whose variable was an `Active` linear
/// resource before a loop and is `Spent` after its body; the length where
/// there is none.
pub open spec fn first_loop_violation(
    keys: Seq<Seq<char>>,
    pre: Map<Seq<char>, VariableState>,
    c: LinearChecker,
    i: int,
) -> int
    decreases keys.len() - i,
{
    if i < 0 || i >= keys.len() {
        keys.len() as int
    } else if pre[keys[i]] == VariableState::Active && !c.copy_var(keys[i])
        && c.registry.view().contains_key(keys[i]) && c.registry.view()[keys[i]]
        == VariableState::Spent {
        i
    } else {
        first_loop_violation(keys, pre, c, i + 1)
    }
}

/// The first `i + 1` names hold those of the first `i` and the `i`-th.
pub proof fn lemma_take_contains(keys: Seq<Seq<char>>, i: int)
    requires
        0 <= i < keys.len(),
    ensures
        forall|k: Seq<char>|
            #[trigger] keys.take(i + 1).contains(k) <==> (keys.take(i).contains(k) || k == keys[i]),
{
    let a = keys.take(i);
    let b = keys.take(i + 1);
    assert forall|k: Seq<char>| #[trigger] b.contains(k) <==> (a.contains(k) || k == keys[i]) by {
        if b.contains(k) {
            let m = choose|m: int| 0 <= m < b.len() && b[m] == k;
            if m < i {
                assert(a[m] == k);
            }
        }
        if a.contains(k) {
            let m = choose|m: int| 0 <= m < a.len() && a[m] == k;
            assert(b[m] == k);
        }
        if k == keys[i] {
            assert(b[i] == k);
        }
    }
}

impl LinearChecker {
    /// The first variable that was an `Active` linear resource in `pre`,
    /// before a loop, and is `Spent` now, after its body.
    pub fn loop_violation(&self, pre: &StrMap<VariableState>) -> (r: Option<String>)
        requires
            self.wf(),
            pre.wf(),
        ensures
            ({
                let keys = pre.key_seq();
                let j = first_loop_violation(keys, pre.view(), *self, 0);
                if j < keys.len() {
                    r is Some && r->Some_0@ == keys[j]
                } else {
                    r is None
                }
            }),
    {
        let ghost keys = pre.key_seq();
        proof {
            pre.lemma_keys();
        }
        let mut i: usize = 0;
        while i < pre.len()
            invariant
                self.wf(),
                pre.wf(),
                keys == pre.key_seq(),
                forall|j: int| 0 <= j < keys.len() ==> #[trigger] pre.view().contains_key(keys[j]),
                i <= keys.len(),
                first_loop_violation(keys, pre.view(), *self, 0) == first_loop_violation(
                    keys,
                    pre.view(),
                    *self,
                    i as int,
                ),
            decreases keys.len() - i,
        {
            let name = pre.key_at(i);
            proof {
                assert(pre.view().contains_key(keys[i as int]));
            }
            let was_active = *pre.value_at(i) == VariableState::Active;
            if was_active && !self.is_copy_var(name.as_str()) {
                let spent = match self.registry.get(name.as_str()) {
                    Some(VariableState::Spent) => true,
                    _ => false,
                };
                if spent {
                    return Some(name.clone());
                }
            }
            i += 1;
        }
        None
    }
}

} // verus!
