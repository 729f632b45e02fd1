use vstd::prelude::*;
use crate::ast::{TrackType, TypeV};
use crate::collections::{DeepCopy, StrMap, StrSet};
use crate::text::{has_double_colon, contains_double_colon, string_of, push_str};

verus! {

/// The ownership state of a variable.
#[derive(Debug, Clone, Copy, PartialEq, Eq, Structural)]
pub enum VariableState {
    Active,
    Locked,
    Spent,
}

impl DeepView for VariableState {
    type V = VariableState;

    open spec fn deep_view(&self) -> VariableState {
        *self
    }
}

impl DeepCopy for VariableState {
    fn deep_copy(&self) -> (r: VariableState) {
        *self
    }
}

impl DeepView for TrackType {
    type V = TypeV;

    open spec fn deep_view(&self) -> TypeV {
        self@
    }
}

impl DeepCopy for TrackType {
    fn deep_copy(&self) -> (r: TrackType) {
        self.copy()
    }
}

/// The state names as the `{:?}` format writes them.
pub open spec fn state_text(s: VariableState) -> Seq<char> {
    match s {
        VariableState::Active => "Active"@,
        VariableState::Locked => "Locked"@,
        VariableState::Spent => "Spent"@,
    }
}

/// Appends the name of a state.
pub fn push_state(out: &mut String, s: VariableState)
    ensures
        final(out)@ == old(out)@ + state_text(s),
{
    match s {
        VariableState::Active => push_str(out, "Active"),
        VariableState::Locked => push_str(out, "Locked"),
        VariableState::Spent => push_str(out, "Spent"),
    }
}

/// Types whose values are copied rather than moved.
pub open spec fn is_copy_type_spec(t: TypeV) -> bool {
    match t {
        TypeV::U8 | TypeV::I8 | TypeV::I32 | TypeV::U32 | TypeV::I64 | TypeV::U64 | TypeV::Bool
        | TypeV::Ref(_) => true,
        _ => false,
    }
}

/// Whether values of the type are copied rather than moved.
pub fn is_copy_type(ty: &TrackType) -> (r: bool)
    ensures
        r == is_copy_type_spec(ty@),
{
    match ty {
        TrackType::U8 | TrackType::I8 | TrackType::I32 | TrackType::U32 | TrackType::I64
        | TrackType::U64 | TrackType::Bool | TrackType::Ref(_) => true,
        _ => false,
    }
}

/// `prefix`, the name, then `suffix`.
pub open spec fn quoted(prefix: Seq<char>, name: Seq<char>, suffix: Seq<char>) -> Seq<char> {
    prefix + name + suffix
}

/// Builds `prefix`, the name, then `suffix`.
pub fn quote(prefix: &str, name: &str, suffix: &str) -> (r: String)
    ensures
        r@ == quoted(prefix@, name@, suffix@),
{
    let mut m = string_of(prefix);
    push_str(&mut m, name);
    push_str(&mut m, suffix);
    m
}

pub open spec fn spent_msg(n: Seq<char>) -> Seq<char> {
    quoted("Compile Error: Use-after-free! Resource '"@, n, "' is already spent."@)
}

pub open spec fn frozen_msg(n: Seq<char>) -> Seq<char> {
    quoted("Compile Error: Resource '"@, n, "' is frozen (either locked in a lens or borrowed)."@)
}

pub open spec fn undeclared_msg(n: Seq<char>) -> Seq<char> {
    quoted("Compile Error: Undeclared variable '"@, n, "'."@)
}

pub open spec fn lens_inactive_msg(n: Seq<char>) -> Seq<char> {
    quoted("Compile Error: Cannot create lens. '"@, n, "' is not Active."@)
}

pub open spec fn borrow_spent_msg(n: Seq<char>) -> Seq<char> {
    quoted("Compile Error: Cannot borrow spent resource '"@, n, "'."@)
}

pub open spec fn borrow_locked_msg(n: Seq<char>) -> Seq<char> {
    quoted("Compile Error: Cannot borrow locked resource '"@, n, "'."@)
}

/// The registry after a read of `n`: a linear, non-lens resource that is
/// `Active` becomes `Spent`; nothing else changes.
pub open spec fn moved_registry(
    reg: Map<Seq<char>, VariableState>,
    copy: bool,
    alias: bool,
    n: Seq<char>,
) -> Map<Seq<char>, VariableState> {
    if reg.contains_key(n) && reg[n] == VariableState::Active && !copy && !alias {
        reg.insert(n, VariableState::Spent)
    } else {
        reg
    }
}

/// What a read of `n` answers, by the state of `n` before it.
pub open spec fn move_result(reg: Map<Seq<char>, VariableState>, n: Seq<char>) -> Result<
    (),
    Seq<char>,
> {
    if !reg.contains_key(n) {
        Err(undeclared_msg(n))
    } else {
        match reg[n] {
            VariableState::Spent => Err(spent_msg(n)),
            VariableState::Locked => Err(frozen_msg(n)),
            VariableState::Active => Ok(()),
        }
    }
}

/// What a borrow of the variable `n` answers, by the state of `n`.
pub open spec fn borrow_result(reg: Map<Seq<char>, VariableState>, lensed: Set<Seq<char>>, n: Seq<char>) -> Result<
    (),
    Seq<char>,
> {
    if !reg.contains_key(n) {
        Err(undeclared_msg(n))
    } else {
        match reg[n] {
            VariableState::Spent => Err(borrow_spent_msg(n)),
            VariableState::Locked => if lensed.contains(n) {
                Err(borrow_locked_msg(n))
            } else {
                Ok(())
            },
            VariableState::Active => Ok(()),
        }
    }
}

/// `n` is borrowed by a reference variable that is itself `Active`.
pub open spec fn borrowed_by_active(
    reg: Map<Seq<char>, VariableState>,
    borrows: Map<Seq<char>, Seq<Seq<char>>>,
    n: Seq<char>,
) -> bool {
    exists|r: Seq<char>|
        #![trigger borrows[r].contains(n)]
        borrows.contains_key(r) && reg.contains_key(r) && reg[r] == VariableState::Active
            && borrows[r].contains(n)
}

/// `n` is frozen: locked by a lens or borrowed by an active reference.
pub open spec fn frozen(
    reg: Map<Seq<char>, VariableState>,
    borrows: Map<Seq<char>, Seq<Seq<char>>>,
    locked: Set<Seq<char>>,
    n: Seq<char>,
) -> bool {
    locked.contains(n) || borrowed_by_active(reg, borrows, n)
}

/// The registry after the lock states are brought up to date: frozen `Active`
/// variables become `Locked`, `Locked` variables that are no longer frozen
/// become `Active`; `Spent` stays.
pub open spec fn settle(
    reg: Map<Seq<char>, VariableState>,
    borrows: Map<Seq<char>, Seq<Seq<char>>>,
    locked: Set<Seq<char>>,
) -> Map<Seq<char>, VariableState> {
    Map::new(
        |k: Seq<char>| reg.contains_key(k),
        |k: Seq<char>|
            if frozen(reg, borrows, locked, k) && reg[k] == VariableState::Active {
                VariableState::Locked
            } else if !frozen(reg, borrows, locked, k) && reg[k] == VariableState::Locked {
                VariableState::Active
            } else {
                reg[k]
            },
    )
}

/// The registry after a lens on `n` closes, before the lock states are
/// brought up to date.
pub open spec fn reopened(reg: Map<Seq<char>, VariableState>, n: Seq<char>) -> Map<
    Seq<char>,
    VariableState,
> {
    if reg.contains_key(n) && reg[n] == VariableState::Locked {
        reg.insert(n, VariableState::Active)
    } else {
        reg
    }
}

/// The linear ownership checker: the state of every variable, the known types
/// and functions, borrows and lenses.
pub struct LinearChecker {
    pub registry: StrMap<VariableState>,
    pub types: StrMap<TrackType>,
    pub functions: StrMap<Option<TrackType>>,
    pub borrows: StrMap<Vec<String>>,
    pub lens_locked: StrSet,
    pub lens_aliases: StrSet,
    pub mutables: StrSet,
    pub unions: StrMap<Vec<(String, Option<TrackType>)>>,
    pub type_aliases: StrMap<TrackType>,
    pub current_params: StrSet,
    pub current_return_type: Option<TrackType>,
    pub barebones: bool,
    pub loaded_modules: StrSet,
    /// The sources of local modules that imports may load, by file path.
    pub modules: StrMap<String>,
}

/// A checker with every table empty but the known modules `mods`.
pub open spec fn fresh_with(c: LinearChecker, barebones: bool, mods: Map<Seq<char>, Seq<char>>) -> bool {
    &&& c.wf()
    &&& c.barebones == barebones
    &&& c.registry.view() == Map::<Seq<char>, VariableState>::empty()
    &&& c.types.view() == Map::<Seq<char>, TypeV>::empty()
    &&& c.functions.view() == Map::<Seq<char>, Option<TypeV>>::empty()
    &&& c.borrows.view() == Map::<Seq<char>, Seq<Seq<char>>>::empty()
    &&& c.lens_locked.view() == Set::<Seq<char>>::empty()
    &&& c.lens_aliases.view() == Set::<Seq<char>>::empty()
    &&& c.mutables.view() == Set::<Seq<char>>::empty()
    &&& c.unions.view().dom() == Set::<Seq<char>>::empty()
    &&& c.type_aliases.view() == Map::<Seq<char>, TypeV>::empty()
    &&& c.current_params.view() == Set::<Seq<char>>::empty()
    &&& c.current_return_type is None
    &&& c.loaded_modules.view() == Set::<Seq<char>>::empty()
    &&& c.modules.view() == mods
}

impl LinearChecker {
    /// Every table is well formed, and each loaded module is a known one.
    pub open spec fn wf(&self) -> bool {
        &&& self.registry.wf()
        &&& self.types.wf()
        &&& self.functions.wf()
        &&& self.borrows.wf()
        &&& self.lens_locked.wf()
        &&& self.lens_aliases.wf()
        &&& self.mutables.wf()
        &&& self.unions.wf()
        &&& self.type_aliases.wf()
        &&& self.current_params.wf()
        &&& self.loaded_modules.wf()
        &&& self.modules.wf()
        &&& self.loaded_modules.view().subset_of(self.modules.view().dom())
    }

    /// The number of known modules not loaded yet.
    pub open spec fn unloaded(&self) -> int {
        self.modules.view().dom().len() - self.loaded_modules.view().len()
    }

    /// The registry with its lock states brought up to date.
    pub open spec fn settled(&self) -> Map<Seq<char>, VariableState> {
        settle(self.registry.view(), self.borrows.view(), self.lens_locked.view())
    }

    /// Whether reading the name copies rather than moves.
    pub open spec fn copy_var(&self, n: Seq<char>) -> bool {
        has_double_colon(n) || (self.types.view().contains_key(n) && is_copy_type_spec(
            self.types.view()[n],
        ))
    }

    /// All fields but the registry are those of `o`.
    pub open spec fn same_but_registry(&self, o: &Self) -> bool {
        &&& self.types == o.types
        &&& self.functions == o.functions
        &&& self.borrows == o.borrows
        &&& self.lens_locked == o.lens_locked
        &&& self.lens_aliases == o.lens_aliases
        &&& self.mutables == o.mutables
        &&& self.unions == o.unions
        &&& self.type_aliases == o.type_aliases
        &&& self.current_params == o.current_params
        &&& self.current_return_type == o.current_return_type
        &&& self.barebones == o.barebones
        &&& self.loaded_modules == o.loaded_modules
        &&& self.modules == o.modules
    }

    /// The unloaded count is a natural number.
    pub proof fn lemma_unloaded(&self)
        requires
            self.wf(),
        ensures
            self.unloaded() >= 0,
            self.loaded_modules.view().finite(),
            self.modules.view().dom().finite(),
    {
        self.modules.lemma_keys();
        self.loaded_modules.lemma_len();
        vstd::set_lib::lemma_len_subset(self.loaded_modules.view(), self.modules.view().dom());
    }

    /// A checker with no built-in functions.
    pub fn new_barebones() -> (c: Self)
        ensures
            fresh_with(c, true, Map::empty()),
    {
        let mut c = Self::new();
        c.barebones = true;
        c.functions.clear();
        c
    }

    /// A checker with empty tables; the built-in functions are added when a
    /// program is checked.
    pub fn new() -> (c: Self)
        ensures
            fresh_with(c, false, Map::empty()),
            c.wf(),
            !c.barebones,
            c.registry.view() == Map::<Seq<char>, VariableState>::empty(),
            c.types.view() == Map::<Seq<char>, TypeV>::empty(),
            c.functions.view() == Map::<Seq<char>, Option<TypeV>>::empty(),
            c.borrows.view() == Map::<Seq<char>, Seq<Seq<char>>>::empty(),
            c.lens_locked.view() == Set::<Seq<char>>::empty(),
            c.lens_aliases.view() == Set::<Seq<char>>::empty(),
            c.mutables.view() == Set::<Seq<char>>::empty(),
            c.current_params.view() == Set::<Seq<char>>::empty(),
            c.current_return_type is None,
            c.loaded_modules.view() == Set::<Seq<char>>::empty(),
            c.modules.view() == Map::<Seq<char>, Seq<char>>::empty(),
    {
        LinearChecker {
            registry: StrMap::new(),
            types: StrMap::new(),
            functions: StrMap::new(),
            borrows: StrMap::new(),
            lens_locked: StrSet::new(),
            lens_aliases: StrSet::new(),
            mutables: StrSet::new(),
            unions: StrMap::new(),
            type_aliases: StrMap::new(),
            current_params: StrSet::new(),
            current_return_type: None,
            barebones: false,
            loaded_modules: StrSet::new(),
            modules: StrMap::new(),
        }
    }

    /// Makes the source of a local module, found at `path`, available to
    /// imports.
    pub fn add_module(&mut self, path: String, source: String)
        requires
            old(self).wf(),
        ensures
            final(self).wf(),
            final(self).modules.view() == old(self).modules.view().insert(path@, source@),
            final(self).loaded_modules == old(self).loaded_modules,
            *final(self) == (LinearChecker { modules: final(self).modules, ..*old(self) }),
    {
        self.modules.insert(path, source);
    }

    /// Declares `name` as a fresh, `Active` variable.
    pub fn declare(&mut self, name: String)
        requires
            old(self).wf(),
        ensures
            final(self).wf(),
            final(self).registry.view() == old(self).registry.view().insert(
                name@,
                VariableState::Active,
            ),
            final(self).same_but_registry(old(self)),
    {
        self.registry.insert(name, VariableState::Active);
    }

    /// Whether reading `name` copies it: enum and union variants (names with
    /// `::`) and variables of a copy type.
    pub fn is_copy_var(&self, name: &str) -> (r: bool)
        requires
            self.wf(),
        ensures
            r == self.copy_var(name@),
    {
        if contains_double_colon(name) {
            return true;
        }
        match self.types.get(name) {
            Some(ty) => is_copy_type(ty),
            None => false,
        }
    }

    /// Reads `name`: fails on an undeclared, spent or frozen variable; spends
    /// an `Active` linear variable that is not a lens.
    pub fn read_or_move(&mut self, name: &str) -> (r: Result<(), String>)
        requires
            old(self).wf(),
        ensures
            final(self).wf(),
            final(self).same_but_registry(old(self)),
            final(self).registry.view() == moved_registry(
                old(self).registry.view(),
                old(self).copy_var(name@),
                old(self).lens_aliases.view().contains(name@),
                name@,
            ),
            match (r, move_result(old(self).registry.view(), name@)) {
                (Ok(_), Ok(_)) => true,
                (Err(m), Err(e)) => m@ == e,
                _ => false,
            },
    {
        match self.registry.get(name) {
            Some(VariableState::Spent) => Err(
                quote("Compile Error: Use-after-free! Resource '", name, "' is already spent."),
            ),
            Some(VariableState::Locked) => Err(
                quote(
                    "Compile Error: Resource '",
                    name,
                    "' is frozen (either locked in a lens or borrowed).",
                ),
            ),
            Some(VariableState::Active) => {
                if !self.is_copy_var(name) && !self.lens_aliases.contains(name) {
                    self.registry.insert(string_of(name), VariableState::Spent);
                }
                Ok(())
            },
            None => Err(quote("Compile Error: Undeclared variable '", name, "'.")),
        }
    }

    /// Borrows the variable `name` without consuming it.
    pub fn borrow_var(&self, name: &str) -> (r: Result<(), String>)
        requires
            self.wf(),
        ensures
            match (r, borrow_result(self.registry.view(), self.lens_locked.view(), name@)) {
                (Ok(_), Ok(_)) => true,
                (Err(m), Err(e)) => m@ == e,
                _ => false,
            },
    {
        match self.registry.get(name) {
            Some(VariableState::Spent) => Err(
                quote("Compile Error: Cannot borrow spent resource '", name, "'."),
            ),
            Some(VariableState::Locked) => if self.lens_locked.contains(name) {
                Err(quote("Compile Error: Cannot borrow locked resource '", name, "'."))
            } else {
                Ok(())
            },
            Some(VariableState::Active) => Ok(()),
            None => Err(quote("Compile Error: Undeclared variable '", name, "'.")),
        }
    }

    /// The variables borrowed by an `Active` reference variable.
    fn borrowed_vars(&self) -> (b: StrSet)
        requires
            self.wf(),
        ensures
            b.wf(),
            forall|x: Seq<char>|
                b.view().contains(x) == borrowed_by_active(
                    self.registry.view(),
                    self.borrows.view(),
                    x,
                ),
    {
        let ghost reg = self.registry.view();
        let ghost bor = self.borrows.view();
        let ghost ks = self.borrows.key_seq();
        proof {
            self.borrows.lemma_keys();
        }
        let mut b = StrSet::new();
        let mut i: usize = 0;
        while i < self.borrows.len()
            invariant
                self.wf(),
                reg == self.registry.view(),
                bor == self.borrows.view(),
                ks == self.borrows.key_seq(),
                i <= ks.len(),
                b.wf(),
                forall|j: int| 0 <= j < ks.len() ==> #[trigger] bor.contains_key(ks[j]),
                forall|x: Seq<char>|
                    b.view().contains(x) == (exists|j: int|
                        0 <= j < i && reg.contains_key(#[trigger] ks[j]) && reg[ks[j]]
                            == VariableState::Active && bor[ks[j]].contains(x)),
            decreases ks.len() - i,
        {
            let r = self.borrows.key_at(i);
            let active = match self.registry.get(r.as_str()) {
                Some(VariableState::Active) => true,
                _ => false,
            };
            if active {
                let provs = self.borrows.value_at(i);
                let ghost before = b.view();
                let ghost ii = i as int;
                proof {
                    assert(reg.contains_key(ks[ii]) && reg[ks[ii]] == VariableState::Active);
                    assert forall|x: Seq<char>|
                        before.contains(x) == (exists|j: int|
                            0 <= j < i && reg.contains_key(#[trigger] ks[j]) && reg[ks[j]]
                                == VariableState::Active && bor[ks[j]].contains(x)) by {}
                }
                let mut k: usize = 0;
                while k < provs.len()
                    invariant
                        b.wf(),
                        k <= provs@.len(),
                        forall|x: Seq<char>| #[trigger] before.contains(x) ==> b.view().contains(x),
                        forall|m: int| 0 <= m < k ==> b.view().contains((#[trigger] provs@[m])@),
                        forall|x: Seq<char>|
                            #[trigger] b.view().contains(x) ==> before.contains(x)
                                || exists|m: int| 0 <= m < k && (#[trigger] provs@[m])@ == x,
                    decreases provs@.len() - k,
                {
                    let ghost bb = b.view();
                    b.insert(provs[k].clone());
                    proof {
                        assert forall|x: Seq<char>| #[trigger] b.view().contains(x) implies before.contains(x)
                                || exists|m: int| 0 <= m < k + 1 && (#[trigger] provs@[m])@ == x by {
                            if x == provs@[k as int]@ {
                                assert(0 <= k < k + 1 && provs@[k as int]@ == x);
                            } else {
                                assert(bb.contains(x));
                            }
                        }
                    }
                    k += 1;
                }
                proof {
                    assert(bor[ks[ii]] == provs.deep_view());
                    assert forall|x: Seq<char>|
                        b.view().contains(x) == (exists|j: int|
                            0 <= j < i + 1 && reg.contains_key(#[trigger] ks[j]) && reg[ks[j]]
                                == VariableState::Active && bor[ks[j]].contains(x)) by {
                        let inner = exists|m: int| 0 <= m < provs@.len() && (#[trigger] provs@[m])@ == x;
                        if inner {
                            let m = choose|m: int| 0 <= m < provs@.len() && (#[trigger] provs@[m])@ == x;
                            assert(b.view().contains(provs@[m]@));
                        }
                        assert(b.view().contains(x) == (before.contains(x) || inner));
                        if inner {
                            let m = choose|m: int| 0 <= m < provs@.len() && (#[trigger] provs@[m])@ == x;
                            assert(provs.deep_view()[m] == x);
                            assert(bor[ks[ii]].contains(x));
                        }
                        if bor[ks[ii]].contains(x) {
                            let m = choose|m: int| 0 <= m < bor[ks[ii]].len() && bor[ks[ii]][m] == x;
                            assert(provs.deep_view()[m] == provs@[m]@);
                            assert(inner);
                        }
                        if exists|j: int|
                            0 <= j < i + 1 && reg.contains_key(#[trigger] ks[j]) && reg[ks[j]]
                                == VariableState::Active && bor[ks[j]].contains(x) {
                            let j = choose|j: int|
                                0 <= j < i + 1 && reg.contains_key(#[trigger] ks[j]) && reg[ks[j]]
                                    == VariableState::Active && bor[ks[j]].contains(x);
                            if j == ii {
                                assert(inner);
                            } else {
                                assert(before.contains(x));
                            }
                        }
                    }
                }
            } else {
                proof {
                    assert forall|x: Seq<char>|
                        b.view().contains(x) == (exists|j: int|
                            0 <= j < i + 1 && reg.contains_key(#[trigger] ks[j]) && reg[ks[j]]
                                == VariableState::Active && bor[ks[j]].contains(x)) by {
                        if exists|j: int|
                            0 <= j < i + 1 && reg.contains_key(#[trigger] ks[j]) && reg[ks[j]]
                                == VariableState::Active && bor[ks[j]].contains(x) {
                            let j = choose|j: int|
                                0 <= j < i + 1 && reg.contains_key(#[trigger] ks[j]) && reg[ks[j]]
                                    == VariableState::Active && bor[ks[j]].contains(x);
                            assert(j < i);
                        }
                    }
                }
            }
            i += 1;
        }
        proof {
            assert forall|x: Seq<char>|
                b.view().contains(x) == borrowed_by_active(reg, bor, x) by {
                if borrowed_by_active(reg, bor, x) {
                    let r = choose|r: Seq<char>|
                        #![trigger bor[r].contains(x)]
                        bor.contains_key(r) && reg.contains_key(r) && reg[r] == VariableState::Active
                            && bor[r].contains(x);
                    assert(ks.contains(r));
                    let j = choose|j: int| 0 <= j < ks.len() && ks[j] == r;
                    assert(reg.contains_key(ks[j]));
                }
                if b.view().contains(x) {
                    let j = choose|j: int|
                        0 <= j < i && reg.contains_key(#[trigger] ks[j]) && reg[ks[j]]
                            == VariableState::Active && bor[ks[j]].contains(x);
                    assert(bor.contains_key(ks[j]));
                }
            }
        }
        b
    }

    /// Brings the lock states up to date: a variable locked by a lens or
    /// borrowed by an `Active` reference is `Locked` if it was `Active`;
    /// a `Locked` variable that is neither becomes `Active` again.
    pub fn update_borrow_states(&mut self)
        requires
            old(self).wf(),
        ensures
            final(self).wf(),
            final(self).same_but_registry(old(self)),
            final(self).registry.view() == old(self).settled(),
            final(self).registry.key_seq() == old(self).registry.key_seq(),
    {
        let b = self.borrowed_vars();
        let ghost reg = self.registry.view();
        let ghost target = self.settled();
        let ghost ks = self.registry.key_seq();
        proof {
            self.registry.lemma_keys();
        }
        let mut i: usize = 0;
        while i < self.registry.len()
            invariant
                self.wf(),
                self.same_but_registry(old(self)),
                reg == old(self).registry.view(),
                target == old(self).settled(),
                ks == self.registry.key_seq(),
                ks == old(self).registry.key_seq(),
                ks.no_duplicates(),
                i <= ks.len(),
                forall|x: Seq<char>|
                    b.view().contains(x) == borrowed_by_active(
                        reg,
                        old(self).borrows.view(),
                        x,
                    ),
                forall|j: int| 0 <= j < ks.len() ==> #[trigger] reg.contains_key(ks[j]),
                forall|k: Seq<char>| #[trigger] reg.contains_key(k) ==> ks.contains(k),
                self.registry.view().dom() == reg.dom(),
                forall|j: int|
                    0 <= j < i ==> self.registry.view()[#[trigger] ks[j]] == target[ks[j]],
                forall|j: int| i <= j < ks.len() ==> self.registry.view()[#[trigger] ks[j]] == reg[ks[j]],
            decreases ks.len() - i,
        {
            let key = self.registry.key_at(i).clone();
            let state = *self.registry.value_at(i);
            let locked = self.lens_locked.contains(key.as_str()) || b.contains(key.as_str());
            let next = if locked && state == VariableState::Active {
                VariableState::Locked
            } else if !locked && state == VariableState::Locked {
                VariableState::Active
            } else {
                state
            };
            let ghost kv = key@;
            proof {
                assert(kv == ks[i as int]);
                assert(reg.contains_key(kv));
                assert(target[kv] == next);
            }
            self.registry.insert(key, next);
            proof {
                assert forall|j: int| 0 <= j < i + 1 implies self.registry.view()[#[trigger] ks[j]]
                    == target[ks[j]] by {
                    if j < i {
                        assert(ks[j] != kv);
                    }
                }
                assert forall|j: int| i + 1 <= j < ks.len() implies self.registry.view()[#[trigger] ks[j]]
                    == reg[ks[j]] by {
                    assert(ks[j] != kv);
                }
                assert(self.registry.view().dom() =~= reg.dom());
            }
            i += 1;
        }
        proof {
            assert forall|k: Seq<char>| #[trigger] self.registry.view().contains_key(k) implies
                self.registry.view()[k] == target[k] by {
                let j = choose|j: int| 0 <= j < ks.len() && ks[j] == k;
            }
            assert(self.registry.view() =~= target);
        }
    }

    /// Opens a lens on `name`: an `Active` variable becomes `Locked`.
    pub fn enter_lens(&mut self, name: &str) -> (r: Result<(), String>)
        requires
            old(self).wf(),
        ensures
            final(self).wf(),
            old(self).registry.view().contains_key(name@) && old(self).registry.view()[name@]
                == VariableState::Active ==> {
                &&& r is Ok
                &&& final(self).registry.view() == old(self).registry.view().insert(
                    name@,
                    VariableState::Locked,
                )
                &&& final(self).lens_locked.view() == old(self).lens_locked.view().insert(name@)
                &&& final(self).borrows == old(self).borrows
                &&& final(self).types == old(self).types
                &&& final(self).lens_aliases == old(self).lens_aliases
                &&& final(self).functions == old(self).functions
                &&& final(self).mutables == old(self).mutables
                &&& final(self).loaded_modules == old(self).loaded_modules
                &&& final(self).modules == old(self).modules
                &&& final(self).type_aliases == old(self).type_aliases
                &&& final(self).unions == old(self).unions
                &&& final(self).current_params == old(self).current_params
                &&& final(self).current_return_type == old(self).current_return_type
                &&& final(self).barebones == old(self).barebones
            },
            !(old(self).registry.view().contains_key(name@) && old(self).registry.view()[name@]
                == VariableState::Active) ==> {
                &&& r is Err
                &&& r->Err_0@ == lens_inactive_msg(name@)
                &&& *final(self) == *old(self)
            },
    {
        let active = match self.registry.get(name) {
            Some(VariableState::Active) => true,
            _ => false,
        };
        if active {
            self.lens_locked.insert(string_of(name));
            self.registry.insert(string_of(name), VariableState::Locked);
            Ok(())
        } else {
            Err(quote("Compile Error: Cannot create lens. '", name, "' is not Active."))
        }
    }

    /// Closes the lens on `name`: it leaves the lens set, becomes `Active`
    /// again if it was `Locked`, and the lock states are brought up to date.
    pub fn exit_lens(&mut self, name: &str)
        requires
            old(self).wf(),
        ensures
            final(self).wf(),
            final(self).lens_locked.view() == old(self).lens_locked.view().remove(name@),
            final(self).registry.view() == settle(
                reopened(old(self).registry.view(), name@),
                old(self).borrows.view(),
                old(self).lens_locked.view().remove(name@),
            ),
            final(self).borrows == old(self).borrows,
            final(self).types == old(self).types,
            final(self).lens_aliases == old(self).lens_aliases,
            final(self).functions == old(self).functions,
            final(self).mutables == old(self).mutables,
            final(self).loaded_modules == old(self).loaded_modules,
            final(self).modules == old(self).modules,
            final(self).type_aliases == old(self).type_aliases,
    {
        self.lens_locked.remove(name);
        let locked = match self.registry.get(name) {
            Some(VariableState::Locked) => true,
            _ => false,
        };
        if locked {
            self.registry.insert(string_of(name), VariableState::Active);
        }
        self.update_borrow_states();
    }
}

} // verus!

pub mod laws;
pub mod builtins;
pub mod infer;
pub mod prov;
pub mod lens;
pub mod calls;
pub mod flow;
pub mod imports;
pub mod expr;
pub mod patterns;
