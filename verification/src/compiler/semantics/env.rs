//! The evaluator's environment: a table of slots and a stack of scopes
//! that map names to slots. Two names that map to one slot are aliases.

use vstd::prelude::*;
use crate::compiler::semantics::value::{Value, ValueView};
use crate::compiler::text::str_eq;

verus! {

/// The storage location a binding name resolves to.
#[derive(Debug)]
pub struct Slot {
    pub value: Value,
}

/// A handle to a slot: its index in the environment's slot table.
pub type SlotRef = usize;

/// The bindings of one lexical scope. A later binding of a name replaces
/// an earlier one.
#[derive(Debug)]
pub struct Scope {
    names: Vec<(String, SlotRef)>,
}

#[derive(Debug)]
pub struct Env {
    slots: Vec<Slot>,
    scopes: Vec<Scope>,
}

/// An environment as mathematics: the value in each slot, and for each
/// scope, outermost first, the slot of each name bound in it.
pub struct EnvView {
    pub slots: Seq<ValueView>,
    pub scopes: Seq<Map<Seq<char>, int>>,
}

/// The map that a run of bindings builds up, later bindings winning.
pub open spec fn bindings_map(names: Seq<(String, SlotRef)>) -> Map<Seq<char>, int>
    decreases names.len(),
{
    if names.len() == 0 {
        Map::empty()
    } else {
        bindings_map(names.drop_last()).insert(names.last().0@, names.last().1 as int)
    }
}

impl View for Scope {
    type V = Map<Seq<char>, int>;

    closed spec fn view(&self) -> Map<Seq<char>, int> {
        bindings_map(self.names@)
    }
}

impl EnvView {
    /// The environment of a fresh evaluator: no slots, one empty scope.
    pub open spec fn fresh() -> EnvView {
        EnvView { slots: Seq::empty(), scopes: seq![Map::empty()] }
    }

    /// Every bound name resolves to a slot of the table.
    pub open spec fn wf(self) -> bool {
        forall|s: int, name: Seq<char>|
            0 <= s < self.scopes.len() && #[trigger] self.scopes[s].contains_key(name) ==> 0
                <= self.scopes[s][name] < self.slots.len()
    }

    /// The slot `name` resolves to: that of the innermost scope that
    /// binds it.
    pub open spec fn resolve(self, name: Seq<char>) -> Option<int>
        decreases self.scopes.len(),
    {
        if self.scopes.len() == 0 {
            None
        } else if self.scopes.last().contains_key(name) {
            Some(self.scopes.last()[name])
        } else {
            (EnvView { scopes: self.scopes.drop_last(), ..self }).resolve(name)
        }
    }

    /// The current value of `name`, if it is bound.
    pub open spec fn value_of(self, name: Seq<char>) -> Option<ValueView> {
        match self.resolve(name) {
            Some(slot) => Some(self.slots[slot]),
            None => None,
        }
    }

    pub open spec fn push_scope(self) -> EnvView {
        EnvView { scopes: self.scopes.push(Map::empty()), ..self }
    }

    pub open spec fn pop_scope(self) -> EnvView {
        EnvView { scopes: self.scopes.drop_last(), ..self }
    }

    /// Binds `name` in the innermost scope to the slot `slot`.
    pub open spec fn bind(self, name: Seq<char>, slot: int) -> EnvView {
        EnvView {
            scopes: self.scopes.update(
                self.scopes.len() - 1,
                self.scopes.last().insert(name, slot),
            ),
            ..self
        }
    }

    /// Binds `name` in the innermost scope to a fresh slot that holds
    /// `value`.
    pub open spec fn define(self, name: Seq<char>, value: ValueView) -> EnvView {
        (EnvView { slots: self.slots.push(value), ..self }).bind(name, self.slots.len() as int)
    }

    /// Stores `value` in the slot `slot`, for every name that resolves to
    /// it.
    pub open spec fn store(self, slot: int, value: ValueView) -> EnvView {
        EnvView { slots: self.slots.update(slot, value), ..self }
    }
}

pub proof fn lemma_resolve_in_range(env: EnvView, name: Seq<char>)
    requires
        env.wf(),
    ensures
        env.resolve(name) matches Some(slot) ==> 0 <= slot < env.slots.len() && env.scopes.len()
            > 0,
    decreases env.scopes.len(),
{
    if env.scopes.len() > 0 && !env.scopes.last().contains_key(name) {
        let outer = EnvView { scopes: env.scopes.drop_last(), ..env };
        assert forall|s: int, n: Seq<char>|
            0 <= s < outer.scopes.len() && #[trigger] outer.scopes[s].contains_key(n) implies 0
            <= outer.scopes[s][n] < outer.slots.len() by {
            assert(outer.scopes[s] == env.scopes[s]);
        }
        lemma_resolve_in_range(outer, name);
    }
}

/// A copy is an alias: the new name resolves to the slot of its target,
/// so a value stored through either name is the value of both.
pub proof fn law_copy_aliases(
    env: EnvView,
    name: Seq<char>,
    target: Seq<char>,
    value: ValueView,
)
    requires
        env.wf(),
        env.resolve(target) is Some,
    ensures
        ({
            let slot = env.resolve(target)->0;
            let aliased = env.bind(name, slot);
            &&& aliased.resolve(name) == Some(slot)
            &&& aliased.store(slot, value).value_of(name) == Some(value)
            &&& aliased.resolve(target) is Some
            &&& aliased.store(aliased.resolve(target)->0, value).value_of(target) == Some(value)
            &&& aliased.resolve(target) == Some(slot) ==> aliased.store(slot, value).value_of(
                target,
            ) == aliased.store(slot, value).value_of(name)
        }),
{
    let slot = env.resolve(target)->0;
    lemma_resolve_in_range(env, target);
    let aliased = env.bind(name, slot);
    lemma_resolve_innermost(aliased, name);
    lemma_store_keeps_names(aliased, slot, value, name);
    if name == target {
    } else {
        lemma_bind_keeps_others(env, name, slot, target);
    }
    let seen = aliased.resolve(target)->0;
    lemma_store_keeps_names(aliased, seen, value, target);
    assert(0 <= seen < aliased.slots.len()) by {
        if name != target {
            lemma_resolve_in_range(env, target);
        }
    }
}

/// A definition is exclusive: it takes a fresh slot, which no other name
/// resolves to, so storing through another name leaves the defined value
/// as it is. A bind statement defines its name with the target's current
/// value, and is therefore a snapshot.
pub proof fn law_define_is_exclusive(
    env: EnvView,
    name: Seq<char>,
    value: ValueView,
    other: Seq<char>,
    stored: ValueView,
)
    requires
        env.wf(),
        env.scopes.len() > 0,
        other != name,
    ensures
        env.define(name, value).wf(),
        env.define(name, value).value_of(name) == Some(value),
        env.define(name, value).resolve(other) == env.resolve(other),
        env.define(name, value).resolve(other) matches Some(slot) ==> {
            &&& slot != env.slots.len()
            &&& env.define(name, value).store(slot, stored).value_of(name) == Some(value)
            &&& env.define(name, value).store(slot, stored).value_of(other) == Some(stored)
        },
{
    let fresh = env.slots.len() as int;
    let grown = EnvView { slots: env.slots.push(value), ..env };
    let defined = env.define(name, value);
    assert(grown.wf()) by {
        assert forall|s: int, n: Seq<char>|
            0 <= s < grown.scopes.len() && #[trigger] grown.scopes[s].contains_key(n) implies 0
            <= grown.scopes[s][n] < grown.slots.len() by {
            assert(env.scopes[s].contains_key(n));
        }
    }
    lemma_resolve_ignores_slots(env, grown, other);
    lemma_bind_keeps_others(grown, name, fresh, other);
    lemma_resolve_innermost(defined, name);
    lemma_resolve_in_range(env, other);
    assert(defined.wf()) by {
        assert forall|s: int, n: Seq<char>|
            0 <= s < defined.scopes.len() && #[trigger] defined.scopes[s].contains_key(n) implies 0
            <= defined.scopes[s][n] < defined.slots.len() by {
            if s < defined.scopes.len() - 1 {
                assert(defined.scopes[s] == grown.scopes[s]);
                assert(grown.scopes[s].contains_key(n));
            } else if n != name {
                assert(grown.scopes[s].contains_key(n));
            }
        }
    }
    if defined.resolve(other) is Some {
        let slot = defined.resolve(other)->0;
        lemma_store_keeps_names(defined, slot, stored, name);
        lemma_store_keeps_names(defined, slot, stored, other);
    }
}

/// A name bound in the innermost scope resolves to the slot bound there.
pub proof fn lemma_resolve_innermost(env: EnvView, name: Seq<char>)
    requires
        env.scopes.len() > 0,
        env.scopes.last().contains_key(name),
    ensures
        env.resolve(name) == Some(env.scopes.last()[name]),
{
}

/// Binding one name leaves what every other name resolves to.
pub proof fn lemma_bind_keeps_others(env: EnvView, name: Seq<char>, slot: int, other: Seq<char>)
    requires
        env.scopes.len() > 0,
        other != name,
    ensures
        env.bind(name, slot).resolve(other) == env.resolve(other),
{
    let bound = env.bind(name, slot);
    assert(bound.scopes.drop_last() =~= env.scopes.drop_last());
    assert(bound.scopes.last().contains_key(other) == env.scopes.last().contains_key(other));
}

/// What a name resolves to depends on the scopes alone.
pub proof fn lemma_resolve_ignores_slots(a: EnvView, b: EnvView, name: Seq<char>)
    requires
        a.scopes == b.scopes,
    ensures
        a.resolve(name) == b.resolve(name),
    decreases a.scopes.len(),
{
    if a.scopes.len() > 0 && !a.scopes.last().contains_key(name) {
        lemma_resolve_ignores_slots(
            EnvView { scopes: a.scopes.drop_last(), ..a },
            EnvView { scopes: b.scopes.drop_last(), ..b },
            name,
        );
    }
}

/// Storing a value changes no binding, and only the slot stored into.
pub proof fn lemma_store_keeps_names(env: EnvView, slot: int, value: ValueView, name: Seq<char>)
    requires
        0 <= slot < env.slots.len(),
    ensures
        env.store(slot, value).resolve(name) == env.resolve(name),
        env.resolve(name) == Some(slot) ==> env.store(slot, value).value_of(name) == Some(value),
        env.resolve(name) matches Some(other) && other != slot && 0 <= other < env.slots.len()
            ==> env.store(slot, value).value_of(name) == env.value_of(name),
{
    lemma_resolve_ignores_slots(env, env.store(slot, value), name);
}

impl Scope {
    fn new() -> (scope: Self)
        ensures
            scope@ == Map::<Seq<char>, int>::empty(),
    {
        Scope { names: Vec::new() }
    }

    /// The slot bound to `name` in this scope.
    fn get(&self, name: &str) -> (slot: Option<SlotRef>)
        ensures
            match slot {
                Some(s) => self@.contains_key(name@) && self@[name@] == s,
                None => !self@.contains_key(name@),
            },
    {
        let mut i: usize = self.names.len();
        assert(self.names@.take(i as int) =~= self.names@);
        while i > 0
            invariant
                i <= self.names@.len(),
                bindings_map(self.names@.take(i as int)).contains_key(name@) == self@.contains_key(
                    name@,
                ),
                self@.contains_key(name@) ==> bindings_map(self.names@.take(i as int))[name@]
                    == self@[name@],
            decreases i,
        {
            let ghost seen = self.names@.take(i as int);
            assert(seen.drop_last() =~= self.names@.take(i - 1));
            assert(seen.last() == self.names@[i - 1]);
            i -= 1;
            if str_eq(self.names[i].0.as_str(), name) {
                return Some(self.names[i].1);
            }
        }
        None
    }

    /// Binds `name` to `slot`, over an earlier binding of `name`.
    fn insert(&mut self, name: String, slot: SlotRef)
        ensures
            final(self)@ == old(self)@.insert(name@, slot as int),
    {
        let ghost before = self.names@;
        self.names.push((name, slot));
        assert(self.names@.drop_last() =~= before);
    }
}

pub open spec fn slot_views(slots: Seq<Slot>) -> Seq<ValueView> {
    slots.map_values(|s: Slot| s.value@)
}

pub open spec fn scope_views(scopes: Seq<Scope>) -> Seq<Map<Seq<char>, int>> {
    scopes.map_values(|s: Scope| s@)
}

impl View for Env {
    type V = EnvView;

    closed spec fn view(&self) -> EnvView {
        EnvView { slots: slot_views(self.slots@), scopes: scope_views(self.scopes@) }
    }
}

impl Default for Scope {
    fn default() -> (scope: Self)
        ensures
            scope@ == Map::<Seq<char>, int>::empty(),
    {
        Scope::new()
    }
}

impl Default for Env {
    /// An environment without any scope.
    fn default() -> (env: Self)
        ensures
            env@ == (EnvView { slots: Seq::empty(), scopes: Seq::empty() }),
            env@.wf(),
    {
        let env = Env { slots: Vec::new(), scopes: Vec::new() };
        proof {
            assert(env@.slots =~= Seq::empty());
            assert(env@.scopes =~= Seq::empty());
        }
        env
    }
}

impl Env {
    /// An environment with one scope, the outermost, and no bindings.
    pub fn new() -> (env: Self)
        ensures
            env@ == EnvView::fresh(),
            env@.wf(),
    {
        let mut scopes: Vec<Scope> = Vec::new();
        scopes.push(Scope::new());
        let env = Env { slots: Vec::new(), scopes };
        proof {
            assert(env@.slots =~= Seq::empty());
            assert(env@.scopes =~= seq![Map::empty()]);
        }
        env
    }

    /// Opens a scope inside the current one.
    pub fn push_scope(&mut self)
        requires
            old(self)@.wf(),
        ensures
            final(self)@ == old(self)@.push_scope(),
            final(self)@.wf(),
    {
        let ghost before = self@;
        self.scopes.push(Scope::new());
        proof {
            assert(self@.scopes =~= before.scopes.push(Map::empty()));
        }
    }

    /// Closes the innermost scope. Its slots stay in the table.
    pub fn pop_scope(&mut self)
        requires
            old(self)@.wf(),
            old(self)@.scopes.len() > 0,
        ensures
            final(self)@ == old(self)@.pop_scope(),
            final(self)@.wf(),
    {
        let ghost before = self@;
        self.scopes.pop();
        proof {
            assert(self@.scopes =~= before.scopes.drop_last());
        }
    }

    /// Binds `name` in the innermost scope to the slot `slot`.
    fn bind(&mut self, name: String, slot: SlotRef)
        requires
            old(self)@.wf(),
            old(self)@.scopes.len() > 0,
            slot < old(self)@.slots.len(),
        ensures
            final(self)@ == old(self)@.bind(name@, slot as int),
            final(self)@.wf(),
    {
        let ghost before = self@;
        let mut scope = match self.scopes.pop() {
            Some(scope) => scope,
            None => Scope::new(),
        };
        scope.insert(name, slot);
        proof {
            assert forall|s: int, n: Seq<char>|
                0 <= s < self@.scopes.len() && #[trigger] self@.scopes[s].contains_key(n) implies 0
                <= self@.scopes[s][n] < self@.slots.len() by {
                assert(self@.scopes[s] == before.scopes[s]);
            }
        }
        self.scopes.push(scope);
        proof {
            assert(self@.scopes =~= before.bind(name@, slot as int).scopes);
        }
    }

    /// Defines a new name in the current scope, in a fresh slot.
    pub fn define(&mut self, name: String, value: Value)
        requires
            old(self)@.wf(),
            old(self)@.scopes.len() > 0,
        ensures
            final(self)@ == old(self)@.define(name@, value@),
            final(self)@.wf(),
    {
        let ghost before = self@;
        let slot = self.slots.len();
        self.slots.push(Slot { value });
        proof {
            assert(self@.slots =~= before.slots.push(value@));
            assert(self@.scopes == before.scopes);
        }
        self.bind(name, slot);
    }

    /// Looks a name up, from the innermost scope to the outermost.
    pub fn lookup(&self, name: &str) -> (slot: Option<SlotRef>)
        requires
            self@.wf(),
        ensures
            match slot {
                Some(s) => self@.resolve(name@) == Some(s as int) && s < self@.slots.len(),
                None => self@.resolve(name@) is None,
            },
    {
        proof {
            lemma_resolve_in_range(self@, name@);
        }
        let ghost env = self@;
        let mut i: usize = self.scopes.len();
        assert(env.scopes.take(i as int) =~= env.scopes);
        while i > 0
            invariant
                i <= self.scopes@.len(),
                env == self@,
                env.resolve(name@) matches Some(s) ==> 0 <= s < env.slots.len(),
                (EnvView { scopes: env.scopes.take(i as int), ..env }).resolve(name@)
                    == env.resolve(name@),
            decreases i,
        {
            let ghost inner = EnvView { scopes: env.scopes.take(i as int), ..env };
            assert(inner.scopes.drop_last() =~= env.scopes.take(i - 1));
            assert(inner.scopes.last() == self.scopes@[i - 1]@);
            i -= 1;
            match self.scopes[i].get(name) {
                Some(slot) => {
                    return Some(slot);
                },
                None => {},
            }
        }
        None
    }

    /// Binds a new name in the current scope to the slot of an existing
    /// name: the two are aliases from then on.
    pub fn copy(&mut self, name: String, target: &str) -> (r: Result<(), ()>)
        requires
            old(self)@.wf(),
        ensures
            final(self)@.wf(),
            match old(self)@.resolve(target@) {
                Some(slot) => r is Ok && final(self)@ == old(self)@.bind(name@, slot),
                None => r is Err && final(self)@ == old(self)@,
            },
    {
        proof {
            lemma_resolve_in_range(self@, target@);
        }
        match self.lookup(target) {
            Some(slot) => {
                self.bind(name, slot);
                Ok(())
            },
            None => Err(()),
        }
    }

    /// Assigns into the slot of an existing name.
    pub fn assign(&mut self, name: &str, value: Value) -> (r: Result<(), ()>)
        requires
            old(self)@.wf(),
        ensures
            final(self)@.wf(),
            match old(self)@.resolve(name@) {
                Some(slot) => r is Ok && final(self)@ == old(self)@.store(slot, value@),
                None => r is Err && final(self)@ == old(self)@,
            },
    {
        let ghost before = self@;
        match self.lookup(name) {
            Some(slot) => {
                self.slots.set(slot, Slot { value });
                proof {
                    assert(self@.slots =~= before.slots.update(slot as int, value@));
                    assert(self@.scopes == before.scopes);
                }
                Ok(())
            },
            None => Err(()),
        }
    }

    /// The current value of a name, if it is defined.
    pub fn get_value(&self, name: &str) -> (value: Option<Value>)
        requires
            self@.wf(),
        ensures
            match self@.value_of(name@) {
                Some(v) => value matches Some(x) && x@ == v,
                None => value is None,
            },
    {
        match self.lookup(name) {
            Some(slot) => Some(self.slots[slot].value.clone()),
            None => None,
        }
    }
}

} // verus!
