//! The scopes of a running program: an arena in which every scope names the
//! one around it by its index.

use crate::object::{Object, ObjectView};
use vstd::hash_map::StringHashMap;
use vstd::prelude::*;
use vstd::string::StringExecFns;

verus! {

/// One scope: its own bindings, and the index of the scope around it.
pub struct Scope {
    pub store: StringHashMap<Object>,
    pub outer: Option<usize>,
}

/// The mathematical value of a [`Scope`].
pub struct ScopeView {
    pub store: Map<Seq<char>, ObjectView>,
    pub outer: Option<nat>,
}

impl View for Scope {
    type V = ScopeView;

    open spec fn view(&self) -> ScopeView {
        ScopeView {
            store: self.store@.map_values(|o: Object| o@),
            outer: match self.outer {
                Some(o) => Some(o as nat),
                None => None,
            },
        }
    }
}

/// All scopes of a running program. The first is the global scope.
pub struct Environment {
    pub scopes: Vec<Scope>,
}

impl View for Environment {
    type V = Seq<ScopeView>;

    open spec fn view(&self) -> Seq<ScopeView> {
        Seq::new(self.scopes.len() as nat, |i: int| self.scopes[i]@)
    }
}

/// Every scope that names one around it names an older one: the links
/// point outward only, and never in a circle.
pub open spec fn links_outward(env: Seq<ScopeView>) -> bool {
    forall|i: int|
        0 <= i < env.len() ==> match (#[trigger] env[i]).outer {
            Some(o) => o < i,
            None => true,
        }
}

/// What `name` is bound to as seen from `scope`: the binding of the first
/// scope that has one, going outward from `scope`.
pub open spec fn lookup(env: Seq<ScopeView>, scope: nat, name: Seq<char>) -> Option<ObjectView>
    decreases scope,
{
    if scope >= env.len() {
        None
    } else if env[scope as int].store.contains_key(name) {
        Some(env[scope as int].store[name])
    } else {
        match env[scope as int].outer {
            Some(o) => if o < scope {
                lookup(env, o, name)
            } else {
                None
            },
            None => None,
        }
    }
}

/// The scopes after `name` is bound to `value` in `scope`: only that scope
/// changes. Where there is no such scope, nothing changes.
pub open spec fn bind(env: Seq<ScopeView>, scope: nat, name: Seq<char>, value: ObjectView) -> Seq<
    ScopeView,
> {
    if scope < env.len() {
        env.update(
            scope as int,
            ScopeView {
                store: env[scope as int].store.insert(name, value),
                outer: env[scope as int].outer,
            },
        )
    } else {
        env
    }
}

/// The scopes after a new, empty one is made inside `outer`. The new scope
/// is the last.
pub open spec fn enclose(env: Seq<ScopeView>, outer: nat) -> Seq<ScopeView> {
    env.push(ScopeView { store: Map::empty(), outer: Some(outer) })
}

/// A name is bound to what was bound to it last, in the scope where that
/// was done.
pub proof fn lemma_lookup_bound(env: Seq<ScopeView>, scope: nat, name: Seq<char>, value: ObjectView)
    requires
        scope < env.len(),
    ensures
        lookup(bind(env, scope, name, value), scope, name) == Some(value),
{
}

/// Binding a name leaves every other name as it was, from every scope.
pub proof fn lemma_lookup_other_name(
    env: Seq<ScopeView>,
    scope: nat,
    name: Seq<char>,
    value: ObjectView,
    from: nat,
    other: Seq<char>,
)
    requires
        scope < env.len(),
        other != name,
    ensures
        lookup(bind(env, scope, name, value), from, other) == lookup(env, from, other),
    decreases from,
{
    let after = bind(env, scope, name, value);
    if from < env.len() && !env[from as int].store.contains_key(other) {
        match env[from as int].outer {
            Some(o) => {
                if o < from {
                    lemma_lookup_other_name(env, scope, name, value, o, other);
                }
            },
            None => {},
        }
    }
}

/// Binding a name in a scope changes nothing for the scopes made before
/// it: what a call binds does not reach the scope of its caller.
pub proof fn lemma_lookup_from_older_scope(
    env: Seq<ScopeView>,
    scope: nat,
    name: Seq<char>,
    value: ObjectView,
    from: nat,
    other: Seq<char>,
)
    requires
        scope < env.len(),
        from < scope,
    ensures
        lookup(bind(env, scope, name, value), from, other) == lookup(env, from, other),
    decreases from,
{
    if !env[from as int].store.contains_key(other) {
        match env[from as int].outer {
            Some(o) => {
                if o < from {
                    lemma_lookup_from_older_scope(env, scope, name, value, o, other);
                }
            },
            None => {},
        }
    }
}

/// From a new scope every name is bound as it is in the scope around it,
/// and the scopes that were there see what they saw.
pub proof fn lemma_lookup_through_new_scope(env: Seq<ScopeView>, outer: nat, name: Seq<char>)
    requires
        outer < env.len(),
    ensures
        lookup(enclose(env, outer), env.len(), name) == lookup(env, outer, name),
        forall|from: nat| from < env.len() ==> lookup(enclose(env, outer), from, name) == lookup(
            env,
            from,
            name,
        ),
{
    let after = enclose(env, outer);
    assert forall|from: nat| from < env.len() implies lookup(after, from, name) == lookup(
        env,
        from,
        name,
    ) by {
        lemma_lookup_unchanged_by_new_scope(env, outer, from, name);
    }
    lemma_lookup_unchanged_by_new_scope(env, outer, outer, name);
    assert(!after[env.len() as int].store.contains_key(name));
}

/// A new scope changes nothing for the scopes that were there.
proof fn lemma_lookup_unchanged_by_new_scope(
    env: Seq<ScopeView>,
    outer: nat,
    from: nat,
    name: Seq<char>,
)
    requires
        from < env.len(),
    ensures
        lookup(enclose(env, outer), from, name) == lookup(env, from, name),
    decreases from,
{
    if !env[from as int].store.contains_key(name) {
        match env[from as int].outer {
            Some(o) => {
                if o < from {
                    lemma_lookup_unchanged_by_new_scope(env, outer, o, name);
                }
            },
            None => {},
        }
    }
}

/// Binding a name and making a scope keep the links pointing outward.
pub proof fn lemma_links_kept(env: Seq<ScopeView>, scope: nat, name: Seq<char>, value: ObjectView)
    requires
        links_outward(env),
        scope < env.len(),
    ensures
        links_outward(bind(env, scope, name, value)),
        links_outward(enclose(env, scope)),
{
}

/// The mathematical value of what a lookup returns.
pub open spec fn found_view(r: Option<Object>) -> Option<ObjectView> {
    match r {
        Some(o) => Some(o@),
        None => None,
    }
}

impl Default for Environment {
    /// An environment that holds the global scope alone, which is empty.
    fn default() -> (env: Environment)
        ensures
            env.wf(),
            env@ == seq![ScopeView { store: Map::empty(), outer: None }],
    {
        Environment::new()
    }
}

impl Environment {
    /// The links between the scopes point outward.
    pub open spec fn wf(&self) -> bool {
        links_outward(self@)
    }

    /// An environment that holds the global scope alone, which is empty.
    pub fn new() -> (env: Environment)
        ensures
            env.wf(),
            env@ == seq![ScopeView { store: Map::empty(), outer: None }],
    {
        let mut scopes: Vec<Scope> = Vec::new();
        let store: StringHashMap<Object> = StringHashMap::new();
        let scope = Scope { store, outer: None };
        assert(scope@.store =~= Map::empty());
        scopes.push(scope);
        let env = Environment { scopes };
        assert(env@ =~= seq![ScopeView { store: Map::empty(), outer: None }]);
        env
    }

    /// The number of scopes.
    pub fn len(&self) -> (n: usize)
        ensures
            n == self@.len(),
    {
        self.scopes.len()
    }

    /// Makes a new, empty scope inside `outer` and returns its index.
    pub fn new_enclosed(&mut self, outer: usize) -> (scope: usize)
        requires
            old(self).wf(),
            outer < old(self)@.len(),
        ensures
            final(self).wf(),
            final(self)@ == enclose(old(self)@, outer as nat),
            scope == old(self)@.len(),
    {
        let store: StringHashMap<Object> = StringHashMap::new();
        let fresh = Scope { store, outer: Some(outer) };
        assert(fresh@.store =~= Map::empty());
        let id = self.scopes.len();
        self.scopes.push(fresh);
        assert(self@ =~= enclose(old(self)@, outer as nat));
        id
    }

    /// The value that `name` is bound to as seen from `scope`, if any.
    pub fn get(&self, scope: usize, name: &str) -> (r: Option<Object>)
        requires
            self.wf(),
            scope < self@.len(),
        ensures
            found_view(r) == lookup(self@, scope as nat, name@),
    {
        let mut at = scope;
        loop
            invariant
                self.wf(),
                at < self@.len(),
                lookup(self@, at as nat, name@) == lookup(self@, scope as nat, name@),
            decreases at,
        {
            let here = &self.scopes[at];
            assert(self@[at as int] == here@);
            match here.store.get(name) {
                Some(o) => {
                    return Some(o.clone());
                },
                None => {},
            }
            match here.outer {
                Some(o) => {
                    at = o;
                },
                None => {
                    return None;
                },
            }
        }
    }

    /// Binds `name` to `obj` in `scope`, and in no other.
    pub fn set(&mut self, scope: usize, name: &str, obj: Object)
        requires
            old(self).wf(),
            scope < old(self)@.len(),
        ensures
            final(self).wf(),
            final(self)@ == bind(old(self)@, scope as nat, name@, obj@),
    {
        let ghost before = self.scopes[scope as int]@;
        let ghost value = obj@;
        self.scopes[scope].store.insert(String::from_str(name), obj);
        assert(self.scopes[scope as int]@.store =~= before.store.insert(name@, value));
        assert(self@ =~= bind(old(self)@, scope as nat, name@, value));
    }
}

} // verus!
