//! Lexical environments: a store of scopes, each naming its encloser.

use crate::ast::Literal;
use crate::token::Token;
use vstd::prelude::*;
use vstd::string::StringExecFns;

verus! {

/// The mathematical value of one scope: the scope around it, if any, and
/// what its names are bound to.
pub ghost struct ScopeView {
    pub enclosing: Option<int>,
    pub bindings: Map<Seq<char>, Literal>,
}

/// One scope. A name occurs at most once in `names`; its value stands at
/// the same index in `values`.
pub struct Scope {
    enclosing: Option<usize>,
    names: Vec<String>,
    values: Vec<Literal>,
}

/// All scopes ever created, addressed by index. A function value keeps the
/// index of the scope it closed over, so a scope lives as long as the store:
/// scopes are shared by index, never copied, and never removed.
pub struct Environment {
    scopes: Vec<Scope>,
}

pub closed spec fn has_name(names: Seq<String>, key: Seq<char>) -> bool {
    exists|i: int| 0 <= i < names.len() && (#[trigger] names[i])@ == key
}

pub closed spec fn slot_of(names: Seq<String>, key: Seq<char>) -> int {
    choose|i: int| 0 <= i < names.len() && (#[trigger] names[i])@ == key
}

pub closed spec fn distinct(names: Seq<String>) -> bool {
    forall|i: int, j: int|
        0 <= i < j < names.len() ==> (#[trigger] names[i])@ != (#[trigger] names[j])@
}

impl Scope {
    pub closed spec fn view(&self) -> ScopeView {
        ScopeView {
            enclosing: match self.enclosing {
                Some(e) => Some(e as int),
                None => None,
            },
            bindings: Map::new(
                |key: Seq<char>| has_name(self.names@, key),
                |key: Seq<char>| self.values@[slot_of(self.names@, key)],
            ),
        }
    }

    pub closed spec fn consistent(&self) -> bool {
        &&& self.names@.len() == self.values@.len()
        &&& distinct(self.names@)
    }

    fn find(&self, name: &String) -> (found: Option<usize>)
        requires
            self.consistent(),
        ensures
            match found {
                Some(i) => i < self.names@.len() && self.names@[i as int]@ == name@
                    && self@.bindings.contains_key(name@) && self@.bindings[name@]
                    == self.values@[i as int],
                None => !self@.bindings.contains_key(name@) && forall|j: int|
                    0 <= j < self.names@.len() ==> (#[trigger] self.names@[j])@ != name@,
            },
    {
        let mut i: usize = 0;
        while i < self.names.len()
            invariant
                i <= self.names@.len(),
                self.consistent(),
                forall|j: int| 0 <= j < i ==> (#[trigger] self.names@[j])@ != name@,
            decreases self.names@.len() - i,
        {
            if self.names[i] == *name {
                proof {
                    let k = slot_of(self.names@, name@);
                    assert(self.names@[i as int]@ == name@);
                    assert(has_name(self.names@, name@));
                    assert(k == i);
                }
                return Some(i);
            }
            i += 1;
        }
        None
    }

    /// Binds `name` to `value`, replacing an earlier binding of the name.
    fn put(&mut self, name: String, value: Literal)
        requires
            old(self).consistent(),
        ensures
            final(self).consistent(),
            final(self)@.enclosing == old(self)@.enclosing,
            final(self)@.bindings == old(self)@.bindings.insert(name@, value),
    {
        let found = self.find(&name);
        let ghost names = self.names@;
        let ghost values = self.values@;
        match found {
            Some(i) => {
                self.values.set(i, value);
                proof {
                    let after = self.values@;
                    assert forall|key: Seq<char>| has_name(names, key) implies #[trigger] after[slot_of(
                        names,
                        key,
                    )] == (if key == name@ {
                        value
                    } else {
                        values[slot_of(names, key)]
                    }) by {
                        let k = slot_of(names, key);
                        assert(names[k]@ == key);
                        if key == name@ {
                            assert(names[i as int]@ == name@);
                            assert(k == i);
                        } else {
                            assert(k != i);
                        }
                    }
                    assert(has_name(names, name@)) by {
                        assert(names[i as int]@ == name@);
                    }
                    assert(self@.bindings =~= old(self)@.bindings.insert(name@, value));
                }
            },
            None => {
                self.names.push(name);
                self.values.push(value);
                proof {
                    let names2 = self.names@;
                    let values2 = self.values@;
                    let n = names.len() as int;
                    assert(names2[n]@ == name@);
                    assert forall|i: int, j: int| 0 <= i < j < names2.len() implies (#[trigger] names2[i])@
                        != (#[trigger] names2[j])@ by {
                        if j < n {
                            assert(names[i]@ != names[j]@);
                        } else {
                            assert(names[i]@ != name@);
                        }
                    }
                    assert forall|key: Seq<char>| has_name(names2, key) <==> (has_name(names, key)
                        || key == name@) by {
                        if has_name(names2, key) {
                            let k = slot_of(names2, key);
                            assert(names2[k]@ == key);
                            if k < n {
                                assert(names[k]@ == key);
                            }
                        }
                        if has_name(names, key) {
                            let k = slot_of(names, key);
                            assert(names2[k]@ == key);
                        }
                        if key == name@ {
                            assert(names2[n]@ == key);
                        }
                    }
                    assert forall|key: Seq<char>| has_name(names2, key) implies #[trigger] values2[slot_of(
                        names2,
                        key,
                    )] == (if key == name@ {
                        value
                    } else {
                        values[slot_of(names, key)]
                    }) by {
                        let k2 = slot_of(names2, key);
                        assert(names2[k2]@ == key);
                        if key == name@ {
                            if k2 < n {
                                assert(names[k2]@ != name@);
                            }
                            assert(k2 == n);
                        } else {
                            assert(k2 < n);
                            assert(names[k2]@ == key);
                            let k = slot_of(names, key);
                            assert(names[k]@ == key);
                            if k < k2 {
                                assert(names[k]@ != names[k2]@);
                            }
                            if k2 < k {
                                assert(names[k2]@ != names[k]@);
                            }
                        }
                    }
                    assert(self@.bindings =~= old(self)@.bindings.insert(name@, value));
                }
            },
        }
    }
}

/// Every scope's encloser, if it has one, was created before it.
pub open spec fn chained(scopes: Seq<ScopeView>) -> bool {
    forall|i: int|
        0 <= i < scopes.len() ==> match (#[trigger] scopes[i]).enclosing {
            Some(e) => 0 <= e < i,
            None => true,
        }
}

/// The scope in which `name` is found when the search starts at `scope`
/// and goes outwards.
pub open spec fn resolve(scopes: Seq<ScopeView>, scope: int, name: Seq<char>) -> Option<int>
    decreases scope,
{
    if scope < 0 || scope >= scopes.len() {
        None
    } else if scopes[scope].bindings.contains_key(name) {
        Some(scope)
    } else {
        match scopes[scope].enclosing {
            Some(e) => if 0 <= e < scope {
                resolve(scopes, e, name)
            } else {
                None
            },
            None => None,
        }
    }
}

/// What `name` is bound to as seen from `scope`.
pub open spec fn lookup(scopes: Seq<ScopeView>, scope: int, name: Seq<char>) -> Option<Literal> {
    match resolve(scopes, scope, name) {
        Some(holder) => Some(scopes[holder].bindings[name]),
        None => None,
    }
}

/// `scopes` with `name` bound to `value` in the scope `scope`.
pub open spec fn bind(scopes: Seq<ScopeView>, scope: int, name: Seq<char>, value: Literal) -> Seq<
    ScopeView,
> {
    scopes.update(
        scope,
        ScopeView {
            enclosing: scopes[scope].enclosing,
            bindings: scopes[scope].bindings.insert(name, value),
        },
    )
}

/// The text of the error for a name that no scope binds.
pub open spec fn undefined_message(name: Seq<char>) -> Seq<char> {
    "Undefined variable '"@ + name + "'."@
}

fn undefined(name: &str) -> (message: String)
    ensures
        message@ == undefined_message(name@),
{
    let mut message = String::from_str("Undefined variable '");
    message.append(name);
    message.append("'.");
    message
}

impl Environment {
    pub closed spec fn view(&self) -> Seq<ScopeView> {
        Seq::new(self.scopes@.len(), |i: int| self.scopes@[i]@)
    }

    pub closed spec fn consistent(&self) -> bool {
        forall|i: int| 0 <= i < self.scopes@.len() ==> (#[trigger] self.scopes@[i]).consistent()
    }

    /// The invariant every store keeps.
    pub open spec fn well_formed(&self) -> bool {
        &&& self.consistent()
        &&& self@.len() >= 1
        &&& chained(self@)
    }

    /// A store with one scope, the global one: index 0, no encloser, no
    /// bindings.
    pub fn new() -> (env: Environment)
        ensures
            env.well_formed(),
            env@.len() == 1,
            env@[0].enclosing.is_none(),
            env@[0].bindings == Map::<Seq<char>, Literal>::empty(),
    {
        let mut scopes: Vec<Scope> = Vec::new();
        let scope = Scope { enclosing: None, names: Vec::new(), values: Vec::new() };
        assert(scope@.bindings =~= Map::<Seq<char>, Literal>::empty());
        scopes.push(scope);
        Environment { scopes }
    }

    /// Number of scopes in the store.
    pub fn len(&self) -> (n: usize)
        ensures
            n == self@.len(),
    {
        self.scopes.len()
    }

    /// Adds an empty scope inside `enclosing` and returns its index.
    pub fn with_enclosing(&mut self, enclosing: usize) -> (scope: usize)
        requires
            old(self).well_formed(),
            enclosing < old(self)@.len(),
        ensures
            final(self).well_formed(),
            scope == old(self)@.len(),
            final(self)@ == old(self)@.push(
                ScopeView { enclosing: Some(enclosing as int), bindings: Map::empty() },
            ),
    {
        let scope = Scope { enclosing: Some(enclosing), names: Vec::new(), values: Vec::new() };
        assert(scope@.bindings =~= Map::<Seq<char>, Literal>::empty());
        let index = self.scopes.len();
        self.scopes.push(scope);
        assert(self@ =~= old(self)@.push(
            ScopeView { enclosing: Some(enclosing as int), bindings: Map::empty() },
        ));
        index
    }

    /// Binds `name` to `value` in `scope`, replacing what the scope bound it
    /// to before. No other scope changes.
    pub fn define(&mut self, scope: usize, name: String, value: Literal)
        requires
            old(self).well_formed(),
            scope < old(self)@.len(),
        ensures
            final(self).well_formed(),
            final(self)@ == bind(old(self)@, scope as int, name@, value),
    {
        self.scopes[scope].put(name, value);
        proof {
            assert(self@ =~= bind(old(self)@, scope as int, name@, value));
        }
    }

    /// Gives `name` a new value in the nearest scope, from `scope` outwards,
    /// that binds it. Where no scope binds it, nothing changes and the
    /// result is the error.
    pub fn assign(&mut self, scope: usize, name: &str, value: Literal) -> (r: Result<(), String>)
        requires
            old(self).well_formed(),
            scope < old(self)@.len(),
        ensures
            final(self).well_formed(),
            final(self)@ == assigned(old(self)@, scope as int, name@, value),
            match resolve(old(self)@, scope as int, name@) {
                Some(_) => r.is_ok(),
                None => r.is_err() && r.unwrap_err()@ == undefined_message(name@),
            },
    {
        let key = String::from_str(name);
        let mut current = scope;
        loop
            invariant
                self == old(self),
                self.well_formed(),
                current < self@.len(),
                key@ == name@,
                resolve(self@, current as int, name@) == resolve(self@, scope as int, name@),
            decreases current,
        {
            if self.scopes[current].find(&key).is_some() {
                self.define(current, key, value);
                return Ok(());
            }
            match self.scopes[current].enclosing {
                Some(e) => {
                    assert(self@[current as int].enclosing == Some(e as int));
                    current = e;
                },
                None => {
                    assert(self@[current as int].enclosing.is_none());
                    return Err(undefined(name));
                },
            }
        }
    }

    /// The value `name` is bound to in the nearest scope, from `scope`
    /// outwards, that binds it.
    pub fn get(&self, scope: usize, name: &Token) -> (r: Result<Literal, String>)
        requires
            self.well_formed(),
            scope < self@.len(),
        ensures
            match lookup(self@, scope as int, name.lexeme@) {
                Some(value) => r == Ok::<Literal, String>(value),
                None => r.is_err() && r.unwrap_err()@ == undefined_message(name.lexeme@),
            },
    {
        let mut current = scope;
        loop
            invariant
                self.well_formed(),
                current < self@.len(),
                resolve(self@, current as int, name.lexeme@) == resolve(
                    self@,
                    scope as int,
                    name.lexeme@,
                ),
            decreases current,
        {
            match self.scopes[current].find(&name.lexeme) {
                Some(i) => {
                    return Ok(self.scopes[current].values[i].clone());
                },
                None => {},
            }
            match self.scopes[current].enclosing {
                Some(e) => {
                    assert(self@[current as int].enclosing == Some(e as int));
                    current = e;
                },
                None => {
                    assert(self@[current as int].enclosing.is_none());
                    return Err(undefined(name.lexeme.as_str()));
                },
            }
        }
    }
}

/// Defining a name twice in one scope is no error and leaves the second
/// value: the first definition is overwritten.
pub proof fn law_define_overwrites(
    scopes: Seq<ScopeView>,
    scope: int,
    name: Seq<char>,
    first: Literal,
    second: Literal,
)
    requires
        chained(scopes),
        0 <= scope < scopes.len(),
    ensures
        bind(bind(scopes, scope, name, first), scope, name, second) == bind(
            scopes,
            scope,
            name,
            second,
        ),
        lookup(bind(scopes, scope, name, second), scope, name) == Some(second),
{
    assert(scopes[scope].bindings.insert(name, first).insert(name, second)
        =~= scopes[scope].bindings.insert(name, second));
    assert(bind(bind(scopes, scope, name, first), scope, name, second) =~= bind(
        scopes,
        scope,
        name,
        second,
    ));
}

/// What `assign` does to a store: it rebinds the name in the scope that
/// holds it, or changes nothing where no scope does.
pub open spec fn assigned(scopes: Seq<ScopeView>, scope: int, name: Seq<char>, value: Literal) -> Seq<
    ScopeView,
> {
    match resolve(scopes, scope, name) {
        Some(holder) => bind(scopes, holder, name, value),
        None => scopes,
    }
}

/// Assignment never creates a binding: afterwards every scope binds
/// exactly the names it bound before and has the encloser it had, and a
/// name that was bound is bound to the new value.
pub proof fn law_assign_creates_no_binding(
    scopes: Seq<ScopeView>,
    scope: int,
    name: Seq<char>,
    value: Literal,
)
    requires
        chained(scopes),
        0 <= scope < scopes.len(),
    ensures
        assigned(scopes, scope, name, value).len() == scopes.len(),
        forall|i: int|
            0 <= i < scopes.len() ==> (#[trigger] assigned(scopes, scope, name, value)[i]).bindings.dom()
                == scopes[i].bindings.dom() && assigned(scopes, scope, name, value)[i].enclosing
                == scopes[i].enclosing,
        resolve(scopes, scope, name) is Some ==> lookup(
            assigned(scopes, scope, name, value),
            scope,
            name,
        ) == Some(value),
        resolve(scopes, scope, name) is None ==> lookup(
            assigned(scopes, scope, name, value),
            scope,
            name,
        ) is None,
{
    match resolve(scopes, scope, name) {
        Some(holder) => {
            lemma_resolve_holds(scopes, scope, name);
            lemma_resolve_after_bind(scopes, scope, holder, name, value);
        },
        None => {},
    }
}

/// Rebinding a name in the scope that holds it does not change where a
/// search for that name ends.
proof fn lemma_resolve_after_bind(
    scopes: Seq<ScopeView>,
    scope: int,
    holder: int,
    name: Seq<char>,
    value: Literal,
)
    requires
        chained(scopes),
        0 <= scope < scopes.len(),
        resolve(scopes, scope, name) == Some(holder),
        0 <= holder < scopes.len(),
    ensures
        resolve(bind(scopes, holder, name, value), scope, name) == Some(holder),
        forall|i: int|
            0 <= i < scopes.len() ==> (#[trigger] bind(scopes, holder, name, value)[i]).bindings.dom()
                == scopes[i].bindings.dom() && bind(scopes, holder, name, value)[i].enclosing
                == scopes[i].enclosing,
    decreases scope,
{
    let after = bind(scopes, holder, name, value);
    assert(scopes[holder].bindings.contains_key(name)) by {
        lemma_resolve_holds(scopes, scope, name);
    }
    assert forall|i: int| 0 <= i < scopes.len() implies (#[trigger] after[i]).bindings.dom()
        == scopes[i].bindings.dom() && after[i].enclosing == scopes[i].enclosing by {
        if i == holder {
            assert(after[i].bindings.dom() =~= scopes[i].bindings.dom());
        }
    }
    if !scopes[scope].bindings.contains_key(name) {
        match scopes[scope].enclosing {
            Some(e) => {
                lemma_resolve_after_bind(scopes, e, holder, name, value);
            },
            None => {},
        }
    }
}

/// The scope a search ends in binds the name and lies at or outside the
/// scope the search began in.
pub proof fn lemma_resolve_holds(scopes: Seq<ScopeView>, scope: int, name: Seq<char>)
    ensures
        match resolve(scopes, scope, name) {
            Some(holder) => 0 <= holder <= scope && holder < scopes.len()
                && scopes[holder].bindings.contains_key(name),
            None => true,
        },
    decreases scope,
{
    if 0 <= scope < scopes.len() && !scopes[scope].bindings.contains_key(name) {
        match scopes[scope].enclosing {
            Some(e) => {
                if 0 <= e < scope {
                    lemma_resolve_holds(scopes, e, name);
                }
            },
            None => {},
        }
    }
}

} // verus!
