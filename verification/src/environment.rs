//! The scopes that give names their meaning: a tree of frames, each with its
//! own bindings and a link to the frame around it.

use crate::object::{values_of, BuiltinFunction, EnvRef, Function, Object, Value};
use vstd::prelude::*;

verus! {

/// One scope as the contracts see it: the scope around it, if any, and what
/// it binds itself.
pub ghost struct Scope {
    pub parent: Option<int>,
    pub bindings: Map<Seq<char>, Value>,
}

/// The bindings made by giving `names[i]` the value `values[i]`, in order:
/// a later binding of a name replaces an earlier one.
pub open spec fn bindings_of(names: Seq<Seq<char>>, values: Seq<Value>) -> Map<Seq<char>, Value>
    decreases names.len(),
{
    if names.len() == 0 || values.len() != names.len() {
        Map::empty()
    } else {
        bindings_of(names.drop_last(), values.drop_last()).insert(names.last(), values.last())
    }
}

/// The value of `name` seen from scope `env`: the innermost binding on the
/// way outwards, `Nil` where there is none.
pub open spec fn lookup(scopes: Seq<Scope>, env: int, name: Seq<char>) -> Value
    decreases env,
{
    if !(0 <= env < scopes.len()) {
        Value::Nil
    } else if scopes[env].bindings.contains_key(name) {
        scopes[env].bindings[name]
    } else {
        match scopes[env].parent {
            Some(p) if 0 <= p < env => lookup(scopes, p, name),
            _ => Value::Nil,
        }
    }
}

/// The scopes after `name` is bound to `value` in scope `env` itself.
pub open spec fn with_binding(scopes: Seq<Scope>, env: int, name: Seq<char>, value: Value) -> Seq<
    Scope,
> {
    if 0 <= env < scopes.len() {
        scopes.update(
            env,
            Scope { parent: scopes[env].parent, bindings: scopes[env].bindings.insert(name, value) },
        )
    } else {
        scopes
    }
}

/// The scopes after an empty scope is opened inside `parent`. A `parent`
/// that names no scope leaves the new one without surroundings.
pub open spec fn with_child(scopes: Seq<Scope>, parent: int) -> Seq<Scope> {
    scopes.push(
        Scope {
            parent: if 0 <= parent < scopes.len() {
                Some(parent)
            } else {
                None
            },
            bindings: Map::empty(),
        },
    )
}

/// What the outermost scope binds before any program runs.
pub open spec fn native_bindings() -> Map<Seq<char>, Value> {
    Map::<Seq<char>, Value>::empty().insert("+"@, Value::Native(BuiltinFunction::Plus)).insert(
        "-"@,
        Value::Native(BuiltinFunction::Minus),
    ).insert("*"@, Value::Native(BuiltinFunction::Multiply)).insert(
        "list"@,
        Value::Native(BuiltinFunction::List),
    ).insert("cons"@, Value::Native(BuiltinFunction::Cons)).insert(
        "car"@,
        Value::Native(BuiltinFunction::Car),
    )
}

/// The scopes of a fresh environment: the outermost one alone.
pub open spec fn initial_scopes() -> Seq<Scope> {
    seq![Scope { parent: None, bindings: native_bindings() }]
}

spec fn names_of(names: Seq<String>) -> Seq<Seq<char>> {
    Seq::new(names.len(), |i: int| names[i]@)
}

spec fn distinct(names: Seq<Seq<char>>) -> bool {
    forall|i: int, j: int| 0 <= i < j < names.len() ==> names[i] != names[j]
}

proof fn lemma_bindings_absent(names: Seq<Seq<char>>, values: Seq<Value>, key: Seq<char>)
    requires
        names.len() == values.len(),
        forall|i: int| 0 <= i < names.len() ==> names[i] != key,
    ensures
        !bindings_of(names, values).contains_key(key),
    decreases names.len(),
{
    if names.len() > 0 {
        lemma_bindings_absent(names.drop_last(), values.drop_last(), key);
    }
}

proof fn lemma_bindings_present(names: Seq<Seq<char>>, values: Seq<Value>, i: int)
    requires
        names.len() == values.len(),
        distinct(names),
        0 <= i < names.len(),
    ensures
        bindings_of(names, values).contains_key(names[i]),
        bindings_of(names, values)[names[i]] == values[i],
    decreases names.len(),
{
    if i < names.len() - 1 {
        lemma_bindings_present(names.drop_last(), values.drop_last(), i);
    }
}

proof fn lemma_bindings_replace(names: Seq<Seq<char>>, values: Seq<Value>, i: int, value: Value)
    requires
        names.len() == values.len(),
        distinct(names),
        0 <= i < names.len(),
    ensures
        bindings_of(names, values.update(i, value)) == bindings_of(names, values).insert(
            names[i],
            value,
        ),
    decreases names.len(),
{
    let last: int = names.len() - 1;
    if i < last {
        lemma_bindings_replace(names.drop_last(), values.drop_last(), i, value);
        assert(values.update(i, value).drop_last() == values.drop_last().update(i, value));
        assert(bindings_of(names, values.update(i, value)) =~= bindings_of(names, values).insert(
            names[i],
            value,
        ));
    } else {
        assert(values.update(i, value).drop_last() == values.drop_last());
        assert(bindings_of(names, values.update(i, value)) =~= bindings_of(names, values).insert(
            names[i],
            value,
        ));
    }
}

proof fn lemma_bindings_push(
    names: Seq<Seq<char>>,
    values: Seq<Value>,
    key: Seq<char>,
    value: Value,
)
    requires
        names.len() == values.len(),
    ensures
        bindings_of(names.push(key), values.push(value)) == bindings_of(names, values).insert(
            key,
            value,
        ),
{
    assert(names.push(key).drop_last() == names);
    assert(values.push(value).drop_last() == values);
}

/// One scope: the names it binds, each once, and their values.
struct Frame {
    parent: Option<EnvRef>,
    names: Vec<String>,
    values: Vec<Object>,
}

impl Frame {
    /// Each name has its value, and no name stands twice.
    spec fn inv(&self) -> bool {
        &&& self.names.len() == self.values.len()
        &&& distinct(names_of(self.names@))
    }

    /// This scope as the contracts see it.
    spec fn scope(&self) -> Scope {
        Scope {
            parent: match self.parent {
                Some(p) => Some(p as int),
                None => None,
            },
            bindings: bindings_of(names_of(self.names@), values_of(self.values@)),
        }
    }

    /// Where `key` stands among the names, if it does.
    fn position(&self, key: &String) -> (r: Option<usize>)
        ensures
            match r {
                Some(i) => i < self.names.len() && self.names[i as int]@ == key@,
                None => forall|k: int| 0 <= k < self.names.len() ==> self.names[k]@ != key@,
            },
    {
        let mut i: usize = 0;
        while i < self.names.len()
            invariant
                i <= self.names.len(),
                forall|k: int| 0 <= k < i ==> self.names[k]@ != key@,
            decreases self.names.len() - i,
        {
            if self.names[i] == *key {
                return Some(i);
            }
            i += 1;
        }
        None
    }

    /// What this scope itself binds `key` to, if it binds it.
    fn find(&self, key: &String) -> (r: Option<Object>)
        requires
            self.inv(),
        ensures
            match r {
                Some(o) => self.scope().bindings.contains_key(key@) && o@
                    == self.scope().bindings[key@],
                None => !self.scope().bindings.contains_key(key@),
            },
    {
        match self.position(key) {
            Some(i) => {
                proof {
                    lemma_bindings_present(names_of(self.names@), values_of(self.values@), i as int);
                }
                Some(self.values[i].clone())
            },
            None => {
                proof {
                    lemma_bindings_absent(names_of(self.names@), values_of(self.values@), key@);
                }
                None
            },
        }
    }

    /// Binds `key` to `obj`, in place of what it was bound to.
    fn bind(&mut self, key: String, obj: Object)
        requires
            old(self).inv(),
        ensures
            final(self).inv(),
            final(self).parent == old(self).parent,
            final(self).scope().bindings == old(self).scope().bindings.insert(key@, obj@),
    {
        match self.position(&key) {
            Some(i) => {
                proof {
                    lemma_bindings_replace(
                        names_of(self.names@),
                        values_of(self.values@),
                        i as int,
                        obj@,
                    );
                    assert(values_of(self.values@.update(i as int, obj)) =~= values_of(
                        self.values@,
                    ).update(i as int, obj@));
                }
                self.values[i] = obj;
            },
            None => {
                proof {
                    lemma_bindings_push(
                        names_of(self.names@),
                        values_of(self.values@),
                        key@,
                        obj@,
                    );
                    assert(names_of(self.names@.push(key)) =~= names_of(self.names@).push(key@));
                    assert(values_of(self.values@.push(obj)) =~= values_of(self.values@).push(
                        obj@,
                    ));
                }
                self.names.push(key);
                self.values.push(obj);
            },
        }
    }
}

/// All the scopes of one session. An [`EnvRef`] names one of them; the
/// outermost is made with the environment and holds the native procedures.
pub struct Environment {
    frames: Vec<Frame>,
}

impl View for Environment {
    type V = Seq<Scope>;

    closed spec fn view(&self) -> Seq<Scope> {
        Seq::new(self.frames.len() as nat, |i: int| self.frames[i].scope())
    }
}

impl Environment {
    /// What holds of every environment: the outermost scope exists, and each
    /// scope lies inside one that was opened before it.
    pub closed spec fn wf(&self) -> bool {
        &&& self.frames.len() >= 1
        &&& forall|i: int| 0 <= i < self.frames.len() ==> (#[trigger] self.frames[i]).inv()
        &&& forall|i: int|
            0 <= i < self.frames.len() ==> match (#[trigger] self.frames[i]).parent {
                Some(p) => p < i,
                None => true,
            }
    }

    /// In the model of a well-formed environment each scope's surroundings
    /// were opened before it.
    pub proof fn lemma_parents_precede(&self)
        requires
            self.wf(),
        ensures
            self@.len() >= 1,
            scopes_ordered(self@),
    {
    }

    /// An environment with its outermost scope, which binds the native
    /// procedures to their names.
    pub fn new() -> (r: Environment)
        ensures
            r.wf(),
            r@ == initial_scopes(),
    {
        let mut root = Frame { parent: None, names: Vec::new(), values: Vec::new() };
        assert(root.scope().bindings =~= Map::<Seq<char>, Value>::empty());
        root.bind(String::from_str("+"), Object::Callable(Function::Native(BuiltinFunction::Plus)));
        root.bind(
            String::from_str("-"),
            Object::Callable(Function::Native(BuiltinFunction::Minus)),
        );
        root.bind(
            String::from_str("*"),
            Object::Callable(Function::Native(BuiltinFunction::Multiply)),
        );
        root.bind(
            String::from_str("list"),
            Object::Callable(Function::Native(BuiltinFunction::List)),
        );
        root.bind(
            String::from_str("cons"),
            Object::Callable(Function::Native(BuiltinFunction::Cons)),
        );
        root.bind(String::from_str("car"), Object::Callable(Function::Native(BuiltinFunction::Car)));
        let mut frames: Vec<Frame> = Vec::new();
        frames.push(root);
        let r = Environment { frames };
        assert(r@ =~= initial_scopes());
        r
    }

    /// The outermost scope.
    pub fn root(&self) -> (r: EnvRef)
        ensures
            r == 0,
    {
        0
    }

    /// How many scopes there are.
    pub fn len(&self) -> (r: usize)
        ensures
            r == self@.len(),
    {
        self.frames.len()
    }

    /// Opens an empty scope inside `parent` and returns its name.
    pub fn new_child(&mut self, parent: EnvRef) -> (r: EnvRef)
        requires
            old(self).wf(),
        ensures
            final(self).wf(),
            r == old(self)@.len(),
            final(self)@ == with_child(old(self)@, parent as int),
    {
        let index: usize = self.frames.len();
        let link = if parent < index {
            Some(parent)
        } else {
            None
        };
        let child = Frame { parent: link, names: Vec::new(), values: Vec::new() };
        assert(child.scope().bindings =~= Map::<Seq<char>, Value>::empty());
        self.frames.push(child);
        assert(self@ =~= with_child(old(self)@, parent as int));
        index
    }

    /// Binds `key` to `obj` in scope `env` itself, in place of what `key` was
    /// bound to there. No other scope changes. Fails where `env` names no
    /// scope.
    pub fn define(&mut self, env: EnvRef, key: String, obj: Object) -> (r: Result<Object, Object>)
        requires
            old(self).wf(),
        ensures
            final(self).wf(),
            final(self)@ == with_binding(old(self)@, env as int, key@, obj@),
            env < old(self)@.len() ==> r is Ok && r->Ok_0@ == Value::Nil,
            env >= old(self)@.len() ==> r is Err && r->Err_0@ == Value::Error(
                "unknown environment"@,
            ),
    {
        if env >= self.frames.len() {
            return Err(Object::new_error("unknown environment"));
        }
        self.frames[env].bind(key, obj);
        assert(self@ =~= with_binding(old(self)@, env as int, key@, obj@));
        Ok(Object::Nil)
    }

    /// The value of `key` seen from scope `env`: its innermost binding on the
    /// way outwards, `Nil` where nothing binds it.
    pub fn get(&self, env: EnvRef, key: &String) -> (r: Object)
        requires
            self.wf(),
        ensures
            r@ == lookup(self@, env as int, key@),
    {
        let mut cur: EnvRef = env;
        loop
            invariant
                self.wf(),
                lookup(self@, cur as int, key@) == lookup(self@, env as int, key@),
            decreases cur,
        {
            if cur >= self.frames.len() {
                return Object::Nil;
            }
            match self.frames[cur].find(key) {
                Some(found) => {
                    return found;
                },
                None => {
                    match self.frames[cur].parent {
                        Some(p) => {
                            cur = p;
                        },
                        None => {
                            return Object::Nil;
                        },
                    }
                },
            }
        }
    }
}

/// Each scope's surroundings, if it has any, were opened before it.
pub open spec fn scopes_ordered(scopes: Seq<Scope>) -> bool {
    forall|i: int|
        0 <= i < scopes.len() ==> match (#[trigger] scopes[i]).parent {
            Some(p) => 0 <= p < i,
            None => true,
        }
}

/// What a scope sees depends only on itself and on the scopes opened
/// before it: two environments that agree up to `env` give every name the
/// same value there.
pub proof fn lemma_lookup_agrees(a: Seq<Scope>, b: Seq<Scope>, env: int, name: Seq<char>)
    requires
        env < a.len(),
        env < b.len(),
        forall|i: int| 0 <= i <= env ==> a[i] == b[i],
    ensures
        lookup(a, env, name) == lookup(b, env, name),
    decreases env,
{
    if 0 <= env {
        match a[env].parent {
            Some(p) => {
                if 0 <= p < env {
                    lemma_lookup_agrees(a, b, p, name);
                }
            },
            None => {},
        }
    }
}

/// Scoping. After `name` is bound in a scope `child` that lies inside
/// `parent`, the child sees the new value, whatever the parent binds; and
/// the parent sees every name as before.
pub proof fn law_define_shadows(
    scopes: Seq<Scope>,
    child: int,
    parent: int,
    name: Seq<char>,
    value: Value,
    key: Seq<char>,
)
    requires
        scopes_ordered(scopes),
        0 <= child < scopes.len(),
        scopes[child].parent == Some(parent),
    ensures
        lookup(with_binding(scopes, child, name, value), child, name) == value,
        lookup(with_binding(scopes, child, name, value), parent, key) == lookup(
            scopes,
            parent,
            key,
        ),
{
    lemma_lookup_agrees(with_binding(scopes, child, name, value), scopes, parent, key);
}

/// A binding made in one scope is seen from the scopes inside it that do
/// not bind the name themselves, and other names keep their values there.
pub proof fn law_define_reaches_inner_scope(
    scopes: Seq<Scope>,
    child: int,
    parent: int,
    name: Seq<char>,
    value: Value,
    key: Seq<char>,
)
    requires
        scopes_ordered(scopes),
        0 <= child < scopes.len(),
        scopes[child].parent == Some(parent),
        !scopes[child].bindings.contains_key(name),
    ensures
        lookup(with_binding(scopes, parent, name, value), child, name) == value,
        key != name ==> lookup(with_binding(scopes, parent, name, value), child, key) == lookup(
            scopes,
            child,
            key,
        ),
{
    let after = with_binding(scopes, parent, name, value);
    assert(0 <= parent < child);
    assert(after[child] == scopes[child]);
    assert(lookup(after, parent, name) == value);
    if key != name {
        lemma_binding_keeps_other_names(scopes, parent, name, value, child, key);
    }
}

/// Binding `name` leaves every other name with the value it had, in every
/// scope.
pub proof fn lemma_binding_keeps_other_names(
    scopes: Seq<Scope>,
    env: int,
    name: Seq<char>,
    value: Value,
    from: int,
    key: Seq<char>,
)
    requires
        key != name,
    ensures
        lookup(with_binding(scopes, env, name, value), from, key) == lookup(scopes, from, key),
    decreases from,
{
    if 0 <= from < scopes.len() {
        match scopes[from].parent {
            Some(p) => {
                if 0 <= p < from {
                    lemma_binding_keeps_other_names(scopes, env, name, value, p, key);
                }
            },
            None => {},
        }
    }
}

/// Opening a scope changes nothing for the scopes that were there, and
/// the new scope sees what the one around it sees.
pub proof fn law_child_sees_parent(scopes: Seq<Scope>, parent: int, from: int, key: Seq<char>)
    requires
        0 <= parent < scopes.len(),
        0 <= from < scopes.len(),
    ensures
        lookup(with_child(scopes, parent), from, key) == lookup(scopes, from, key),
        lookup(with_child(scopes, parent), scopes.len() as int, key) == lookup(scopes, parent, key),
{
    lemma_lookup_agrees(with_child(scopes, parent), scopes, from, key);
    lemma_lookup_agrees(with_child(scopes, parent), scopes, parent, key);
}

} // verus!
