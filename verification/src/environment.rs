//! Variable scopes: each scope maps names to values, and may be enclosed in another.
//!
//! As a mathematical value an environment is the sequence of its scopes' maps, the
//! outermost first; a name declared without a value maps to `None`.
use crate::object::{ObjV, Object, RuntimeError};
use crate::scanner::{Token, TokenV};
use crate::text::str_eq;
use vstd::prelude::*;

verus! {

/// The bindings of one scope.
pub type Scope = Map<Seq<char>, Option<ObjV>>;

pub open spec fn opt_view(o: Option<Object>) -> Option<ObjV> {
    match o {
        Some(v) => Some(v@),
        None => None,
    }
}

/// The map of a scope's bindings, a later binding of a name replacing an earlier one.
pub open spec fn scope_map(vals: Seq<(String, Option<Object>)>) -> Scope
    decreases vals.len(),
{
    if vals.len() == 0 {
        Map::empty()
    } else {
        scope_map(vals.drop_last()).insert(vals.last().0@, opt_view(vals.last().1))
    }
}

/// The value that `name` has in the innermost scope that binds it; `None` where no scope
/// binds it, or where that scope binds it to no value.
pub open spec fn env_get(env: Seq<Scope>, name: Seq<char>) -> Option<ObjV>
    decreases env.len(),
{
    if env.len() == 0 {
        None
    } else if env.last().contains_key(name) {
        env.last()[name]
    } else {
        env_get(env.drop_last(), name)
    }
}

/// The environment with `name` bound to `value` in the innermost scope.
pub open spec fn env_define(env: Seq<Scope>, name: Seq<char>, value: Option<ObjV>) -> Seq<Scope> {
    if env.len() == 0 {
        env
    } else {
        env.update(env.len() - 1, env.last().insert(name, value))
    }
}

/// The environment with `name` given `value` in the innermost scope that binds it;
/// unchanged where no scope binds it.
pub open spec fn env_assign(env: Seq<Scope>, name: Seq<char>, value: ObjV) -> Seq<Scope>
    decreases env.len(),
{
    if env.len() == 0 {
        env
    } else if env.last().contains_key(name) {
        env.update(env.len() - 1, env.last().insert(name, Some(value)))
    } else {
        env_assign(env.drop_last(), name, value).push(env.last())
    }
}

/// Reading a variable just declared gives the value it was declared with.
pub proof fn lemma_get_after_define(env: Seq<Scope>, name: Seq<char>, value: Option<ObjV>)
    requires
        env.len() >= 1,
    ensures
        env_get(env_define(env, name, value), name) == value,
{
    assert(env_define(env, name, value).last() == env.last().insert(name, value));
}

/// Declaring a variable changes the value of no other name.
pub proof fn lemma_define_keeps_others(
    env: Seq<Scope>,
    name: Seq<char>,
    value: Option<ObjV>,
    other: Seq<char>,
)
    requires
        env.len() >= 1,
        other != name,
    ensures
        env_get(env_define(env, name, value), other) == env_get(env, other),
{
    let d = env_define(env, name, value);
    assert(d.drop_last() =~= env.drop_last());
}

/// Reading a variable just assigned gives the assigned value, where some scope binds it.
pub proof fn lemma_get_after_assign(env: Seq<Scope>, name: Seq<char>, value: ObjV)
    requires
        exists|i: int| 0 <= i < env.len() && (#[trigger] env[i]).contains_key(name),
    ensures
        env_get(env_assign(env, name, value), name) == Some(value),
    decreases env.len(),
{
    if !env.last().contains_key(name) {
        let i = choose|i: int| 0 <= i < env.len() && (#[trigger] env[i]).contains_key(name);
        assert(env.drop_last()[i].contains_key(name));
        lemma_get_after_assign(env.drop_last(), name, value);
        let a = env_assign(env, name, value);
        assert(a.drop_last() =~= env_assign(env.drop_last(), name, value));
    }
}

/// Assigning to a name that no scope binds changes nothing.
pub proof fn lemma_assign_unbound(env: Seq<Scope>, name: Seq<char>, value: ObjV)
    requires
        forall|i: int| 0 <= i < env.len() ==> !(#[trigger] env[i]).contains_key(name),
    ensures
        env_assign(env, name, value) == env,
    decreases env.len(),
{
    if env.len() > 0 {
        assert(!env[env.len() - 1].contains_key(name));
        assert forall|i: int| 0 <= i < env.drop_last().len() implies !(
        #[trigger] env.drop_last()[i]).contains_key(name) by {
            assert(env.drop_last()[i] == env[i]);
        }
        lemma_assign_unbound(env.drop_last(), name, value);
        assert(env.drop_last().push(env.last()) =~= env);
    }
}

/// A declaration in an inner scope hides the outer variable only while that scope lasts:
/// once the scope is left, the name reads as before.
pub proof fn lemma_shadow_then_leave(
    env: Seq<Scope>,
    name: Seq<char>,
    value: Option<ObjV>,
    other: Seq<char>,
)
    ensures
        env_define(env.push(Scope::empty()), name, value).drop_last() == env,
        env_get(env_define(env.push(Scope::empty()), name, value).drop_last(), other) == env_get(
            env,
            other,
        ),
{
    let inner = env.push(Scope::empty());
    assert(env_define(inner, name, value).drop_last() =~= env);
}

/// The scopes of an environment, from the outermost.
pub struct Environment {
    enclosing: Option<Box<Environment>>,
    values: Vec<(String, Option<Object>)>,
}

pub closed spec fn env_view(e: Environment) -> Seq<Scope>
    decreases e,
{
    match e.enclosing {
        None => seq![scope_map(e.values@)],
        Some(b) => env_view(*b).push(scope_map(e.values@)),
    }
}

impl View for Environment {
    type V = Seq<Scope>;

    open spec fn view(&self) -> Seq<Scope> {
        env_view(*self)
    }
}

pub proof fn lemma_env_view_len(e: Environment)
    ensures
        e@.len() >= 1,
    decreases e,
{
    if let Some(b) = e.enclosing {
        lemma_env_view_len(*b);
    }
}

proof fn lemma_scope_map_found(vals: Seq<(String, Option<Object>)>, i: int, k: Seq<char>)
    requires
        0 <= i < vals.len(),
        vals[i].0@ == k,
        forall|j: int| i < j < vals.len() ==> (#[trigger] vals[j]).0@ != k,
    ensures
        scope_map(vals).contains_key(k),
        scope_map(vals)[k] == opt_view(vals[i].1),
    decreases vals.len(),
{
    if i < vals.len() - 1 {
        lemma_scope_map_found(vals.drop_last(), i, k);
        assert(vals[vals.len() - 1].0@ != k);
    }
}

proof fn lemma_scope_map_absent(vals: Seq<(String, Option<Object>)>, k: Seq<char>)
    requires
        forall|j: int| 0 <= j < vals.len() ==> (#[trigger] vals[j]).0@ != k,
    ensures
        !scope_map(vals).contains_key(k),
    decreases vals.len(),
{
    if vals.len() > 0 {
        lemma_scope_map_absent(vals.drop_last(), k);
        assert(vals[vals.len() - 1].0@ != k);
    }
}

proof fn lemma_scope_map_update(
    vals: Seq<(String, Option<Object>)>,
    i: int,
    v: Option<Object>,
)
    requires
        0 <= i < vals.len(),
        forall|j: int| i < j < vals.len() ==> (#[trigger] vals[j]).0@ != vals[i].0@,
    ensures
        scope_map(vals.update(i, (vals[i].0, v))) =~= scope_map(vals).insert(vals[i].0@, opt_view(v)),
    decreases vals.len(),
{
    let u = vals.update(i, (vals[i].0, v));
    if i < vals.len() - 1 {
        lemma_scope_map_update(vals.drop_last(), i, v);
        assert(u.drop_last() =~= vals.drop_last().update(i, (vals[i].0, v)));
        assert(vals[vals.len() - 1].0@ != vals[i].0@);
    } else {
        assert(u.drop_last() =~= vals.drop_last());
    }
}

/// The index of the last binding of `name` in a scope's bindings.
fn find_binding(vals: &Vec<(String, Option<Object>)>, name: &str) -> (r: Option<usize>)
    ensures
        match r {
            Some(i) => i < vals@.len() && vals@[i as int].0@ == name@ && forall|j: int|
                i < j < vals@.len() ==> (#[trigger] vals@[j]).0@ != name@,
            None => forall|j: int| 0 <= j < vals@.len() ==> (#[trigger] vals@[j]).0@ != name@,
        },
{
    let mut i = vals.len();
    while i > 0
        invariant
            i <= vals@.len(),
            forall|j: int| i <= j < vals@.len() ==> (#[trigger] vals@[j]).0@ != name@,
        decreases i,
    {
        i -= 1;
        if str_eq(vals[i].0.as_str(), name) {
            return Some(i);
        }
    }
    None
}

impl Environment {
    /// The innermost scope is the map of `values`; the others are those of `enclosing`.
    proof fn lemma_split(&self)
        ensures
            self@.len() >= 1,
            self@.last() == scope_map(self.values@),
            match self.enclosing {
                None => self@.drop_last() =~= Seq::<Scope>::empty(),
                Some(b) => self@.drop_last() == b@,
            },
    {
        lemma_env_view_len(*self);
        match self.enclosing {
            None => {
                assert(self@ == seq![scope_map(self.values@)]);
            },
            Some(b) => {
                assert(self@ == b@.push(scope_map(self.values@)));
                assert(self@.drop_last() =~= b@);
            },
        }
    }

    /// An environment of one empty scope.
    pub fn new() -> (r: Self)
        ensures
            r@ == seq![Scope::empty()],
    {
        let r = Self { enclosing: None, values: Vec::new() };
        assert(scope_map(r.values@) =~= Scope::empty());
        r
    }

    /// An environment with an empty scope inside `enclosing`.
    pub fn new_with_enclosing(enclosing: Environment) -> (r: Self)
        ensures
            r@ == enclosing@.push(Scope::empty()),
    {
        let r = Self { enclosing: Some(Box::new(enclosing)), values: Vec::new() };
        assert(scope_map(r.values@) =~= Scope::empty());
        r
    }

    /// The environment that encloses the innermost scope.
    pub fn into_enclosing(self) -> (r: Self)
        requires
            self@.len() > 1,
        ensures
            r@ == self@.drop_last(),
    {
        match self.enclosing {
            Some(b) => *b,
            None => {
                assert(self@.len() == 1);
                Environment::new()
            },
        }
    }

    /// The value of the variable that a token names; an error for a token that is no
    /// identifier.
    pub fn get_token(&self, name: &Token) -> (r: Result<Option<Object>, RuntimeError>)
        ensures
            match name@ {
                TokenV::Identifier(s) => r matches Ok(v) && opt_view(v) == env_get(self@, s),
                _ => r == Err::<Option<Object>, RuntimeError>(RuntimeError::NotAnIdentifier),
            },
    {
        match name {
            Token::Identifier(s) => Ok(self.get(s.as_str())),
            _ => Err(RuntimeError::NotAnIdentifier),
        }
    }

    /// The value of the variable `name`.
    pub fn get(&self, name: &str) -> (r: Option<Object>)
        ensures
            opt_view(r) == env_get(self@, name@),
        decreases self,
    {
        proof {
            self.lemma_split();
        }
        match find_binding(&self.values, name) {
            Some(i) => {
                proof {
                    lemma_scope_map_found(self.values@, i as int, name@);
                    assert(env_get(self@, name@) == opt_view(self.values@[i as int].1));
                }
                let r = match &self.values[i].1 {
                    Some(v) => Some(v.duplicate()),
                    None => None,
                };
                assert(opt_view(r) == opt_view(self.values@[i as int].1));
                r
            },
            None => {
                proof {
                    lemma_scope_map_absent(self.values@, name@);
                    assert(env_get(self@, name@) == env_get(self@.drop_last(), name@));
                }
                match &self.enclosing {
                    Some(env) => env.get(name),
                    None => None,
                }
            },
        }
    }

    /// Declares the variable that a token names, in the innermost scope, with `value`;
    /// no change for a token that is no identifier.
    pub fn set(&mut self, name: &Token, value: Option<Object>)
        ensures
            final(self)@ == (match name@ {
                TokenV::Identifier(s) => env_define(old(self)@, s, opt_view(value)),
                _ => old(self)@,
            }),
    {
        if let Token::Identifier(s) = name {
            let ghost before = self.values@;
            self.values.push((s.clone(), value));
            assert(self.values@.drop_last() =~= before);
            proof {
                if let Some(b) = &self.enclosing {
                    lemma_env_view_len(**b);
                }
            }
        }
    }

    /// Gives `value` to the variable `name` in the innermost scope that binds it; no change
    /// where no scope binds it.
    pub fn assign(&mut self, name: &str, value: Object)
        ensures
            final(self)@ == env_assign(old(self)@, name@, value@),
        decreases old(self)@.len(),
    {
        proof {
            self.lemma_split();
        }
        match find_binding(&self.values, name) {
            Some(i) => {
                let key = self.values[i].0.clone();
                proof {
                    lemma_scope_map_found(self.values@, i as int, name@);
                    lemma_scope_map_update(self.values@, i as int, Some(value));
                }
                let ghost old_env = self@;
                let ghost new_value = value@;
                self.values.set(i, (key, Some(value)));
                proof {
                    self.lemma_split();
                    assert(self@ =~= old_env.update(
                        old_env.len() - 1,
                        old_env.last().insert(name@, Some(new_value)),
                    ));
                    assert(self@ == env_assign(old_env, name@, new_value));
                }
            },
            None => {
                proof {
                    lemma_scope_map_absent(self.values@, name@);
                }
                let ghost old_env = self@;
                let ghost v = value@;
                match self.enclosing.take() {
                    Some(mut env) => {
                        assert(env@ == old_env.drop_last());
                        env.assign(name, value);
                        assert(env@ == env_assign(old_env.drop_last(), name@, v));
                        self.enclosing = Some(env);
                        proof {
                            self.lemma_split();
                        }
                        assert(self@ =~= env_assign(old_env.drop_last(), name@, v).push(
                            old_env.last(),
                        ));
                        assert(!old_env.last().contains_key(name@));
                        assert(self@ == env_assign(old_env, name@, v));
                    },
                    None => {
                        proof {
                            self.lemma_split();
                        }
                        assert(self@ =~= old_env);
                        assert(old_env.drop_last().len() == 0);
                        assert(env_assign(old_env.drop_last(), name@, v) == old_env.drop_last());
                        assert(env_assign(old_env, name@, v) =~= old_env);
                    },
                }
            },
        }
    }
}

} // verus!
