//! Names: how a chain of scopes resolves them.

use super::heap::State;
use super::value::{opt_val, Env, Scope, Val, Value, World};
use crate::name_map::lookup;
use vstd::prelude::*;
use vstd::string::*;

verus! {

/// What a name means in a scope: the innermost scope that binds it decides.
pub open spec fn resolved(w: World, env: Env, name: Seq<char>) -> Option<Val>
    decreases env,
{
    match lookup(w.scope(env).vars, name) {
        Some(b) => Some(b.value),
        None => match w.enclosing(env) {
            Some(p) => resolved(w, p, name),
            None => None,
        },
    }
}

/// Reassigning a name: the innermost scope that binds it gets the value. The
/// result is `Ok(true)`; `Ok(false)` where no scope binds the name, and `Err`
/// where it was bound with `val`, and then nothing changes.
pub open spec fn reassigned(w: World, env: Env, name: Seq<char>, value: Val) -> (
    Result<bool, ()>,
    World,
)
    decreases env,
{
    match lookup(w.scope(env).vars, name) {
        Some(b) => if b.is_val {
            (Err(()), w)
        } else {
            (Ok(true), w.with_var(env, name, value, false))
        },
        None => match w.enclosing(env) {
            Some(p) => reassigned(w, p, name, value),
            None => (Ok(false), w),
        },
    }
}

/// The outermost scope of a chain.
pub open spec fn outermost(w: World, env: Env) -> Env
    decreases env,
{
    match w.enclosing(env) {
        Some(p) => outermost(w, p),
        None => env,
    }
}

impl Scope {
    /// Open a scope with no scope around it.
    pub fn new_root(state: &mut State) -> (env: Env)
        ensures
            env == old(state)@.next_scope(),
            final(state)@ == old(state)@.add_scope(None),
    {
        state.new_scope(None)
    }

    /// Open a scope inside `parent`.
    pub fn child(state: &mut State, parent: Env) -> (env: Env)
        ensures
            env == old(state)@.next_scope(),
            final(state)@ == old(state)@.add_scope(Some(parent)),
    {
        state.new_scope(Some(parent))
    }
}

/// Bind a name in this very scope, in place of what it was bound to there.
pub fn env_define(state: &mut State, env: Env, name: &str, value: Value, is_val: bool)
    ensures
        final(state)@ == old(state)@.with_var(env, name@, value@, is_val),
{
    state.bind_var(env, name.to_owned(), value, is_val);
}

/// Resolve a name.
pub fn env_get(state: &State, env: Env, name: &str) -> (r: Option<Value>)
    ensures
        opt_val(r) == resolved(state@, env, name@),
{
    let mut at: Env = env;
    loop
        invariant
            resolved(state@, at, name@) == resolved(state@, env, name@),
        decreases at,
    {
        match state.binding(at, name) {
            Some(b) => {
                return Some(b.value.clone());
            },
            None => {},
        }
        match state.enclosing(at) {
            Some(p) => {
                at = p;
            },
            None => {
                return None;
            },
        }
    }
}

/// Reassign a name. `Ok(true)`: done; `Ok(false)`: no scope binds it; `Err`: it
/// is bound with `val`.
pub fn env_assign(state: &mut State, env: Env, name: &str, value: Value) -> (r: Result<bool, ()>)
    ensures
        (r, final(state)@) == reassigned(old(state)@, env, name@, value@),
{
    let mut at: Env = env;
    loop
        invariant
            state@ == old(state)@,
            reassigned(state@, at, name@, value@) == reassigned(state@, env, name@, value@),
        decreases at,
    {
        match state.binding(at, name) {
            Some(b) => {
                if b.is_val {
                    return Err(());
                }
                state.bind_var(at, name.to_owned(), value, false);
                return Ok(true);
            },
            None => {},
        }
        match state.enclosing(at) {
            Some(p) => {
                at = p;
            },
            None => {
                return Ok(false);
            },
        }
    }
}

/// The outermost scope of a chain.
pub fn root_of(state: &State, env: Env) -> (r: Env)
    ensures
        r == outermost(state@, env),
{
    let mut at: Env = env;
    loop
        invariant
            outermost(state@, at) == outermost(state@, env),
        decreases at,
    {
        match state.enclosing(at) {
            Some(p) => {
                at = p;
            },
            None => {
                return at;
            },
        }
    }
}

} // verus!
