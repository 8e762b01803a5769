//! `match`: patterns and arms.

use super::env::env_define;
use super::heap::State;
use super::semantics::{all_matched, any_matched, arms_run, match_evaluated, match_run, matched};
use super::show::lit_matches;
use super::value::{fail, seen, vals, Env, Scope, Stop, Value};
use super::{finish_call, Flow, Interp};
use crate::ast::{MatchExpr, Pattern, PatternKind};
use crate::text::same_text;
use crate::token::Span;
use vstd::prelude::*;
use vstd::string::*;

verus! {

/// Try a pattern on a value, binding its names in `scope`.
pub fn try_match(state: &mut State, pat: &Pattern, v: &Value, scope: Env) -> (r: bool)
    ensures
        (r, final(state)@) == matched(*pat, v@, scope, old(state)@),
    decreases *pat, 0nat,
{
    match &pat.kind {
        PatternKind::Wildcard => true,
        PatternKind::Null => match v {
            Value::Null => true,
            _ => false,
        },
        PatternKind::Literal(lit) => lit_matches(lit, v),
        PatternKind::Binding(name) => {
            env_define(state, scope, name.as_str(), v.clone(), false);
            true
        },
        PatternKind::Variant { enum_name, name, subs } => match v {
            Value::Enum(e) => {
                assert(vals(e.payload@).len() == e.payload@.len());
                if let Some(n) = enum_name {
                    if !same_text(n.as_str(), e.enum_name.as_str()) {
                        return false;
                    }
                }
                if !same_text(e.variant.as_str(), name.as_str()) || subs.len() != e.payload.len() {
                    return false;
                }
                match_each(state, subs, &e.payload, scope)
            },
            _ => false,
        },
        PatternKind::Or(alts) => match_some(state, alts, v, scope),
        PatternKind::Tuple(elems) => match v {
            Value::Tuple(items) => {
                assert(vals(items@).len() == items@.len());
                if elems.len() != items.len() {
                    return false;
                }
                match_each(state, elems, items, scope)
            },
            _ => false,
        },
    }
}

fn match_each(state: &mut State, pats: &Vec<Pattern>, vs: &Vec<Value>, scope: Env) -> (r: bool)
    ensures
        (r, final(state)@) == all_matched(pats@, vals(vs@), 0, scope, old(state)@),
    decreases pats@, 1nat,
{
    let ghost start = state@;
    let mut i: usize = 0;
    while i < pats.len() && i < vs.len()
        invariant
            i <= pats.len(),
            start == old(state)@,
            all_matched(pats@, vals(vs@), i as nat, scope, state@) == all_matched(
                pats@,
                vals(vs@),
                0,
                scope,
                start,
            ),
        decreases pats.len() - i,
    {
        if !try_match(state, &pats[i], &vs[i], scope) {
            return false;
        }
        i = i + 1;
    }
    true
}

fn match_some(state: &mut State, pats: &Vec<Pattern>, v: &Value, scope: Env) -> (r: bool)
    ensures
        (r, final(state)@) == any_matched(pats@, v@, 0, scope, old(state)@),
    decreases pats@, 1nat,
{
    let ghost start = state@;
    let mut i: usize = 0;
    while i < pats.len()
        invariant
            i <= pats.len(),
            start == old(state)@,
            any_matched(pats@, v@, i as nat, scope, state@) == any_matched(
                pats@,
                v@,
                0,
                scope,
                start,
            ),
        decreases pats.len() - i,
    {
        if try_match(state, &pats[i], v, scope) {
            return true;
        }
        i = i + 1;
    }
    false
}

impl Interp {
    /// The value of a `match`.
    pub fn eval_match(&mut self, fuel: u64, m: &MatchExpr, span: Span, env: Env) -> (r: Result<
        Value,
        Stop,
    >)
        ensures
            final(self).cx() == old(self).cx(),
            (seen(r), final(self).state@) == match_evaluated(
                old(self).cx(),
                fuel as nat,
                *m,
                span,
                env,
                old(self).state@,
            ),
        decreases fuel, 5nat,
    {
        let flow = self.exec_match(fuel, m, span, env)?;
        finish_call(flow, "`break`/`continue` not allowed in a match arm", span)
    }

    /// Run a `match` and give the flow of the arm that runs.
    pub fn exec_match(&mut self, fuel: u64, m: &MatchExpr, span: Span, env: Env) -> (r:
        Result<Flow, Stop>)
        ensures
            final(self).cx() == old(self).cx(),
            (seen(r), final(self).state@) == match_run(
                old(self).cx(),
                fuel as nat,
                *m,
                span,
                env,
                old(self).state@,
            ),
        decreases fuel, 4nat,
    {
        let v = self.eval(fuel, &m.scrutinee, env)?;
        let ghost cx = self.cx();
        let ghost start = self.state@;
        let ghost cx0 = old(self).cx();
        let ghost w0 = old(self).state@;
        let mut i: usize = 0;
        while i < m.arms.len()
            invariant
                i <= m.arms.len(),
                cx == old(self).cx(),
                self.cx() == cx,
                arms_run(cx, fuel as nat, m.arms@, i as nat, v@, span, env, self.state@)
                    == match_run(cx, fuel as nat, *m, span, env, old(self).state@),
            decreases m.arms.len() - i,
        {
            let arm = &m.arms[i];
            let scope = Scope::child(&mut self.state, env);
            if try_match(&mut self.state, &arm.pattern, &v, scope) {
                let passed = match &arm.guard {
                    Some(guard) => self.eval_bool_cond(fuel, guard, scope)?,
                    None => true,
                };
                if passed {
                    return self.exec_stmts(fuel, &arm.body.stmts, scope);
                }
            }
            i = i + 1;
        }
        Err(fail("no match arm matched (non-exhaustive match)".to_owned(), span))
    }
}

} // verus!
