//! Where evaluation keeps what it changes.

use super::value::{
    clone_values, lemma_vals_empty, lemma_vals_push, opt_val, vals, Binding, Env, Scope,
    StructInstance, StructVal, Val, Value, World, ScopeVal,
};
use crate::name_map::{lookup, NameMap};
use crate::token::Span;
use vstd::prelude::*;

verus! {

broadcast use {lemma_vals_push, lemma_vals_empty};

/// A printed line and the call that printed it.
#[derive(Debug)]
pub struct Line {
    pub text: String,
    pub span: Span,
}

/// All that evaluation changes.
#[derive(Debug)]
pub struct State {
    lists: Vec<Vec<Value>>,
    maps: Vec<Vec<(Value, Value)>>,
    sets: Vec<Vec<Value>>,
    structs: Vec<StructInstance>,
    scopes: Vec<Scope>,
    out: Vec<Line>,
    propagating: Option<Value>,
}

/// What each pair of a sequence says.
pub open spec fn pair_vals(ps: Seq<(Value, Value)>) -> Seq<(Val, Val)> {
    Seq::new(ps.len(), |i: int| (ps[i].0@, ps[i].1@))
}

spec fn lists_view(vs: Seq<Vec<Value>>) -> Seq<Seq<Val>> {
    Seq::new(vs.len(), |i: int| vals(vs[i]@))
}

spec fn maps_view(ms: Seq<Vec<(Value, Value)>>) -> Seq<Seq<(Val, Val)>> {
    Seq::new(ms.len(), |i: int| pair_vals(ms[i]@))
}

spec fn structs_view(ss: Seq<StructInstance>) -> Seq<StructVal> {
    Seq::new(ss.len(), |i: int| ss[i]@)
}

spec fn scopes_view(ss: Seq<Scope>) -> Seq<ScopeVal> {
    Seq::new(ss.len(), |i: int| ss[i]@)
}

/// What each printed line says.
pub open spec fn lines_view(ls: Seq<Line>) -> Seq<(Seq<char>, Span)> {
    Seq::new(ls.len(), |i: int| (ls[i].text@, ls[i].span))
}

impl View for State {
    type V = World;

    closed spec fn view(&self) -> World {
        World {
            lists: lists_view(self.lists@),
            maps: maps_view(self.maps@),
            sets: lists_view(self.sets@),
            structs: structs_view(self.structs@),
            scopes: scopes_view(self.scopes@),
            out: lines_view(self.out@),
            propagating: opt_val(self.propagating),
        }
    }
}

impl State {
    pub fn new() -> (r: Self)
        ensures
            r@ == World::fresh(),
    {
        let r = State {
            lists: Vec::new(),
            maps: Vec::new(),
            sets: Vec::new(),
            structs: Vec::new(),
            scopes: Vec::new(),
            out: Vec::new(),
            propagating: None,
        };
        assert(r@.lists =~= World::fresh().lists);
        assert(r@.maps =~= World::fresh().maps);
        assert(r@.sets =~= World::fresh().sets);
        assert(r@.structs =~= World::fresh().structs);
        assert(r@.scopes =~= World::fresh().scopes);
        assert(r@.out =~= World::fresh().out);
        r
    }

    /// Keep a new list.
    pub fn new_list(&mut self, items: Vec<Value>) -> (at: usize)
        ensures
            final(self)@ == old(self)@.add_list(vals(items@)),
            at == old(self)@.next_list(),
    {
        let at = self.lists.len();
        let ghost was = self@;
        self.lists.push(items);
        assert(self@.lists =~= was.lists.push(vals(items@)));
        at
    }

    /// Keep a new map.
    pub fn new_map(&mut self, pairs: Vec<(Value, Value)>) -> (at: usize)
        ensures
            final(self)@ == old(self)@.add_map(pair_vals(pairs@)),
            at == old(self)@.next_map(),
    {
        let at = self.maps.len();
        let ghost was = self@;
        self.maps.push(pairs);
        assert(self@.maps =~= was.maps.push(pair_vals(pairs@)));
        at
    }

    /// Keep a new set.
    pub fn new_set(&mut self, items: Vec<Value>) -> (at: usize)
        ensures
            final(self)@ == old(self)@.add_set(vals(items@)),
            at == old(self)@.next_set(),
    {
        let at = self.sets.len();
        let ghost was = self@;
        self.sets.push(items);
        assert(self@.sets =~= was.sets.push(vals(items@)));
        at
    }

    /// Keep a new struct instance.
    pub fn new_struct(&mut self, inst: StructInstance) -> (at: usize)
        ensures
            final(self)@ == old(self)@.add_struct(inst@),
            at == old(self)@.next_struct(),
    {
        let at = self.structs.len();
        let ghost was = self@;
        self.structs.push(inst);
        assert(self@.structs =~= was.structs.push(inst@));
        at
    }

    /// Keep a new empty scope.
    pub fn new_scope(&mut self, parent: Option<Env>) -> (env: Env)
        ensures
            final(self)@ == old(self)@.add_scope(parent),
            env == old(self)@.next_scope(),
    {
        let env = self.scopes.len();
        let ghost was = self@;
        self.scopes.push(Scope { vars: NameMap::new(), parent });
        assert(self@.scopes =~= was.add_scope(parent).scopes);
        env
    }

    /// The list at a place; none where there is no such place.
    pub fn list(&self, at: usize) -> (r: Option<&Vec<Value>>)
        ensures
            match r {
                Some(items) => vals(items@) == self@.list(at),
                None => self@.list(at) == Seq::<Val>::empty(),
            },
    {
        if at < self.lists.len() {
            Some(&self.lists[at])
        } else {
            None
        }
    }

    /// The set at a place; none where there is no such place.
    pub fn set(&self, at: usize) -> (r: Option<&Vec<Value>>)
        ensures
            match r {
                Some(items) => vals(items@) == self@.set(at),
                None => self@.set(at) == Seq::<Val>::empty(),
            },
    {
        if at < self.sets.len() {
            Some(&self.sets[at])
        } else {
            None
        }
    }

    /// The map at a place; none where there is no such place.
    pub fn map(&self, at: usize) -> (r: Option<&Vec<(Value, Value)>>)
        ensures
            match r {
                Some(pairs) => pair_vals(pairs@) == self@.map(at),
                None => self@.map(at) == Seq::<(Val, Val)>::empty(),
            },
    {
        if at < self.maps.len() {
            Some(&self.maps[at])
        } else {
            None
        }
    }

    /// The struct instance at a place; none where there is no such place.
    pub fn instance(&self, at: usize) -> (r: Option<&StructInstance>)
        ensures
            match r {
                Some(inst) => inst@ == self@.instance(at),
                None => self@.instance(at).name == Seq::<char>::empty() && self@.instance(
                    at,
                ).fields == Seq::<(Seq<char>, Val)>::empty() && self@.instance(at).order == Seq::<
                    Seq<char>,
                >::empty(),
            },
    {
        if at < self.structs.len() {
            Some(&self.structs[at])
        } else {
            None
        }
    }

    /// The number of items of a list.
    pub fn list_len(&self, at: usize) -> (r: usize)
        ensures
            r == self@.list(at).len(),
    {
        match self.list(at) {
            Some(items) => {
                assert(vals(items@).len() == items@.len());
                items.len()
            },
            None => 0,
        }
    }

    /// A copy of the items of a list.
    pub fn list_items(&self, at: usize) -> (r: Vec<Value>)
        ensures
            vals(r@) == self@.list(at),
    {
        match self.list(at) {
            Some(items) => clone_values(items),
            None => Vec::new(),
        }
    }

    /// A copy of the items of a set.
    pub fn set_items(&self, at: usize) -> (r: Vec<Value>)
        ensures
            vals(r@) == self@.set(at),
    {
        match self.set(at) {
            Some(items) => clone_values(items),
            None => Vec::new(),
        }
    }

    /// A copy of the pairs of a map.
    pub fn map_pairs(&self, at: usize) -> (r: Vec<(Value, Value)>)
        ensures
            pair_vals(r@) == self@.map(at),
    {
        match self.map(at) {
            Some(pairs) => clone_pairs(pairs),
            None => {
                let r: Vec<(Value, Value)> = Vec::new();
                assert(pair_vals(r@) =~= Seq::<(Val, Val)>::empty());
                r
            },
        }
    }

    /// Put these items in place of the items of a list.
    pub fn set_list(&mut self, at: usize, items: Vec<Value>)
        ensures
            final(self)@ == old(self)@.with_list(at, vals(items@)),
    {
        let ghost was = self@;
        if at < self.lists.len() {
            self.lists[at] = items;
            assert(self@.lists =~= was.lists.update(at as int, vals(items@)));
        }
    }

    /// Put a value in place of an item of a list.
    pub fn set_item(&mut self, at: usize, i: usize, v: Value)
        requires
            i < old(self)@.list(at).len(),
        ensures
            final(self)@ == old(self)@.with_list(at, old(self)@.list(at).update(i as int, v@)),
    {
        let ghost was = self@;
        if at < self.lists.len() {
            self.lists[at][i] = v;
            assert(vals(self.lists@[at as int]@) =~= was.list(at).update(i as int, v@));
            assert(self@.lists =~= was.lists.update(
                at as int,
                was.list(at).update(i as int, v@),
            ));
        }
    }

    /// Put a value at the end of a list.
    pub fn push_item(&mut self, at: usize, v: Value)
        ensures
            final(self)@ == old(self)@.with_list(at, old(self)@.list(at).push(v@)),
    {
        let ghost was = self@;
        if at < self.lists.len() {
            self.lists[at].push(v);
            assert(self@.lists =~= was.lists.update(at as int, was.list(at).push(v@)));
        }
    }

    /// Take the last item of a list out of it.
    pub fn pop_item(&mut self, at: usize) -> (r: Option<Value>)
        ensures
            match r {
                Some(v) => old(self)@.list(at).len() > 0 && v@ == old(self)@.list(at).last()
                    && final(self)@ == old(self)@.with_list(
                    at,
                    old(self)@.list(at).drop_last(),
                ),
                None => old(self)@.list(at).len() == 0 && final(self)@ == old(self)@,
            },
    {
        let ghost was = self@;
        if at < self.lists.len() {
            assert(was.list(at) == vals(self.lists@[at as int]@));
            let r = self.lists[at].pop();
            proof {
                match &r {
                    Some(_) => {
                        assert(vals(self.lists@[at as int]@) =~= was.list(at).drop_last());
                        assert(self@.lists =~= was.lists.update(
                            at as int,
                            was.list(at).drop_last(),
                        ));
                    },
                    None => {
                        assert(self@.lists =~= was.lists);
                    },
                }
            }
            r
        } else {
            None
        }
    }

    /// Put these items in place of the items of a set.
    pub fn set_set(&mut self, at: usize, items: Vec<Value>)
        ensures
            final(self)@ == old(self)@.with_set(at, vals(items@)),
    {
        let ghost was = self@;
        if at < self.sets.len() {
            self.sets[at] = items;
            assert(self@.sets =~= was.sets.update(at as int, vals(items@)));
        }
    }

    /// Put these pairs in place of the pairs of a map.
    pub fn set_map(&mut self, at: usize, pairs: Vec<(Value, Value)>)
        ensures
            final(self)@ == old(self)@.with_map(at, pair_vals(pairs@)),
    {
        let ghost was = self@;
        if at < self.maps.len() {
            self.maps[at] = pairs;
            assert(self@.maps =~= was.maps.update(at as int, pair_vals(pairs@)));
        }
    }

    /// Set a field of a struct instance.
    pub fn set_field(&mut self, at: usize, name: String, value: Value)
        ensures
            final(self)@ == old(self)@.with_field(at, name@, value@),
    {
        let ghost was = self@;
        if at < self.structs.len() {
            self.structs[at].fields.insert(name, value);
            assert(self@.structs =~= was.with_field(at, name@, value@).structs);
        }
    }

    /// What a name is bound to in this very scope.
    pub fn binding(&self, env: Env, name: &str) -> (r: Option<&Binding>)
        ensures
            match r {
                Some(b) => lookup(self@.scope(env).vars, name@) == Some(b@),
                None => lookup(self@.scope(env).vars, name@) is None,
            },
    {
        if env < self.scopes.len() {
            assert(self@.scopes[env as int] == self.scopes@[env as int]@);
            self.scopes[env].vars.get(name)
        } else {
            None
        }
    }

    /// The scope around a scope.
    pub fn enclosing(&self, env: Env) -> (r: Option<Env>)
        ensures
            r == self@.enclosing(env),
    {
        if env < self.scopes.len() {
            assert(self@.scopes[env as int] == self.scopes@[env as int]@);
            match self.scopes[env].parent {
                Some(p) => if p < env {
                    Some(p)
                } else {
                    None
                },
                None => None,
            }
        } else {
            None
        }
    }

    /// Bind a name in this very scope.
    pub fn bind_var(&mut self, env: Env, name: String, value: Value, is_val: bool)
        ensures
            final(self)@ == old(self)@.with_var(env, name@, value@, is_val),
    {
        let ghost was = self@;
        if env < self.scopes.len() {
            self.scopes[env].vars.insert(name, Binding { value, is_val });
            assert(self@.scopes =~= was.with_var(env, name@, value@, is_val).scopes);
        }
    }

    /// Print a line.
    pub fn print_line(&mut self, text: String, span: Span)
        ensures
            final(self)@ == old(self)@.with_line(text@, span),
    {
        let ghost was = self@;
        self.out.push(Line { text, span });
        assert(self@.out =~= was.out.push((text@, span)));
    }

    /// Send a value on its way to the nearest call.
    pub fn propagate(&mut self, v: Value)
        ensures
            final(self)@ == old(self)@.with_propagating(Some(v@)),
    {
        self.propagating = Some(v);
    }

    /// Take the value that is on its way, if any.
    pub fn take_propagating(&mut self) -> (r: Option<Value>)
        ensures
            opt_val(r) == old(self)@.propagating,
            final(self)@ == old(self)@.with_propagating(None),
    {
        let mut taken: Option<Value> = None;
        std::mem::swap(&mut taken, &mut self.propagating);
        taken
    }

    /// The printed lines.
    pub fn lines(self) -> (r: Vec<Line>)
        ensures
            lines_view(r@) == self@.out,
    {
        self.out
    }
}

/// Copy a vector of pairs.
pub fn clone_pairs(ps: &Vec<(Value, Value)>) -> (r: Vec<(Value, Value)>)
    ensures
        pair_vals(r@) == pair_vals(ps@),
{
    let mut out: Vec<(Value, Value)> = Vec::new();
    let mut i: usize = 0;
    while i < ps.len()
        invariant
            i <= ps.len(),
            out@.len() == i,
            forall|j: int|
                0 <= j < i ==> (#[trigger] out@[j]).0@ == ps@[j].0@ && out@[j].1@ == ps@[j].1@,
        decreases ps.len() - i,
    {
        out.push((ps[i].0.clone(), ps[i].1.clone()));
        i = i + 1;
    }
    assert(pair_vals(out@) =~= pair_vals(ps@));
    out
}

} // verus!
