//! Variable bindings, with a mark on each binding that is being resolved.

use vstd::prelude::*;
use crate::expr::{Expr, Term};

verus! {

/// The model of one binding.
pub struct Entry {
    pub name: Seq<char>,
    pub value: Term,
    /// The binding is being resolved along the current chain of lookups.
    pub busy: bool,
}

/// Index of the first binding of `n` at or after `i`, or -1.
pub open spec fn find_from(env: Seq<Entry>, n: Seq<char>, i: int) -> int
    decreases env.len() - i,
{
    if i < 0 || i >= env.len() {
        -1
    } else if env[i].name == n {
        i
    } else {
        find_from(env, n, i + 1)
    }
}

pub open spec fn lookup(env: Seq<Entry>, n: Seq<char>) -> int {
    find_from(env, n, 0)
}

/// Number of bindings that are not being resolved.
pub open spec fn idle(env: Seq<Entry>) -> nat
    decreases env.len(),
{
    if env.len() == 0 {
        0
    } else {
        idle(env.drop_last()) + if env.last().busy { 0nat } else { 1nat }
    }
}

/// The bindings with the `i`-th one marked as being resolved.
pub open spec fn mark(env: Seq<Entry>, i: int) -> Seq<Entry> {
    env.update(i, Entry { busy: true, ..env[i] })
}

/// The bindings after `n` is bound to `v`: the existing binding is replaced, else one is added.
pub open spec fn assign(env: Seq<Entry>, n: Seq<char>, v: Term) -> Seq<Entry> {
    let i = lookup(env, n);
    if i >= 0 {
        env.update(i, Entry { value: v, ..env[i] })
    } else {
        env.push(Entry { name: n, value: v, busy: false })
    }
}

pub proof fn lemma_find_range(env: Seq<Entry>, n: Seq<char>, i: int)
    ensures
        ({
            let j = find_from(env, n, i);
            j == -1 || (i <= j < env.len() && env[j].name == n)
        }),
    decreases env.len() - i,
{
    if 0 <= i < env.len() && env[i].name != n {
        lemma_find_range(env, n, i + 1);
    }
}

pub proof fn lemma_idle_mark(env: Seq<Entry>, i: int)
    requires
        0 <= i < env.len(),
        !env[i].busy,
    ensures
        idle(mark(env, i)) < idle(env),
    decreases env.len(),
{
    let m = mark(env, i);
    if i < env.len() - 1 {
        assert(m.drop_last() =~= mark(env.drop_last(), i));
        lemma_idle_mark(env.drop_last(), i);
    } else {
        assert(m.drop_last() =~= env.drop_last());
    }
}

pub struct Context {
    names: Vec<String>,
    values: Vec<Expr>,
    busy: Vec<bool>,
}

impl View for Context {
    type V = Seq<Entry>;

    closed spec fn view(&self) -> Seq<Entry> {
        Seq::new(
            self.names@.len(),
            |i: int| Entry { name: self.names@[i]@, value: self.values@[i].term(), busy: self.busy@[i] },
        )
    }
}

impl Context {
    /// Parallel vectors, every bound expression well formed.
    pub closed spec fn wf(&self) -> bool {
        &&& self.values@.len() == self.names@.len()
        &&& self.busy@.len() == self.names@.len()
        &&& forall|i: int| 0 <= i < self.values@.len() ==> #[trigger] self.values@[i].wf()
    }

    pub fn new() -> (r: Context)
        ensures
            r.wf(),
            r@ == Seq::<Entry>::empty(),
    {
        let r = Context { names: Vec::new(), values: Vec::new(), busy: Vec::new() };
        assert(r@ =~= Seq::<Entry>::empty());
        r
    }

    /// Index of the binding of `name`.
    pub fn find(&self, name: &String) -> (r: Option<usize>)
        requires
            self.wf(),
        ensures
            match r {
                Some(i) => lookup(self@, name@) == i as int,
                None => lookup(self@, name@) == -1,
            },
    {
        let mut i: usize = 0;
        while i < self.names.len()
            invariant
                self.wf(),
                i <= self.names@.len(),
                lookup(self@, name@) == find_from(self@, name@, i as int),
            decreases self.names@.len() - i,
        {
            if self.names[i] == *name {
                return Some(i);
            }
            i = i + 1;
        }
        None
    }

    /// A copy of the expression bound to `name`.
    pub fn get(&self, name: &String) -> (r: Option<Expr>)
        requires
            self.wf(),
        ensures
            ({
                let i = lookup(self@, name@);
                match r {
                    Some(e) => i >= 0 && e.wf() && e.term() == self@[i].value,
                    None => i == -1,
                }
            }),
    {
        proof {
            lemma_find_range(self@, name@, 0);
        }
        match self.find(name) {
            Some(i) => Some(self.values[i].duplicate()),
            None => None,
        }
    }

    /// Binds `name` to `value`, replacing an earlier binding.
    pub fn set(&mut self, name: String, value: Expr)
        requires
            old(self).wf(),
            value.wf(),
        ensures
            final(self).wf(),
            final(self)@ == assign(old(self)@, name@, value.term()),
    {
        proof {
            lemma_find_range(self@, name@, 0);
        }
        let ghost v = value.term();
        match self.find(&name) {
            Some(i) => {
                self.values.set(i, value);
                assert(self@ =~= assign(old(self)@, name@, v));
            },
            None => {
                self.names.push(name);
                self.values.push(value);
                self.busy.push(false);
                assert(self@ =~= assign(old(self)@, name@, v));
            },
        }
    }

    pub(crate) fn is_busy(&self, i: usize) -> (r: bool)
        requires
            self.wf(),
            i < self@.len(),
        ensures
            r == self@[i as int].busy,
    {
        self.busy[i]
    }

    pub(crate) fn value_of(&self, i: usize) -> (r: Expr)
        requires
            self.wf(),
            i < self@.len(),
        ensures
            r.wf(),
            r.term() == self@[i as int].value,
    {
        self.values[i].duplicate()
    }

    /// Marks or clears the `i`-th binding as being resolved.
    pub(crate) fn set_busy(&mut self, i: usize, b: bool)
        requires
            old(self).wf(),
            i < old(self)@.len(),
        ensures
            final(self).wf(),
            final(self)@ == old(self)@.update(i as int, Entry { busy: b, ..old(self)@[i as int] }),
    {
        self.busy.set(i, b);
        assert(self@ =~= old(self)@.update(i as int, Entry { busy: b, ..old(self)@[i as int] }));
    }
}

} // verus!
