use vstd::prelude::*;

use crate::value::{same_chars, Value, ValueModel};

verus! {

/// A name bound to a value.
pub struct Binding {
    pub name: Vec<char>,
    pub value: Value,
}

/// The chain of scopes, innermost last, kept as one arena: every binding in
/// order of creation, and where each scope opened inside the outermost one
/// starts. A binding made later shadows an earlier one of the same name, so
/// that a lookup walks the chain from the innermost scope outwards.
pub struct Environment {
    bindings: Vec<Binding>,
    marks: Vec<usize>,
}

/// The mathematical model of the scope chain.
pub struct EnvModel {
    pub bindings: Seq<(Seq<char>, ValueModel)>,
    pub marks: Seq<int>,
}

pub open spec fn binding_models(v: Seq<Binding>) -> Seq<(Seq<char>, ValueModel)> {
    v.map_values(|b: Binding| (b.name@, b.value@))
}

/// The last position in `[lo, hi)` bound to `name`, or -1.
pub open spec fn find_last(s: Seq<(Seq<char>, ValueModel)>, lo: int, hi: int, name: Seq<char>) -> int
    decreases hi - lo,
{
    if hi <= lo {
        -1
    } else if s[hi - 1].0 == name {
        hi - 1
    } else {
        find_last(s, lo, hi - 1, name)
    }
}

/// Where the innermost scope starts.
pub open spec fn scope_start(env: EnvModel) -> int {
    if env.marks.len() == 0 {
        0
    } else {
        env.marks.last()
    }
}

/// The value of `name` in the innermost scope that binds it.
pub open spec fn lookup(env: EnvModel, name: Seq<char>) -> Option<ValueModel> {
    let i = find_last(env.bindings, 0, env.bindings.len() as int, name);
    if i < 0 {
        None
    } else {
        Some(env.bindings[i].1)
    }
}

/// Binds `name` in the innermost scope, replacing a binding of it there.
pub open spec fn define(env: EnvModel, name: Seq<char>, v: ValueModel) -> EnvModel {
    let i = find_last(env.bindings, scope_start(env), env.bindings.len() as int, name);
    EnvModel {
        bindings: if i < 0 {
            env.bindings.push((name, v))
        } else {
            env.bindings.update(i, (name, v))
        },
        marks: env.marks,
    }
}

/// Rebinds `name` in the innermost scope that binds it; `None` where no
/// scope does.
pub open spec fn assign(env: EnvModel, name: Seq<char>, v: ValueModel) -> Option<EnvModel> {
    let i = find_last(env.bindings, 0, env.bindings.len() as int, name);
    if i < 0 {
        None
    } else {
        Some(EnvModel { bindings: env.bindings.update(i, (name, v)), marks: env.marks })
    }
}

/// Opens a scope inside the innermost one.
pub open spec fn push_scope(env: EnvModel) -> EnvModel {
    EnvModel { bindings: env.bindings, marks: env.marks.push(env.bindings.len() as int) }
}

/// Closes the innermost scope, dropping its bindings; the outermost scope is
/// never closed.
pub open spec fn pop_scope(env: EnvModel) -> EnvModel {
    if env.marks.len() == 0 {
        env
    } else {
        EnvModel { bindings: env.bindings.take(env.marks.last()), marks: env.marks.drop_last() }
    }
}

pub open spec fn env_wf(env: EnvModel) -> bool {
    &&& forall|i: int| 0 <= i < env.marks.len() ==> 0 <= #[trigger] env.marks[i] <= env.bindings.len()
    &&& forall|i: int, j: int| 0 <= i <= j < env.marks.len() ==> env.marks[i] <= env.marks[j]
}

proof fn lemma_find_last(s: Seq<(Seq<char>, ValueModel)>, lo: int, hi: int, name: Seq<char>)
    requires
        0 <= lo,
        hi <= s.len(),
    ensures
        find_last(s, lo, hi, name) == -1 || (lo <= find_last(s, lo, hi, name) < hi && s[find_last(
            s,
            lo,
            hi,
            name,
        )].0 == name),
    decreases hi - lo,
{
    if hi > lo && s[hi - 1].0 != name {
        lemma_find_last(s, lo, hi - 1, name);
    }
}

proof fn lemma_find_last_update(
    s: Seq<(Seq<char>, ValueModel)>,
    lo: int,
    hi: int,
    name: Seq<char>,
    v: ValueModel,
)
    requires
        0 <= lo,
        hi <= s.len(),
        find_last(s, lo, hi, name) >= 0,
    ensures
        find_last(s.update(find_last(s, lo, hi, name), (name, v)), lo, hi, name) == find_last(
            s,
            lo,
            hi,
            name,
        ),
    decreases hi - lo,
{
    let i = find_last(s, lo, hi, name);
    lemma_find_last(s, lo, hi, name);
    if s[hi - 1].0 != name {
        lemma_find_last_update(s, lo, hi - 1, name, v);
    }
}

/// A declaration made in an inner scope does not leak: once that scope
/// closes, the chain is exactly as it was before the scope opened.
pub proof fn inner_declaration_does_not_leak(env: EnvModel, name: Seq<char>, v: ValueModel)
    requires
        env_wf(env),
    ensures
        pop_scope(define(push_scope(env), name, v)) == env,
{
    let inner = push_scope(env);
    let n = env.bindings.len() as int;
    assert(find_last(inner.bindings, n, n, name) == -1);
    let defined = define(inner, name, v);
    assert(defined.bindings.take(n) =~= env.bindings);
    assert(defined.marks.drop_last() =~= env.marks);
}

/// Assigning from inside an inner scope to a name bound outside it changes
/// that outer binding, and the change outlives the inner scope: it is the
/// same as assigning in the outer scope itself, and the name then reads
/// back as the new value.
pub proof fn assignment_reaches_outer_scope(env: EnvModel, name: Seq<char>, v: ValueModel)
    requires
        env_wf(env),
        lookup(env, name) is Some,
    ensures
        assign(push_scope(env), name, v) is Some,
        pop_scope(assign(push_scope(env), name, v)->Some_0) == assign(env, name, v)->Some_0,
        lookup(assign(env, name, v)->Some_0, name) == Some(v),
{
    let n = env.bindings.len() as int;
    lemma_find_last(env.bindings, 0, n, name);
    lemma_find_last_update(env.bindings, 0, n, name, v);
    let after = assign(push_scope(env), name, v)->Some_0;
    assert(after.bindings.take(n) =~= after.bindings);
    assert(after.marks.drop_last() =~= env.marks);
}

/// Assigning to a name that no scope binds fails, whatever the value.
pub proof fn undefined_assignment_fails(env: EnvModel, name: Seq<char>, v: ValueModel)
    requires
        lookup(env, name) is None,
    ensures
        assign(env, name, v) is None,
{
}

impl View for Environment {
    type V = EnvModel;

    closed spec fn view(&self) -> EnvModel {
        EnvModel {
            bindings: binding_models(self.bindings@),
            marks: self.marks@.map_values(|m: usize| m as int),
        }
    }
}

impl Environment {
    pub closed spec fn wf(&self) -> bool {
        env_wf(self@)
    }

    /// The outermost scope, with no bindings.
    pub fn new() -> (r: Environment)
        ensures
            r.wf(),
            r@.bindings.len() == 0,
            r@.marks.len() == 0,
    {
        let r = Environment { bindings: Vec::new(), marks: Vec::new() };
        assert(r@.bindings =~= Seq::empty());
        assert(r@.marks =~= Seq::empty());
        r
    }

    /// The last position in `[lo, len)` bound to `name`.
    fn find_last_from(&self, lo: usize, name: &Vec<char>) -> (r: Option<usize>)
        requires
            lo <= self.bindings@.len(),
        ensures
            ({
                let i = find_last(self@.bindings, lo as int, self@.bindings.len() as int, name@);
                match r {
                    Some(j) => j as int == i,
                    None => i == -1,
                }
            }),
    {
        let ghost s = self@.bindings;
        let mut hi: usize = self.bindings.len();
        while hi > lo
            invariant
                lo <= hi <= self.bindings@.len(),
                s == self@.bindings,
                find_last(s, lo as int, hi as int, name@) == find_last(
                    s,
                    lo as int,
                    s.len() as int,
                    name@,
                ),
            decreases hi,
        {
            if same_chars(&self.bindings[hi - 1].name, name) {
                return Some(hi - 1);
            }
            hi = hi - 1;
        }
        None
    }

    fn start(&self) -> (r: usize)
        requires
            self.wf(),
        ensures
            r as int == scope_start(self@),
            r <= self.bindings@.len(),
    {
        if self.marks.len() == 0 {
            0
        } else {
            let r = self.marks[self.marks.len() - 1];
            assert(self@.marks[self@.marks.len() - 1] == r as int);
            r
        }
    }

    /// Binds `name` to `value` in the innermost scope (`define`).
    pub fn set_variable(&mut self, name: Vec<char>, value: Value)
        requires
            old(self).wf(),
        ensures
            final(self).wf(),
            final(self)@ == define(old(self)@, name@, value@),
    {
        let ghost old_env = self@;
        let start = self.start();
        proof {
            lemma_find_last(old_env.bindings, start as int, old_env.bindings.len() as int, name@);
        }
        let ghost n = name@;
        let ghost v = value@;
        match self.find_last_from(start, &name) {
            Some(i) => {
                self.bindings.set(i, Binding { name, value });
            },
            None => {
                self.bindings.push(Binding { name, value });
            },
        }
        assert(self@.bindings =~= define(old_env, n, v).bindings);
        assert(self@.marks =~= old_env.marks);
    }

    /// The value of `name` in the innermost scope that binds it (`lookup`).
    pub fn get_variable(&self, name: &Vec<char>) -> (r: Option<Value>)
        ensures
            match lookup(self@, name@) {
                Some(v) => r is Some && r->Some_0@ == v,
                None => r is None,
            },
    {
        proof {
            lemma_find_last(self@.bindings, 0, self@.bindings.len() as int, name@);
        }
        match self.find_last_from(0, name) {
            Some(i) => Some(self.bindings[i].value.duplicate()),
            None => None,
        }
    }

    /// Rebinds `name` in the innermost scope that binds it (`assign`);
    /// `false`, with nothing changed, where no scope binds it.
    pub fn assign_variable(&mut self, name: Vec<char>, value: Value) -> (r: bool)
        requires
            old(self).wf(),
        ensures
            final(self).wf(),
            match assign(old(self)@, name@, value@) {
                Some(e) => r && final(self)@ == e,
                None => !r && final(self)@ == old(self)@,
            },
    {
        let ghost old_env = self@;
        let ghost n = name@;
        let ghost v = value@;
        proof {
            lemma_find_last(old_env.bindings, 0, old_env.bindings.len() as int, name@);
        }
        match self.find_last_from(0, &name) {
            Some(i) => {
                self.bindings.set(i, Binding { name, value });
                assert(self@.bindings =~= assign(old_env, n, v)->Some_0.bindings);
                assert(self@.marks =~= old_env.marks);
                true
            },
            None => false,
        }
    }

    /// Opens a scope inside the innermost one.
    pub fn push_scope(&mut self)
        requires
            old(self).wf(),
        ensures
            final(self).wf(),
            final(self)@ == push_scope(old(self)@),
    {
        let ghost old_env = self@;
        let n = self.bindings.len();
        self.marks.push(n);
        assert(self@.marks =~= old_env.marks.push(n as int));
    }

    /// Closes the innermost scope and drops its bindings.
    pub fn pop_scope(&mut self)
        requires
            old(self).wf(),
        ensures
            final(self).wf(),
            final(self)@ == pop_scope(old(self)@),
    {
        let ghost old_env = self@;
        if self.marks.len() > 0 {
            let m = self.marks.pop().unwrap();
            assert(old_env.marks.last() == m as int);
            self.bindings.truncate(m);
            assert(self@.bindings =~= old_env.bindings.take(m as int));
            assert(self@.marks =~= old_env.marks.drop_last());
        }
    }
}

} // verus!
