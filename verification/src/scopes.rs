use vstd::prelude::*;

use crate::vars::VarTable;

verus! {

/// One scope: the scope it is nested in, and its own variables.
pub struct Frame<V> {
    pub parent: Option<usize>,
    pub vars: VarTable<V>,
}

/// All the scopes of a run, addressed by index. A scope is nested in a scope
/// made before it, so every chain of parents ends.
pub struct Scopes<V> {
    frames: Vec<Frame<V>>,
}

impl<V> Scopes<V> {
    /// The number of scopes.
    pub closed spec fn count(&self) -> nat {
        self.frames@.len()
    }

    /// The scope that scope `i` is nested in.
    pub closed spec fn parent_of(&self, i: int) -> Option<usize> {
        self.frames@[i].parent
    }

    /// The variables of scope `i` itself.
    pub closed spec fn vars_of(&self, i: int) -> Map<Seq<char>, V> {
        self.frames@[i].vars@
    }

    /// Parents come before their children and every table is well formed.
    pub closed spec fn wf(&self) -> bool {
        forall|i: int|
            0 <= i < self.frames@.len() ==> (#[trigger] self.frames@[i]).vars.wf() && match self.frames@[i].parent {
                Some(p) => p < i,
                None => true,
            }
    }

    /// The nearest scope, from `env` outwards, that binds `n`.
    pub open spec fn holder(&self, env: int, n: Seq<char>) -> Option<int>
        decreases env,
    {
        if env < 0 || env >= self.count() {
            None
        } else if self.vars_of(env).dom().contains(n) {
            Some(env)
        } else {
            match self.parent_of(env) {
                Some(p) => if p < env {
                    self.holder(p as int, n)
                } else {
                    None
                },
                None => None,
            }
        }
    }

    /// What `n` reads as in scope `env`: its binding in the nearest scope
    /// that has one.
    pub open spec fn lookup(&self, env: int, n: Seq<char>) -> Option<V> {
        match self.holder(env, n) {
            Some(s) => Some(self.vars_of(s)[n]),
            None => None,
        }
    }

    /// `next` keeps the scopes of `self` and their nesting; it may add scopes
    /// after them.
    pub open spec fn extends_to(&self, next: &Self) -> bool {
        &&& self.count() <= next.count()
        &&& forall|i: int| 0 <= i < self.count() ==> #[trigger] next.parent_of(i) == self.parent_of(i)
    }

    /// No scope yet.
    pub fn new() -> (s: Self)
        ensures
            s.wf(),
            s.count() == 0,
    {
        Scopes { frames: Vec::new() }
    }

    /// The number of scopes.
    pub fn len(&self) -> (n: usize)
        ensures
            n == self.count(),
    {
        self.frames.len()
    }

    /// Makes a new, empty scope nested in `parent`, and gives its index.
    pub fn push(&mut self, parent: Option<usize>) -> (i: usize)
        requires
            old(self).wf(),
            parent matches Some(p) ==> p < old(self).count(),
        ensures
            final(self).wf(),
            i == old(self).count(),
            final(self).count() == old(self).count() + 1,
            final(self).parent_of(i as int) == parent,
            final(self).vars_of(i as int) == Map::<Seq<char>, V>::empty(),
            forall|j: int|
                0 <= j < old(self).count() ==> #[trigger] final(self).vars_of(j) == old(self).vars_of(j)
                    && final(self).parent_of(j) == old(self).parent_of(j),
    {
        let i = self.frames.len();
        self.frames.push(Frame { parent, vars: VarTable::new() });
        proof {
            assert forall|j: int| 0 <= j < old(self).count() implies #[trigger] self.vars_of(j)
                == old(self).vars_of(j) && self.parent_of(j) == old(self).parent_of(j) by {
                assert(self.frames@[j] == old(self).frames@[j]);
            }
            assert forall|j: int| 0 <= j < self.frames@.len() implies (#[trigger] self.frames@[j]).vars.wf()
                && match self.frames@[j].parent {
                Some(p) => p < j,
                None => true,
            } by {
                if j < i {
                    assert(self.frames@[j] == old(self).frames@[j]);
                }
            }
        }
        i
    }

    /// The scope that scope `env` is nested in.
    pub fn parent(&self, env: usize) -> (p: Option<usize>)
        requires
            env < self.count(),
        ensures
            p == self.parent_of(env as int),
    {
        self.frames[env].parent
    }

    /// Whether scope `env` itself binds `n`.
    pub fn binds_here(&self, env: usize, n: &str) -> (b: bool)
        requires
            self.wf(),
            env < self.count(),
        ensures
            b == self.vars_of(env as int).dom().contains(n@),
    {
        self.frames[env].vars.contains_key(n)
    }

    /// The nearest scope from `env` outwards that binds `n`.
    pub fn find_holder(&self, env: usize, n: &str) -> (r: Option<usize>)
        requires
            self.wf(),
            env < self.count(),
        ensures
            match self.holder(env as int, n@) {
                Some(s) => r == Some(s as usize),
                None => r is None,
            },
    {
        let mut cur = env;
        loop
            invariant
                self.wf(),
                cur < self.count(),
                self.holder(env as int, n@) == self.holder(cur as int, n@),
            decreases cur,
        {
            if self.frames[cur].vars.contains_key(n) {
                return Some(cur);
            }
            match self.frames[cur].parent {
                Some(p) => {
                    assert(self.frames@[cur as int].parent == Some(p));
                    cur = p;
                },
                None => {
                    return None;
                },
            }
        }
    }

    /// What `n` reads as in scope `env`.
    pub fn get(&self, env: usize, n: &str) -> (r: Option<&V>)
        requires
            self.wf(),
            env < self.count(),
        ensures
            match self.lookup(env as int, n@) {
                Some(v) => r matches Some(x) && *x == v,
                None => r is None,
            },
    {
        match self.find_holder(env, n) {
            Some(s) => {
                proof {
                    lemma_holder_binds(self, env as int, n@);
                }
                self.frames[s].vars.get(n)
            },
            None => None,
        }
    }

    /// Binds `n` to `v` in scope `env` itself.
    pub fn set(&mut self, env: usize, n: &str, v: V)
        requires
            old(self).wf(),
            env < old(self).count(),
        ensures
            final(self).wf(),
            final(self).count() == old(self).count(),
            final(self).vars_of(env as int) == old(self).vars_of(env as int).insert(n@, v),
            forall|j: int|
                0 <= j < old(self).count() && j != env ==> #[trigger] final(self).vars_of(j) == old(
                    self,
                ).vars_of(j),
            forall|j: int| 0 <= j < old(self).count() ==> #[trigger] final(self).parent_of(j) == old(self).parent_of(j),
    {
        let mut tmp = Frame { parent: None, vars: VarTable::new() };
        self.frames.set_and_swap(env, &mut tmp);
        assert(tmp == old(self).frames@[env as int]);
        tmp.vars.set(n, v);
        self.frames.set_and_swap(env, &mut tmp);
        proof {
            assert forall|j: int| 0 <= j < self.frames@.len() implies (#[trigger] self.frames@[j]).vars.wf()
                && match self.frames@[j].parent {
                Some(p) => p < j,
                None => true,
            } by {
                if j != env {
                    assert(self.frames@[j] == old(self).frames@[j]);
                }
            }
            assert forall|j: int| 0 <= j < old(self).count() && j != env implies #[trigger] self.vars_of(j)
                == old(self).vars_of(j) by {
                assert(self.frames@[j] == old(self).frames@[j]);
            }
            assert forall|j: int| 0 <= j < old(self).count() implies #[trigger] self.parent_of(j)
                == old(self).parent_of(j) by {
                if j != env {
                    assert(self.frames@[j] == old(self).frames@[j]);
                }
            }
        }
    }

    /// Assignment to `n` in scope `env`: the nearest scope that binds `n`
    /// gets the new value; where none does, `env` binds it.
    pub fn assign(&mut self, env: usize, n: &str, v: V)
        requires
            old(self).wf(),
            env < old(self).count(),
        ensures
            final(self).wf(),
            final(self).count() == old(self).count(),
            ({
                let target = match old(self).holder(env as int, n@) {
                    Some(s) => s,
                    None => env as int,
                };
                &&& final(self).vars_of(target) == old(self).vars_of(target).insert(n@, v)
                &&& forall|j: int|
                    0 <= j < old(self).count() && j != target ==> #[trigger] final(self).vars_of(j)
                        == old(self).vars_of(j)
            }),
            forall|j: int| 0 <= j < old(self).count() ==> #[trigger] final(self).parent_of(j) == old(self).parent_of(j),
    {
        let target = match self.find_holder(env, n) {
            Some(s) => s,
            None => env,
        };
        proof {
            lemma_holder_binds(self, env as int, n@);
        }
        self.set(target, n, v);
    }

    /// The variables of scope `env` itself, in the order they were first bound.
    pub fn entries(&self, env: usize) -> (r: &Vec<(String, V)>)
        requires
            self.wf(),
            env < self.count(),
        ensures
            crate::vars::table_map(r@) == self.vars_of(env as int),
    {
        self.frames[env].vars.entries()
    }
}

/// The holder of a name binds it and lies on the chain of parents.
proof fn lemma_holder_binds<V>(s: &Scopes<V>, env: int, n: Seq<char>)
    ensures
        s.holder(env, n) matches Some(h) ==> 0 <= h <= env < s.count() && s.vars_of(h).dom().contains(n),
    decreases env,
{
    if 0 <= env < s.count() && !s.vars_of(env).dom().contains(n) {
        match s.parent_of(env) {
            Some(p) => if p < env {
                lemma_holder_binds(s, p as int, n);
            },
            None => {},
        }
    }
}

/// The holder, in a changed store, of a name the store left alone on a
/// chain whose nesting it kept.
proof fn lemma_holder_same<V>(a: &Scopes<V>, b: &Scopes<V>, env: int, n: Seq<char>, skip: int)
    requires
        a.count() == b.count(),
        forall|j: int| 0 <= j < a.count() ==> #[trigger] b.parent_of(j) == a.parent_of(j),
        forall|j: int| 0 <= j < a.count() && j != skip ==> #[trigger] b.vars_of(j) == a.vars_of(j),
        0 <= skip < a.count(),
        b.vars_of(skip).dom().contains(n),
        a.holder(env, n) matches Some(h) ==> h == skip,
        a.holder(env, n) is None ==> env == skip,
    ensures
        b.holder(env, n) == Some(skip),
    decreases env,
{
    if env == skip {
    } else {
        assert(b.vars_of(env) == a.vars_of(env));
        match a.parent_of(env) {
            Some(p) => if p < env {
                lemma_holder_same(a, b, p as int, n, skip);
            },
            None => {},
        }
    }
}

/// After `n` is assigned `v` in scope `env`, reading `n` in `env` gives `v`
/// (whichever scope the assignment went to).
pub proof fn lemma_read_after_assign<V>(before: &Scopes<V>, after: &Scopes<V>, env: int, n: Seq<char>, v: V)
    requires
        0 <= env < before.count(),
        after.count() == before.count(),
        forall|j: int| 0 <= j < before.count() ==> #[trigger] after.parent_of(j) == before.parent_of(j),
        ({
            let target = match before.holder(env, n) {
                Some(s) => s,
                None => env,
            };
            &&& after.vars_of(target) == before.vars_of(target).insert(n, v)
            &&& forall|j: int|
                0 <= j < before.count() && j != target ==> #[trigger] after.vars_of(j) == before.vars_of(j)
        }),
    ensures
        after.lookup(env, n) == Some(v),
{
    lemma_holder_binds(before, env, n);
    let target = match before.holder(env, n) {
        Some(s) => s,
        None => env,
    };
    lemma_holder_same(before, after, env, n, target);
}

} // verus!
