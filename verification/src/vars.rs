use vstd::prelude::*;

use crate::text::str_eq;

verus! {

/// The variables of one scope: each name bound at most once, kept in the
/// order the names were first bound.
pub struct VarTable<V> {
    entries: Vec<(String, V)>,
}

/// The bindings of `s`, a later entry of a name replacing an earlier one.
pub open spec fn table_map<V>(s: Seq<(String, V)>) -> Map<Seq<char>, V>
    decreases s.len(),
{
    if s.len() == 0 {
        Map::empty()
    } else {
        table_map(s.drop_last()).insert(s.last().0@, s.last().1)
    }
}

/// No name occurs twice in `s`.
pub open spec fn keys_unique<V>(s: Seq<(String, V)>) -> bool {
    forall|i: int, j: int| 0 <= i < j < s.len() ==> s[i].0@ != s[j].0@
}

/// A name is bound by a table exactly where some entry has it.
pub proof fn lemma_table_dom<V>(s: Seq<(String, V)>, k: Seq<char>)
    ensures
        table_map(s).dom().contains(k) <==> exists|i: int| 0 <= i < s.len() && (#[trigger] s[i]).0@ == k,
    decreases s.len(),
{
    if s.len() > 0 {
        lemma_table_dom(s.drop_last(), k);
        if table_map(s.drop_last()).dom().contains(k) {
            let i = choose|i: int| 0 <= i < s.drop_last().len() && (#[trigger] s.drop_last()[i]).0@ == k;
            assert(s[i] == s.drop_last()[i]);
        }
        if exists|i: int| 0 <= i < s.len() && (#[trigger] s[i]).0@ == k {
            let i = choose|i: int| 0 <= i < s.len() && (#[trigger] s[i]).0@ == k;
            if i < s.len() - 1 {
                assert(s.drop_last()[i] == s[i]);
            }
        }
    }
}

/// With each name once, every entry is the binding of its name.
pub proof fn lemma_table_index<V>(s: Seq<(String, V)>, i: int)
    requires
        keys_unique(s),
        0 <= i < s.len(),
    ensures
        table_map(s).dom().contains(s[i].0@),
        table_map(s)[s[i].0@] == s[i].1,
    decreases s.len(),
{
    if i < s.len() - 1 {
        let d = s.drop_last();
        assert(d[i] == s[i]);
        assert(keys_unique(d)) by {
            assert forall|a: int, b: int| 0 <= a < b < d.len() implies d[a].0@ != d[b].0@ by {
                assert(d[a] == s[a] && d[b] == s[b]);
            }
        }
        lemma_table_index(d, i);
        assert(s[i].0@ != s.last().0@);
    }
}

proof fn lemma_table_update<V>(s: Seq<(String, V)>, i: int, e: (String, V))
    requires
        keys_unique(s),
        0 <= i < s.len(),
        e.0@ == s[i].0@,
    ensures
        keys_unique(s.update(i, e)),
        table_map(s.update(i, e)) == table_map(s).insert(e.0@, e.1),
    decreases s.len(),
{
    let u = s.update(i, e);
    assert(keys_unique(u)) by {
        assert forall|a: int, b: int| 0 <= a < b < u.len() implies u[a].0@ != u[b].0@ by {
            if a == i {
                assert(u[b] == s[b]);
            } else if b == i {
                assert(u[a] == s[a]);
            } else {
                assert(u[a] == s[a] && u[b] == s[b]);
            }
        }
    }
    let d = s.drop_last();
    if i == s.len() - 1 {
        assert(u.drop_last() =~= d);
        assert(u.last() == e);
        assert(table_map(u) =~= table_map(s).insert(e.0@, e.1));
    } else {
        assert(keys_unique(d)) by {
            assert forall|a: int, b: int| 0 <= a < b < d.len() implies d[a].0@ != d[b].0@ by {
                assert(d[a] == s[a] && d[b] == s[b]);
            }
        }
        assert(d[i] == s[i]);
        lemma_table_update(d, i, e);
        assert(u.drop_last() =~= d.update(i, e));
        assert(u.last() == s.last());
        assert(s.last().0@ != e.0@);
        assert(table_map(u) =~= table_map(s).insert(e.0@, e.1));
    }
}

impl<V> View for VarTable<V> {
    type V = Map<Seq<char>, V>;

    closed spec fn view(&self) -> Map<Seq<char>, V> {
        table_map(self.entries@)
    }
}

impl<V> VarTable<V> {
    /// No name is bound twice.
    pub closed spec fn wf(&self) -> bool {
        keys_unique(self.entries@)
    }

    /// An empty scope.
    pub fn new() -> (t: Self)
        ensures
            t.wf(),
            t@ == Map::<Seq<char>, V>::empty(),
    {
        VarTable { entries: Vec::new() }
    }

    fn find(&self, k: &str) -> (r: Option<usize>)
        requires
            self.wf(),
        ensures
            match r {
                Some(i) => i < self.entries@.len() && self.entries@[i as int].0@ == k@,
                None => !self@.dom().contains(k@),
            },
    {
        let mut i: usize = 0;
        while i < self.entries.len()
            invariant
                i <= self.entries@.len(),
                forall|j: int| 0 <= j < i ==> (#[trigger] self.entries@[j]).0@ != k@,
            decreases self.entries@.len() - i,
        {
            if str_eq(self.entries[i].0.as_str(), k) {
                return Some(i);
            }
            i = i + 1;
        }
        proof {
            lemma_table_dom(self.entries@, k@);
        }
        None
    }

    /// Whether `k` is bound.
    pub fn contains_key(&self, k: &str) -> (b: bool)
        requires
            self.wf(),
        ensures
            b == self@.dom().contains(k@),
    {
        match self.find(k) {
            Some(i) => {
                proof {
                    lemma_table_index(self.entries@, i as int);
                }
                true
            },
            None => false,
        }
    }

    /// Whether no name is bound.
    pub fn is_empty(&self) -> (b: bool)
        ensures
            b == (self@ == Map::<Seq<char>, V>::empty()),
    {
        let b = self.entries.len() == 0;
        proof {
            let s = self.entries@;
            if b {
                assert(table_map(s) == Map::<Seq<char>, V>::empty());
            } else {
                assert(table_map(s).dom().contains(s.last().0@));
            }
        }
        b
    }

    /// The value bound to `k`, if any.
    pub fn get(&self, k: &str) -> (r: Option<&V>)
        requires
            self.wf(),
        ensures
            match r {
                Some(v) => self@.dom().contains(k@) && *v == self@[k@],
                None => !self@.dom().contains(k@),
            },
    {
        match self.find(k) {
            Some(i) => {
                proof {
                    lemma_table_index(self.entries@, i as int);
                }
                Some(&self.entries[i].1)
            },
            None => None,
        }
    }

    /// Binds `k` to `v`, replacing what `k` was bound to.
    pub fn set(&mut self, k: &str, v: V)
        requires
            old(self).wf(),
        ensures
            final(self).wf(),
            final(self)@ == old(self)@.insert(k@, v),
    {
        match self.find(k) {
            Some(i) => {
                let key = k.to_owned();
                proof {
                    lemma_table_update(self.entries@, i as int, (key, v));
                }
                self.entries.set(i, (key, v));
            },
            None => {
                let ghost before = self.entries@;
                proof {
                    lemma_table_dom(before, k@);
                }
                self.entries.push((k.to_owned(), v));
                assert(self.entries@.drop_last() =~= before);
            },
        }
    }

    /// The bindings in the order their names were first bound.
    pub fn entries(&self) -> (r: &Vec<(String, V)>)
        requires
            self.wf(),
        ensures
            keys_unique(r@),
            table_map(r@) == self@,
    {
        &self.entries
    }
}

/// Reading a name gives back the last value written to it, and writing a
/// name leaves every other name as it was.
pub proof fn lemma_read_after_write<V>(t: Map<Seq<char>, V>, k: Seq<char>, v: V, other: Seq<char>)
    ensures
        t.insert(k, v).dom().contains(k),
        t.insert(k, v)[k] == v,
        other != k ==> t.insert(k, v).dom().contains(other) == t.dom().contains(other),
        other != k && t.dom().contains(other) ==> t.insert(k, v)[other] == t[other],
{
}

} // verus!
