use vstd::prelude::*;

verus! {

/// A table from names to values in which no name occurs twice.
pub struct NameTable<T: DeepView> {
    entries: Vec<(String, T)>,
}

/// The map that a list of named entries stands for.
pub open spec fn entries_map<T: DeepView>(s: Seq<(String, T)>) -> Map<Seq<char>, T::V>
    decreases s.len(),
{
    if s.len() == 0 {
        Map::empty()
    } else {
        entries_map(s.drop_last()).insert(s.last().0@, s.last().1.deep_view())
    }
}

pub open spec fn distinct_names<T>(s: Seq<(String, T)>) -> bool {
    forall|i: int, j: int| 0 <= i < j < s.len() ==> s[i].0@ != s[j].0@
}

/// A name is in the map exactly when some entry has it, and then the map gives that
/// entry's value.
pub proof fn lemma_entries_map<T: DeepView>(s: Seq<(String, T)>)
    requires
        distinct_names(s),
    ensures
        forall|k: Seq<char>|
            #[trigger] entries_map(s).contains_key(k) <==> exists|i: int|
                0 <= i < s.len() && s[i].0@ == k,
        forall|i: int|
            0 <= i < s.len() ==> entries_map(s).contains_key(#[trigger] s[i].0@) && entries_map(
                s,
            )[s[i].0@] == s[i].1.deep_view(),
    decreases s.len(),
{
    if s.len() > 0 {
        let t = s.drop_last();
        assert(distinct_names(t));
        lemma_entries_map(t);
        assert forall|k: Seq<char>|
            #[trigger] entries_map(s).contains_key(k) <==> exists|i: int|
                0 <= i < s.len() && s[i].0@ == k by {
            if entries_map(s).contains_key(k) {
                if k == s.last().0@ {
                    assert(s[s.len() - 1].0@ == k);
                } else {
                    assert(entries_map(t).contains_key(k));
                    let i = choose|i: int| 0 <= i < t.len() && t[i].0@ == k;
                    assert(s[i] == t[i]);
                }
            }
            if exists|i: int| 0 <= i < s.len() && s[i].0@ == k {
                let i = choose|i: int| 0 <= i < s.len() && s[i].0@ == k;
                if i < s.len() - 1 {
                    assert(t[i] == s[i]);
                    assert(entries_map(t).contains_key(t[i].0@));
                }
            }
        }
        assert forall|i: int| 0 <= i < s.len() implies entries_map(s).contains_key(
            #[trigger] s[i].0@,
        ) && entries_map(s)[s[i].0@] == s[i].1.deep_view() by {
            if i < s.len() - 1 {
                assert(t[i] == s[i]);
                assert(s[i].0@ != s[s.len() - 1].0@);
            }
        }
    }
}

impl<T: DeepView> NameTable<T> {
    #[verifier::type_invariant]
    spec fn inv(self) -> bool {
        distinct_names(self.entries@)
    }

    /// The map from names to (the views of) values.
    pub closed spec fn map(self) -> Map<Seq<char>, T::V> {
        entries_map(self.entries@)
    }

    pub fn new() -> (t: Self)
        ensures
            t.map() == Map::<Seq<char>, T::V>::empty(),
    {
        NameTable { entries: Vec::new() }
    }

    /// The index of the entry named `name`, if there is one.
    fn find(&self, name: &String) -> (r: Option<usize>)
        ensures
            match r {
                Some(i) => i < self.entries@.len() && self.entries@[i as int].0@ == name@,
                None => forall|i: int|
                    0 <= i < self.entries@.len() ==> self.entries@[i].0@ != name@,
            },
    {
        let mut i: usize = 0;
        while i < self.entries.len()
            invariant
                i <= self.entries@.len(),
                forall|j: int| 0 <= j < i ==> self.entries@[j].0@ != name@,
            decreases self.entries@.len() - i,
        {
            if self.entries[i].0 == *name {
                return Some(i);
            }
            i = i + 1;
        }
        None
    }

    pub fn contains_key(&self, name: &String) -> (b: bool)
        ensures
            b == self.map().contains_key(name@),
    {
        proof {
            use_type_invariant(self);
            lemma_entries_map(self.entries@);
        }
        self.find(name).is_some()
    }

    /// The value under `name`, if there is one.
    pub fn get(&self, name: &String) -> (r: Option<&T>)
        ensures
            match r {
                Some(v) => self.map().contains_key(name@) && self.map()[name@] == v.deep_view(),
                None => !self.map().contains_key(name@),
            },
    {
        proof {
            use_type_invariant(self);
            lemma_entries_map(self.entries@);
        }
        match self.find(name) {
            Some(i) => Some(&self.entries[i].1),
            None => None,
        }
    }

    /// Adds `value` under a name that is not in the table yet.
    pub fn insert(&mut self, name: String, value: T)
        requires
            !old(self).map().contains_key(name@),
        ensures
            final(self).map() == old(self).map().insert(name@, value.deep_view()),
    {
        proof {
            use_type_invariant(&*self);
            lemma_entries_map(self.entries@);
        }
        let ghost before = self.entries@;
        let ghost entry = (name, value);
        let mut entries: Vec<(String, T)> = Vec::new();
        std::mem::swap(&mut entries, &mut self.entries);
        entries.push((name, value));
        assert(entries@.drop_last() =~= before);
        assert(distinct_names(entries@)) by {
            assert forall|i: int, j: int|
                0 <= i < j < entries@.len() implies entries@[i].0@ != entries@[j].0@ by {
                if j == entries@.len() - 1 {
                    assert(entries@[i] == before[i]);
                } else {
                    assert(entries@[i] == before[i]);
                    assert(entries@[j] == before[j]);
                }
            }
        }
        self.entries = entries;
    }

    pub fn len(&self) -> (n: usize)
        ensures
            n == self.map().len(),
    {
        proof {
            use_type_invariant(self);
            lemma_entries_map_len(self.entries@);
        }
        self.entries.len()
    }
}

pub proof fn lemma_entries_map_len<T: DeepView>(s: Seq<(String, T)>)
    requires
        distinct_names(s),
    ensures
        entries_map(s).len() == s.len(),
        entries_map(s).dom().finite(),
    decreases s.len(),
{
    if s.len() > 0 {
        let t = s.drop_last();
        assert(distinct_names(t));
        lemma_entries_map_len(t);
        lemma_entries_map(t);
        assert(!entries_map(t).contains_key(s.last().0@)) by {
            if entries_map(t).contains_key(s.last().0@) {
                let i = choose|i: int| 0 <= i < t.len() && t[i].0@ == s.last().0@;
                assert(t[i] == s[i]);
            }
        }
    }
}


/// After a name is given a value, looking the name up finds that value, and every other
/// name keeps the value it had.
pub proof fn lemma_get_after_insert<V>(m: Map<Seq<char>, V>, name: Seq<char>, v: V, other: Seq<char>)
    ensures
        m.insert(name, v).contains_key(name),
        m.insert(name, v)[name] == v,
        other != name ==> m.insert(name, v).contains_key(other) == m.contains_key(other),
        other != name && m.contains_key(other) ==> m.insert(name, v)[other] == m[other],
{
}

} // verus!
