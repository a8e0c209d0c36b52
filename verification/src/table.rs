//! A small table from names to values, kept as a list of entries. No name
//! has two entries.

use vstd::prelude::*;

verus! {

/// The map that a list of entries stands for. Where a name has several
/// entries, the last one counts; in a table no name has.
pub open spec fn entries_map<V>(entries: Seq<(String, V)>) -> Map<Seq<char>, V>
    decreases entries.len(),
{
    if entries.len() == 0 {
        Map::empty()
    } else {
        entries_map(entries.drop_last()).insert(entries.last().0@, entries.last().1)
    }
}

/// The index of the last entry of that name among the first `upto`
/// entries.
pub open spec fn last_index<V>(entries: Seq<(String, V)>, name: Seq<char>, upto: int) -> Option<int>
    decreases upto,
{
    if upto <= 0 {
        None
    } else if entries[upto - 1].0@ == name {
        Some(upto - 1)
    } else {
        last_index(entries, name, upto - 1)
    }
}

/// The entry that `last_index` finds is the one that the map shows.
pub proof fn lemma_last_index<V>(entries: Seq<(String, V)>, name: Seq<char>)
    ensures
        match last_index(entries, name, entries.len() as int) {
            Some(i) => 0 <= i < entries.len() && entries[i].0@ == name && entries_map(
                entries,
            ).contains_key(name) && entries_map(entries)[name] == entries[i].1,
            None => !entries_map(entries).contains_key(name),
        },
    decreases entries.len(),
{
    if entries.len() > 0 {
        let rest = entries.drop_last();
        lemma_last_index(rest, name);
        lemma_last_index_prefix(entries, name, rest.len() as int);
    }
}

/// `last_index` looks at the first `upto` entries only.
pub proof fn lemma_last_index_prefix<V>(entries: Seq<(String, V)>, name: Seq<char>, upto: int)
    requires
        0 <= upto <= entries.len(),
    ensures
        last_index(entries, name, upto) == last_index(entries.take(upto), name, upto),
    decreases upto,
{
    if upto > 0 {
        lemma_last_index_prefix(entries, name, upto - 1);
        lemma_last_index_prefix(entries.take(upto), name, upto - 1);
        assert(entries.take(upto).take(upto - 1) == entries.take(upto - 1));
    }
}

/// Rewriting the last entry of a name changes the map at that name and
/// nowhere else.
pub proof fn lemma_update_seen<V>(entries: Seq<(String, V)>, i: int, name: String, value: V)
    requires
        last_index(entries, name@, entries.len() as int) == Some(i),
    ensures
        entries_map(entries.update(i, (name, value))) == entries_map(entries).insert(name@, value),
    decreases entries.len(),
{
    lemma_last_index(entries, name@);
    let updated = entries.update(i, (name, value));
    if i == entries.len() - 1 {
        assert(updated.drop_last() == entries.drop_last());
        assert(entries_map(updated) == entries_map(entries).insert(name@, value));
    } else {
        let rest = entries.drop_last();
        lemma_last_index_prefix(entries, name@, rest.len() as int);
        lemma_update_seen(rest, i, name, value);
        assert(updated.drop_last() == rest.update(i, (name, value)));
        assert(entries_map(updated) == entries_map(entries).insert(name@, value));
    }
}

/// The names in the map are the names of the entries.
pub proof fn lemma_names<V>(entries: Seq<(String, V)>, name: Seq<char>)
    ensures
        entries_map(entries).contains_key(name) <==> exists|i: int|
            0 <= i < entries.len() && (#[trigger] entries[i]).0@ == name,
    decreases entries.len(),
{
    if entries.len() > 0 {
        let rest = entries.drop_last();
        lemma_names(rest, name);
        if entries_map(entries).contains_key(name) {
            if entries.last().0@ == name {
                assert(entries[entries.len() - 1].0@ == name);
            } else {
                let i = choose|i: int| 0 <= i < rest.len() && (#[trigger] rest[i]).0@ == name;
                assert(entries[i].0@ == name);
            }
        }
        if exists|i: int| 0 <= i < entries.len() && (#[trigger] entries[i]).0@ == name {
            let i = choose|i: int| 0 <= i < entries.len() && (#[trigger] entries[i]).0@ == name;
            if i < rest.len() {
                assert(rest[i].0@ == name);
            }
        }
    }
}

/// A table from names to values of type `V`.
pub struct Table<V> {
    entries: Vec<(String, V)>,
}

impl<V> View for Table<V> {
    type V = Map<Seq<char>, V>;

    closed spec fn view(&self) -> Map<Seq<char>, V> {
        entries_map(self.entries@)
    }
}

/// Whether no name has two entries.
pub open spec fn distinct_names<V>(entries: Seq<(String, V)>) -> bool {
    forall|i: int, j: int|
        0 <= i < j < entries.len() ==> (#[trigger] entries[i]).0@ != (#[trigger] entries[j]).0@
}

impl<V> Table<V> {
    /// What holds of every table: no name has two entries.
    #[verifier::type_invariant]
    spec fn well_formed(self) -> bool {
        distinct_names(self.entries@)
    }

    /// A table without entries.
    pub fn new() -> (t: Self)
        ensures
            t@ == Map::<Seq<char>, V>::empty(),
    {
        Table { entries: Vec::new() }
    }

    /// Where the entry for `name` stands, if there is one.
    fn index_of(&self, name: &str) -> (r: Option<usize>)
        ensures
            r is Some <==> self@.contains_key(name@),
            r matches Some(i) ==> last_index(self.entries@, name@, self.entries@.len() as int)
                == Some(i as int) && i < self.entries@.len() && self.entries@[i as int].1
                == self@[name@],
    {
        let wanted: String = name.to_owned();
        let mut n: usize = self.entries.len();
        while n > 0
            invariant
                n <= self.entries.len(),
                wanted@ == name@,
                last_index(self.entries@, name@, self.entries@.len() as int) == last_index(
                    self.entries@,
                    name@,
                    n as int,
                ),
            decreases n,
        {
            if self.entries[n - 1].0 == wanted {
                proof {
                    lemma_last_index(self.entries@, name@);
                }
                return Some(n - 1);
            }
            n = n - 1;
        }
        proof {
            lemma_last_index(self.entries@, name@);
        }
        None
    }

    /// Whether the table has an entry for `name`.
    pub fn contains(&self, name: &str) -> (r: bool)
        ensures
            r == self@.contains_key(name@),
    {
        self.index_of(name).is_some()
    }

    /// The value entered for `name`, if there is one.
    pub fn get(&self, name: &str) -> (r: Option<&V>)
        ensures
            match r {
                Some(v) => self@.contains_key(name@) && *v == self@[name@],
                None => !self@.contains_key(name@),
            },
    {
        match self.index_of(name) {
            Some(i) => Some(&self.entries[i].1),
            None => None,
        }
    }

    /// Enters `value` for `name`, in place of what was entered for it
    /// before, if anything was.
    pub fn set(&mut self, name: &str, value: V)
        ensures
            final(self)@ == old(self)@.insert(name@, value),
    {
        let key: String = name.to_owned();
        let found = self.index_of(name);
        proof {
            use_type_invariant(&*self);
        }
        let ghost before = self.entries@;
        let mut entries: Vec<(String, V)> = Vec::new();
        core::mem::swap(&mut self.entries, &mut entries);
        match found {
            Some(i) => {
                proof {
                    lemma_last_index(before, name@);
                    lemma_update_seen(before, i as int, key, value);
                }
                entries.set(i, (key, value));
                assert(forall|k: int|
                    0 <= k < before.len() ==> (#[trigger] entries@[k]).0@ == before[k].0@);
            },
            None => {
                proof {
                    lemma_names(before, name@);
                }
                entries.push((key, value));
                assert(entries@.drop_last() == before);
                assert(forall|k: int| 0 <= k < before.len() ==> #[trigger] entries@[k] == before[k]);
            },
        }
        self.entries = entries;
    }

    /// The names that have an entry, each once, in no particular order.
    pub fn names(&self) -> (r: Vec<String>)
        ensures
            forall|name: Seq<char>|
                self@.contains_key(name) <==> exists|i: int|
                    0 <= i < r@.len() && (#[trigger] r@[i])@ == name,
            forall|i: int, j: int|
                0 <= i < j < r@.len() ==> (#[trigger] r@[i])@ != (#[trigger] r@[j])@,
    {
        proof {
            use_type_invariant(self);
        }
        let mut r: Vec<String> = Vec::new();
        let mut i: usize = 0;
        while i < self.entries.len()
            invariant
                i <= self.entries.len(),
                r@.len() == i,
                forall|j: int| 0 <= j < i ==> (#[trigger] r@[j])@ == self.entries@[j].0@,
            decreases self.entries.len() - i,
        {
            r.push(self.entries[i].0.clone());
            i = i + 1;
        }
        proof {
            assert forall|name: Seq<char>|
                self@.contains_key(name) <==> exists|i: int|
                    0 <= i < r@.len() && (#[trigger] r@[i])@ == name by {
                lemma_names(self.entries@, name);
                if self@.contains_key(name) {
                    let k = choose|k: int|
                        0 <= k < self.entries@.len() && (#[trigger] self.entries@[k]).0@ == name;
                    assert(r@[k]@ == name);
                }
                if exists|i: int| 0 <= i < r@.len() && (#[trigger] r@[i])@ == name {
                    let k = choose|k: int| 0 <= k < r@.len() && (#[trigger] r@[k])@ == name;
                    assert(self.entries@[k].0@ == name);
                }
            }
        }
        r
    }
}

} // verus!
