//! Values by name.
use crate::text;
use vstd::prelude::*;

verus! {

/// Values by name, in the order in which the names came.
#[derive(Debug, Clone)]
pub struct NameMap<V> {
    pub entries: Vec<(String, V)>,
}

/// What the entries from the `i`-th on say; where a name occurs twice, its first
/// entry counts.
pub open spec fn map_from<V>(entries: Seq<(String, V)>, i: int) -> Map<Seq<char>, V>
    decreases entries.len() - i,
{
    if i >= entries.len() {
        Map::empty()
    } else {
        map_from(entries, i + 1).insert(entries[i].0@, entries[i].1)
    }
}

/// The value of `name`, if it has one.
pub open spec fn looked_up<V>(m: Map<Seq<char>, V>, name: Seq<char>) -> Option<V> {
    if m.dom().contains(name) {
        Some(m[name])
    } else {
        None
    }
}

impl<V> View for NameMap<V> {
    type V = Map<Seq<char>, V>;

    open spec fn view(&self) -> Map<Seq<char>, V> {
        map_from(self.entries@, 0)
    }
}

proof fn lemma_skip<V>(entries: Seq<(String, V)>, name: Seq<char>, from: int, to: int)
    requires
        0 <= from <= to <= entries.len(),
        forall|k: int| from <= k < to ==> (#[trigger] entries[k]).0@ != name,
    ensures
        looked_up(map_from(entries, from), name) == looked_up(map_from(entries, to), name),
    decreases to - from,
{
    if from < to {
        lemma_skip(entries, name, from + 1, to);
    }
}

proof fn lemma_set<V>(entries: Seq<(String, V)>, at: int, from: int, value: V)
    requires
        0 <= from <= at < entries.len(),
        forall|k: int| from <= k < at ==> (#[trigger] entries[k]).0@ != entries[at].0@,
    ensures
        map_from(entries.update(at, (entries[at].0, value)), from) == map_from(
            entries,
            from,
        ).insert(entries[at].0@, value),
    decreases at - from,
{
    let after = entries.update(at, (entries[at].0, value));
    if from < at {
        lemma_set(entries, at, from + 1, value);
        assert(map_from(after, from) =~= map_from(entries, from).insert(entries[at].0@, value));
    } else {
        lemma_same_tail(entries, after, at + 1);
        assert(map_from(after, at) =~= map_from(entries, at).insert(entries[at].0@, value));
    }
}

proof fn lemma_same_tail<V>(a: Seq<(String, V)>, b: Seq<(String, V)>, from: int)
    requires
        a.len() == b.len(),
        forall|k: int| from <= k < a.len() ==> #[trigger] a[k] == b[k],
    ensures
        map_from(a, from) == map_from(b, from),
    decreases a.len() - from,
{
    if from < a.len() {
        lemma_same_tail(a, b, from + 1);
    }
}

proof fn lemma_push<V>(entries: Seq<(String, V)>, entry: (String, V), from: int)
    requires
        0 <= from <= entries.len(),
        forall|k: int| from <= k < entries.len() ==> (#[trigger] entries[k]).0@ != entry.0@,
    ensures
        map_from(entries.push(entry), from) == map_from(entries, from).insert(entry.0@, entry.1),
    decreases entries.len() - from,
{
    if from < entries.len() {
        lemma_push(entries, entry, from + 1);
        assert(map_from(entries.push(entry), from) =~= map_from(entries, from).insert(
            entry.0@,
            entry.1,
        ));
    } else {
        assert(map_from(entries.push(entry), from + 1) =~= Map::empty());
    }
}

impl<V: Copy> NameMap<V> {
    /// No values yet.
    pub fn new() -> (r: Self)
        ensures
            r@ == Map::<Seq<char>, V>::empty(),
            r.entries@.len() == 0,
    {
        NameMap { entries: Vec::new() }
    }

    /// The value of `name`, if it has one.
    pub fn get(&self, name: &str) -> (r: Option<V>)
        ensures
            r == looked_up(self@, name@),
    {
        for i in 0..self.entries.len()
            invariant
                forall|k: int| 0 <= k < i ==> (#[trigger] self.entries@[k]).0@ != name@,
        {
            if text::same(self.entries[i].0.as_str(), name) {
                proof {
                    lemma_skip(self.entries@, name@, 0, i as int);
                }
                return Some(self.entries[i].1);
            }
        }
        proof {
            lemma_skip(self.entries@, name@, 0, self.entries@.len() as int);
        }
        None
    }

    /// Gives `name` the value, in place of the one it had.
    pub fn put(&mut self, name: &str, value: V)
        ensures
            final(self)@ == old(self)@.insert(name@, value),
    {
        let n: usize = self.entries.len();
        for i in 0..n
            invariant
                n == self.entries@.len(),
                self.entries@ == old(self).entries@,
                forall|k: int| 0 <= k < i ==> (#[trigger] self.entries@[k]).0@ != name@,
        {
            if text::same(self.entries[i].0.as_str(), name) {
                proof {
                    lemma_set(self.entries@, i as int, 0, value);
                }
                let kept = self.entries[i].0.clone();
                self.entries.set(i, (kept, value));
                return ;
            }
        }
        let entry = (name.to_owned(), value);
        proof {
            lemma_push(self.entries@, entry, 0);
        }
        self.entries.push(entry);
    }

    /// Gives every name of `other` its value there.
    pub fn put_all(&mut self, other: &Self)
        ensures
            final(self)@ == old(self)@.union_prefer_right(other@),
    {
        let mut i: usize = other.entries.len();
        assert(self@ =~= old(self)@.union_prefer_right(map_from(other.entries@, i as int)));
        while i > 0
            invariant
                i <= other.entries.len(),
                self@ == old(self)@.union_prefer_right(map_from(other.entries@, i as int)),
            decreases i,
        {
            i = i - 1;
            self.put(other.entries[i].0.as_str(), other.entries[i].1);
            assert(self@ =~= old(self)@.union_prefer_right(map_from(other.entries@, i as int)));
        }
    }

    /// A copy.
    pub fn copied(&self) -> (r: Self)
        ensures
            r@ == self@,
            r.entries@.len() == self.entries@.len(),
            forall|k: int|
                0 <= k < r.entries@.len() ==> (#[trigger] r.entries@[k]).0@ == self.entries@[k].0@
                    && r.entries@[k].1 == self.entries@[k].1,
    {
        let mut entries: Vec<(String, V)> = Vec::new();
        for i in 0..self.entries.len()
            invariant
                entries@.len() == i,
                forall|k: int|
                    0 <= k < i ==> (#[trigger] entries@[k]).0@ == self.entries@[k].0@
                        && entries@[k].1 == self.entries@[k].1,
        {
            entries.push((self.entries[i].0.clone(), self.entries[i].1));
        }
        proof {
            lemma_same_names(entries@, self.entries@, 0);
        }
        NameMap { entries }
    }
}

proof fn lemma_same_names<V>(a: Seq<(String, V)>, b: Seq<(String, V)>, from: int)
    requires
        a.len() == b.len(),
        0 <= from,
        forall|k: int|
            0 <= k < a.len() ==> (#[trigger] a[k]).0@ == b[k].0@ && a[k].1 == b[k].1,
    ensures
        map_from(a, from) == map_from(b, from),
    decreases a.len() - from,
{
    if from < a.len() {
        lemma_same_names(a, b, from + 1);
        assert(a[from].0@ == b[from].0@);
    }
}

/// A name that has an entry has a value.
pub proof fn lemma_named<V>(entries: Seq<(String, V)>, from: int, at: int)
    requires
        0 <= from <= at < entries.len(),
    ensures
        map_from(entries, from).dom().contains(entries[at].0@),
    decreases at - from,
{
    if from < at {
        lemma_named(entries, from + 1, at);
    }
}

/// A name that has a value has an entry.
pub proof fn lemma_entry_of<V>(entries: Seq<(String, V)>, from: int, name: Seq<char>)
    requires
        0 <= from,
        map_from(entries, from).dom().contains(name),
    ensures
        exists|k: int| from <= k < entries.len() && (#[trigger] entries[k]).0@ == name,
    decreases entries.len() - from,
{
    if from < entries.len() {
        if entries[from].0@ != name {
            lemma_entry_of(entries, from + 1, name);
        }
    }
}

/// A name has the value of the first entry with that name, and none exactly where no
/// entry has it.
pub proof fn law_first_entry_counts<V>(m: NameMap<V>, name: Seq<char>)
    ensures
        match looked_up(m@, name) {
            Some(v) => exists|k: int|
                {
                    &&& 0 <= k < m.entries@.len()
                    &&& (#[trigger] m.entries@[k]).0@ == name
                    &&& m.entries@[k].1 == v
                    &&& forall|j: int| 0 <= j < k ==> (#[trigger] m.entries@[j]).0@ != name
                },
            None => forall|j: int|
                0 <= j < m.entries@.len() ==> (#[trigger] m.entries@[j]).0@ != name,
        },
{
    lemma_first_entry(m.entries@, name, 0);
}

proof fn lemma_first_entry<V>(entries: Seq<(String, V)>, name: Seq<char>, from: int)
    requires
        0 <= from <= entries.len(),
    ensures
        match looked_up(map_from(entries, from), name) {
            Some(v) => exists|k: int|
                {
                    &&& from <= k < entries.len()
                    &&& (#[trigger] entries[k]).0@ == name
                    &&& entries[k].1 == v
                    &&& forall|j: int| from <= j < k ==> (#[trigger] entries[j]).0@ != name
                },
            None => forall|j: int| from <= j < entries.len() ==> (#[trigger] entries[j]).0@ != name,
        },
    decreases entries.len() - from,
{
    if from < entries.len() {
        lemma_first_entry(entries, name, from + 1);
        if entries[from].0@ == name {
            assert(entries[from].0@ == name);
        } else if let Some(v) = looked_up(map_from(entries, from + 1), name) {
            let k = choose|k: int|
                {
                    &&& from + 1 <= k < entries.len()
                    &&& (#[trigger] entries[k]).0@ == name
                    &&& entries[k].1 == v
                    &&& forall|j: int| from + 1 <= j < k ==> (#[trigger] entries[j]).0@ != name
                };
            assert(entries[k].0@ == name);
        }
    }
}

} // verus!
