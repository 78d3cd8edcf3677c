//! A map from names to values that keeps its entries in the order in which
//! their names first came.

use vstd::prelude::*;

verus! {

/// One entry of a [`NameMap`].
#[derive(Debug)]
pub struct Entry<V> {
    pub name: String,
    pub value: V,
}

/// A map keyed by name. No name occurs twice; entries stand in the order in
/// which their names were first inserted.
#[derive(Debug)]
pub struct NameMap<V> {
    pub entries: Vec<Entry<V>>,
}

/// The position of the first entry, from `from` on, that has the name.
pub open spec fn position_of<V>(entries: Seq<Entry<V>>, name: Seq<char>, from: int) -> Option<int>
    decreases entries.len() - from,
{
    if from < 0 || from >= entries.len() {
        None
    } else if entries[from].name@ == name {
        Some(from)
    } else {
        position_of(entries, name, from + 1)
    }
}

/// The value entered under the name, if there is one.
pub open spec fn lookup<V>(entries: Seq<Entry<V>>, name: Seq<char>) -> Option<V> {
    match position_of(entries, name, 0) {
        Some(i) => Some(entries[i].value),
        None => None,
    }
}

/// The entries after `value` is entered under `name`: in place of the value
/// that stood under the name, or else at the end.
pub open spec fn inserted<V>(entries: Seq<Entry<V>>, name: String, value: V) -> Seq<Entry<V>> {
    match position_of(entries, name@, 0) {
        Some(i) => entries.update(i, Entry { name: entries[i].name, value }),
        None => entries.push(Entry { name, value }),
    }
}

/// No name occurs twice.
pub open spec fn distinct_names<V>(entries: Seq<Entry<V>>) -> bool {
    forall|i: int, j: int|
        0 <= i < j < entries.len() ==> (#[trigger] entries[i]).name@ != (#[trigger] entries[j]).name@
}

/// Where the search for a name ends: at the first entry of that name from
/// `from` on, or nowhere if no entry from `from` on has it.
pub proof fn lemma_position_of<V>(entries: Seq<Entry<V>>, name: Seq<char>, from: int)
    requires
        0 <= from,
    ensures
        match position_of(entries, name, from) {
            Some(i) => from <= i < entries.len() && entries[i].name@ == name && forall|j: int|
                from <= j < i ==> (#[trigger] entries[j]).name@ != name,
            None => forall|j: int| from <= j < entries.len() ==> (#[trigger] entries[j]).name@ != name,
        },
    decreases entries.len() - from,
{
    if from >= entries.len() {
    } else if entries[from].name@ == name {
    } else {
        lemma_position_of(entries, name, from + 1);
    }
}

/// Entering a value keeps the names distinct. The value is then found under
/// its name, and what stands under other names is untouched. The map grows
/// by one entry exactly when the name is new.
pub proof fn lemma_inserted<V>(entries: Seq<Entry<V>>, name: String, value: V)
    requires
        distinct_names(entries),
    ensures
        distinct_names(inserted(entries, name, value)),
        lookup(inserted(entries, name, value), name@) == Some(value),
        forall|other: Seq<char>|
            other != name@ ==> #[trigger] lookup(inserted(entries, name, value), other) == lookup(
                entries,
                other,
            ),
        inserted(entries, name, value).len() == if lookup(entries, name@) is Some {
            entries.len()
        } else {
            entries.len() + 1
        },
{
    assert forall|other: Seq<char>| other != name@ implies #[trigger] lookup(
        inserted(entries, name, value),
        other,
    ) == lookup(entries, other) by {
        lemma_lookup_elsewhere(entries, name, value, other, 0);
    }
    lemma_position_of(entries, name@, 0);
    let after = inserted(entries, name, value);
    lemma_position_of(after, name@, 0);
    match position_of(entries, name@, 0) {
        Some(i) => {
            assert(after[i].name@ == name@);
            assert forall|a: int, b: int| 0 <= a < b < after.len() implies (#[trigger] after[a]).name@
                != (#[trigger] after[b]).name@ by {
                assert(after[a].name@ == entries[a].name@);
                assert(after[b].name@ == entries[b].name@);
            }
        },
        None => {
            assert(after[entries.len() as int].name@ == name@);
            assert forall|a: int, b: int| 0 <= a < b < after.len() implies (#[trigger] after[a]).name@
                != (#[trigger] after[b]).name@ by {
                assert(after[a].name@ == entries[a].name@);
                if b < entries.len() {
                    assert(after[b].name@ == entries[b].name@);
                }
            }
        },
    }
}

/// The search for another name goes the same way after a value is entered.
proof fn lemma_lookup_elsewhere<V>(
    entries: Seq<Entry<V>>,
    name: String,
    value: V,
    other: Seq<char>,
    from: int,
)
    requires
        other != name@,
        0 <= from,
    ensures
        position_of(inserted(entries, name, value), other, from) == position_of(
            entries,
            other,
            from,
        ),
        position_of(entries, other, from) matches Some(i) ==> inserted(entries, name, value)[i].value
            == entries[i].value,
    decreases entries.len() + 1 - from,
{
    let after = inserted(entries, name, value);
    lemma_position_of(entries, name@, 0);
    if from < after.len() {
        if from < entries.len() {
            assert(after[from].name@ == entries[from].name@);
            if entries[from].name@ != other {
                lemma_lookup_elsewhere(entries, name, value, other, from + 1);
            } else {
                assert(after[from].value == entries[from].value);
            }
        } else {
            assert(after[from].name@ == name@);
            lemma_lookup_elsewhere(entries, name, value, other, from + 1);
        }
    }
}

impl<V> NameMap<V> {
    /// No name occurs twice.
    pub open spec fn wf(&self) -> bool {
        distinct_names(self.entries@)
    }

    /// The value entered under the name, if there is one.
    pub open spec fn spec_get(&self, name: Seq<char>) -> Option<V> {
        lookup(self.entries@, name)
    }

    /// A map without entries.
    pub fn new() -> (m: NameMap<V>)
        ensures
            m.entries@.len() == 0,
            m.wf(),
    {
        NameMap { entries: Vec::new() }
    }

    /// The number of entries.
    pub fn len(&self) -> (n: usize)
        ensures
            n == self.entries@.len(),
    {
        self.entries.len()
    }

    fn find(&self, name: &str) -> (r: Option<usize>)
        ensures
            match r {
                Some(i) => position_of(self.entries@, name@, 0) == Some(i as int) && i
                    < self.entries@.len(),
                None => position_of(self.entries@, name@, 0) is None,
            },
    {
        let mut k: usize = 0;
        while k < self.entries.len()
            invariant
                k <= self.entries@.len(),
                position_of(self.entries@, name@, k as int) == position_of(self.entries@, name@, 0),
            decreases self.entries@.len() - k,
        {
            if crate::text::str_is(self.entries[k].name.as_str(), name) {
                return Some(k);
            }
            k += 1;
        }
        None
    }

    /// Whether a value is entered under the name.
    pub fn contains_key(&self, name: &str) -> (b: bool)
        ensures
            b == self.spec_get(name@) is Some,
    {
        self.find(name).is_some()
    }

    /// The value entered under the name, if there is one.
    pub fn get(&self, name: &str) -> (r: Option<&V>)
        ensures
            match r {
                Some(v) => self.spec_get(name@) == Some(*v),
                None => self.spec_get(name@) is None,
            },
    {
        match self.find(name) {
            Some(i) => Some(&self.entries[i].value),
            None => None,
        }
    }

    /// Enters `value` under `name`. A value that stood under the name is
    /// replaced, and the entry keeps its place.
    pub fn insert(&mut self, name: String, value: V)
        ensures
            final(self).entries@ == inserted(old(self).entries@, name, value),
    {
        match self.find(name.as_str()) {
            Some(i) => {
                self.entries[i].value = value;
                assert(self.entries@ =~= inserted(old(self).entries@, name, value));
            },
            None => {
                self.entries.push(Entry { name, value });
            },
        }
    }
}

} // verus!
