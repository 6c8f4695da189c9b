//! A map from names to values, kept in the order of registration.

use vstd::prelude::*;

verus! {

/// One registered name with its value.
#[derive(Debug, Clone)]
pub struct NameEntry<V> {
    pub name: String,
    pub value: V,
}

/// A finite map keyed by name. Its model is a `Map` from the name's
/// characters to the value; a name is looked up by a linear scan. No name
/// occurs twice among the entries.
#[derive(Debug)]
pub struct NameMap<V> {
    entries: Vec<NameEntry<V>>,
}

/// Whether no name occurs twice among `entries`.
pub open spec fn distinct_names<V>(entries: Seq<NameEntry<V>>) -> bool {
    forall|i: int, j: int|
        0 <= i < j < entries.len() ==> (#[trigger] entries[i]).name@ != (#[trigger] entries[j]).name@
}

/// The index of the first entry of `entries` called `name`, or the length of
/// `entries` when there is none.
pub open spec fn position<V>(entries: Seq<NameEntry<V>>, name: Seq<char>) -> int
    decreases entries.len(),
{
    if entries.len() == 0 {
        0
    } else {
        let before = position(entries.drop_last(), name);
        if before < entries.len() - 1 {
            before
        } else if entries.last().name@ == name {
            entries.len() - 1
        } else {
            entries.len() as int
        }
    }
}

/// `position` is the least index that carries the name.
pub proof fn lemma_position<V>(entries: Seq<NameEntry<V>>, name: Seq<char>)
    ensures
        0 <= position(entries, name) <= entries.len(),
        position(entries, name) < entries.len() ==> entries[position(entries, name)].name@ == name,
        forall|j: int| 0 <= j < position(entries, name) ==> entries[j].name@ != name,
    decreases entries.len(),
{
    if entries.len() > 0 {
        let front = entries.drop_last();
        lemma_position(front, name);
        assert forall|j: int| 0 <= j < position(entries, name) implies entries[j].name@ != name by {
            if j < front.len() {
                assert(front[j] == entries[j]);
            }
        }
    }
}

/// The map that a sequence of entries stands for: the first entry of a name
/// gives its value.
pub open spec fn map_of<V>(entries: Seq<NameEntry<V>>) -> Map<Seq<char>, V> {
    Map::new(
        |name: Seq<char>| position(entries, name) < entries.len(),
        |name: Seq<char>| entries[position(entries, name)].value,
    )
}

impl<V> View for NameMap<V> {
    type V = Map<Seq<char>, V>;

    closed spec fn view(&self) -> Map<Seq<char>, V> {
        map_of(self.entries@)
    }
}

impl<V> NameMap<V> {
    #[verifier::type_invariant]
    spec fn names_occur_once(self) -> bool {
        distinct_names(self.entries@)
    }

    /// An empty map.
    pub fn new() -> (m: Self)
        ensures
            m@ == Map::<Seq<char>, V>::empty(),
    {
        let m = NameMap { entries: Vec::new() };
        assert(m@ =~= Map::<Seq<char>, V>::empty());
        m
    }

    /// The number of names that have a value.
    pub fn len(&self) -> (n: usize)
        ensures
            self@.dom().finite(),
            n == self@.dom().len(),
    {
        proof {
            use_type_invariant(self);
            lemma_distinct_count(self.entries@);
        }
        self.entries.len()
    }

    fn find(&self, name: &String) -> (i: usize)
        ensures
            i == position(self.entries@, name@),
    {
        let mut i: usize = 0;
        while i < self.entries.len()
            invariant
                i <= self.entries@.len(),
                position(self.entries@.take(i as int), name@) == i,
            decreases self.entries@.len() - i,
        {
            let ghost grown = self.entries@.take(i + 1);
            assert(grown.drop_last() =~= self.entries@.take(i as int));
            if self.entries[i].name == *name {
                proof {
                    lemma_position_stable(self.entries@, name@, i + 1);
                }
                return i;
            }
            i += 1;
        }
        assert(self.entries@.take(i as int) =~= self.entries@);
        i
    }

    /// The value registered under `name`, if there is one.
    pub fn get(&self, name: &str) -> (found: Option<&V>)
        ensures
            match found {
                Some(value) => self@.contains_key(name@) && *value == self@[name@],
                None => !self@.contains_key(name@),
            },
    {
        let key = name.to_owned();
        let i = self.find(&key);
        if i < self.entries.len() {
            Some(&self.entries[i].value)
        } else {
            None
        }
    }

    /// Whether a value is registered under `name`.
    pub fn contains(&self, name: &str) -> (yes: bool)
        ensures
            yes == self@.contains_key(name@),
    {
        self.get(name).is_some()
    }

    /// Registers `value` under `name`; a value already registered under that
    /// name is replaced.
    pub fn insert(&mut self, name: String, value: V)
        ensures
            final(self)@ == old(self)@.insert(name@, value),
    {
        let i = self.find(&name);
        let ghost before = self.entries@;
        let ghost key = name@;
        proof {
            use_type_invariant(&*self);
            lemma_position(before, key);
        }
        let mut entries: Vec<NameEntry<V>> = Vec::new();
        core::mem::swap(&mut entries, &mut self.entries);
        if i < entries.len() {
            entries.set(i, NameEntry { name, value });
        } else {
            entries.push(NameEntry { name, value });
        }
        proof {
            let after = entries@;
            let grown = map_of(before).insert(key, value);
            assert forall|other: Seq<char>|
                #![trigger map_of(after).dom().contains(other)]
                #![trigger grown.dom().contains(other)]
                map_of(after).dom().contains(other) == grown.dom().contains(other) && (
                map_of(after).dom().contains(other) ==> map_of(after)[other] == grown[other]) by {
                lemma_position_after_insert(before, after, key, other, i as int);
                lemma_position(before, other);
            }
            assert(map_of(after) =~= grown);
            assert forall|a: int, b: int| 0 <= a < b < after.len() implies (#[trigger] after[a]).name@
                != (#[trigger] after[b]).name@ by {
                if a != i && b != i {
                    assert(after[a] == before[a]);
                    assert(after[b] == before[b]);
                } else if a == i {
                    if b < before.len() {
                        assert(after[b] == before[b]);
                        assert(before[a].name@ != before[b].name@);
                    }
                } else {
                    assert(after[a] == before[a]);
                    if b < before.len() {
                        assert(before[a].name@ != before[b].name@);
                    }
                }
            }
        }
        self.entries = entries;
    }
}

/// Entries without a repeated name stand for a map with as many names.
pub proof fn lemma_distinct_count<V>(entries: Seq<NameEntry<V>>)
    requires
        distinct_names(entries),
    ensures
        map_of(entries).dom().finite(),
        map_of(entries).dom().len() == entries.len(),
    decreases entries.len(),
{
    if entries.len() == 0 {
        assert(map_of(entries).dom() =~= Set::<Seq<char>>::empty());
    } else {
        let front = entries.drop_last();
        let last = entries.last();
        assert forall|i: int, j: int| 0 <= i < j < front.len() implies (#[trigger] front[i]).name@ != (
        #[trigger] front[j]).name@ by {
            assert(front[i] == entries[i]);
            assert(front[j] == entries[j]);
        }
        lemma_distinct_count(front);
        lemma_position(front, last.name@);
        if position(front, last.name@) < front.len() {
            let k = position(front, last.name@);
            assert(front[k] == entries[k]);
            assert(entries[k].name@ != entries[entries.len() - 1].name@);
        }
        assert forall|name: Seq<char>|
            map_of(entries).dom().contains(name) == map_of(front).dom().insert(last.name@).contains(
                name,
            ) by {
            lemma_position(front, name);
            lemma_position(entries, name);
        }
        assert(map_of(entries).dom() =~= map_of(front).dom().insert(last.name@));
    }
}

/// Once a name is found in a prefix, later entries do not move it.
pub proof fn lemma_position_stable<V>(entries: Seq<NameEntry<V>>, name: Seq<char>, k: int)
    requires
        0 <= k <= entries.len(),
        position(entries.take(k), name) < k,
    ensures
        position(entries, name) == position(entries.take(k), name),
    decreases entries.len() - k,
{
    if k < entries.len() {
        assert(entries.take(k + 1).drop_last() =~= entries.take(k));
        lemma_position_stable(entries, name, k + 1);
    } else {
        assert(entries.take(k) =~= entries);
    }
}

/// How the position of a name changes when the entry at index `i` is given
/// the name `key` (`i` the position of `key` before; the length appends).
pub proof fn lemma_position_after_insert<V>(
    before: Seq<NameEntry<V>>,
    after: Seq<NameEntry<V>>,
    key: Seq<char>,
    other: Seq<char>,
    i: int,
)
    requires
        i == position(before, key),
        i < before.len() ==> after.len() == before.len(),
        i == before.len() ==> after.len() == before.len() + 1,
        after[i].name@ == key,
        forall|j: int| 0 <= j < before.len() && j != i ==> after[j] == before[j],
    ensures
        position(after, other) == position(before, other) + (if other == key && i == before.len() {
            0int
        } else if position(before, other) == before.len() && i == before.len() {
            1int
        } else {
            0int
        }),
{
    lemma_position(before, key);
    lemma_position(before, other);
    lemma_position(after, other);
    let p = position(before, other);
    let q = position(after, other);
    if q < after.len() && q < before.len() {
        assert(after[q].name@ == other);
        assert(before[q].name@ == other);
    }
    if p < before.len() {
        assert(before[p].name@ == other);
        assert(after[p].name@ == other);
    }
}

} // verus!
