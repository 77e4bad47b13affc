//! Maps from names to values, kept as entries in the order of their names.
use vstd::prelude::*;

use crate::text::{
    lemma_less_text_irreflexive, lemma_less_text_total, lemma_less_text_transitive, less_text,
    same_text, text_less,
};

verus! {

/// A map from names to values. Built up by `insert`, its entries are in the
/// order of their names and no name occurs twice.
#[derive(Debug, PartialEq, Eq)]
pub struct NameMap<V> {
    /// The entries.
    pub entries: Vec<(String, V)>,
}

impl<V: View> View for NameMap<V> {
    type V = Seq<(Seq<char>, V::V)>;

    open spec fn view(&self) -> Seq<(Seq<char>, V::V)> {
        keyed(self.entries@)
    }
}

/// Entries with their names as characters and their values by their views.
pub open spec fn keyed<V: View>(entries: Seq<(String, V)>) -> Seq<(Seq<char>, V::V)> {
    Seq::new(entries.len(), |i: int| (entries[i].0@, entries[i].1@))
}

/// The names of entries.
pub open spec fn names<V>(entries: Seq<(Seq<char>, V)>) -> Seq<Seq<char>> {
    Seq::new(entries.len(), |i: int| entries[i].0)
}

/// Whether the names ascend.
pub open spec fn ascending(names: Seq<Seq<char>>) -> bool {
    forall|i: int, j: int|
        0 <= i < j < names.len() ==> less_text(#[trigger] names[i], #[trigger] names[j])
}

/// The value of the first entry with a name.
pub open spec fn lookup<V>(entries: Seq<(Seq<char>, V)>, name: Seq<char>) -> Option<V>
    decreases entries.len(),
{
    if entries.len() == 0 {
        None
    } else {
        match lookup(entries.drop_last(), name) {
            Some(value) => Some(value),
            None => if entries.last().0 == name {
                Some(entries.last().1)
            } else {
                None
            },
        }
    }
}

/// How many entries at the front come before a name.
pub open spec fn place<V>(entries: Seq<(Seq<char>, V)>, name: Seq<char>) -> int
    decreases entries.len(),
{
    if entries.len() == 0 || !less_text(entries[0].0, name) {
        0
    } else {
        1 + place(entries.drop_first(), name)
    }
}

/// The position of the first entry with a name, or the number of entries.
pub open spec fn first_with<V>(entries: Seq<(Seq<char>, V)>, name: Seq<char>) -> int
    decreases entries.len(),
{
    if entries.len() == 0 || entries[0].0 == name {
        0
    } else {
        1 + first_with(entries.drop_first(), name)
    }
}

/// The entries with the value of a name set: in place where the name is there,
/// else as a new entry in front of the names that come after it.
pub open spec fn inserted<V>(entries: Seq<(Seq<char>, V)>, name: Seq<char>, value: V) -> Seq<
    (Seq<char>, V),
> {
    let at = first_with(entries, name);
    if at < entries.len() {
        entries.update(at, (entries[at].0, value))
    } else {
        entries.insert(place(entries, name), (name, value))
    }
}

/// The entries without the first one that has the name.
pub open spec fn removed<V>(entries: Seq<(Seq<char>, V)>, name: Seq<char>) -> Seq<(Seq<char>, V)> {
    let at = first_with(entries, name);
    if at < entries.len() {
        entries.remove(at)
    } else {
        entries
    }
}

proof fn lemma_first_with<V>(entries: Seq<(Seq<char>, V)>, name: Seq<char>, at: int)
    requires
        0 <= at <= entries.len(),
        forall|j: int| 0 <= j < at ==> (#[trigger] entries[j]).0 != name,
        at < entries.len() ==> entries[at].0 == name,
    ensures
        first_with(entries, name) == at,
    decreases at,
{
    if at > 0 {
        assert(entries[0].0 != name);
        let rest = entries.drop_first();
        assert forall|j: int| 0 <= j < at - 1 implies (#[trigger] rest[j]).0 != name by {
            assert(rest[j] == entries[j + 1]);
        }
        lemma_first_with(rest, name, at - 1);
    }
}

/// The first position with a name: nothing before it has the name, and it has it
/// unless it is the end.
pub proof fn lemma_first_with_means<V>(entries: Seq<(Seq<char>, V)>, name: Seq<char>)
    ensures
        0 <= first_with(entries, name) <= entries.len(),
        forall|j: int|
            0 <= j < first_with(entries, name) ==> (#[trigger] entries[j]).0 != name,
        first_with(entries, name) < entries.len() ==> entries[first_with(entries, name)].0
            == name,
    decreases entries.len(),
{
    if entries.len() > 0 && entries[0].0 != name {
        let rest = entries.drop_first();
        lemma_first_with_means(rest, name);
        assert forall|j: int| 0 <= j < first_with(entries, name) implies (#[trigger] entries[j]).0
            != name by {
            if j > 0 {
                assert(rest[j - 1] == entries[j]);
            }
        }
    }
}

proof fn lemma_place<V>(entries: Seq<(Seq<char>, V)>, name: Seq<char>)
    ensures
        0 <= place(entries, name) <= entries.len(),
        forall|j: int|
            0 <= j < place(entries, name) ==> less_text((#[trigger] entries[j]).0, name),
        place(entries, name) < entries.len() ==> !less_text(
            entries[place(entries, name)].0,
            name,
        ),
    decreases entries.len(),
{
    if entries.len() > 0 && less_text(entries[0].0, name) {
        let rest = entries.drop_first();
        lemma_place(rest, name);
        assert forall|j: int| 0 <= j < place(entries, name) implies less_text(
            (#[trigger] entries[j]).0,
            name,
        ) by {
            if j > 0 {
                assert(rest[j - 1] == entries[j]);
            }
        }
    }
}

proof fn lemma_place_is<V>(entries: Seq<(Seq<char>, V)>, name: Seq<char>, at: int)
    requires
        0 <= at <= entries.len(),
        forall|j: int| 0 <= j < at ==> less_text((#[trigger] entries[j]).0, name),
        at < entries.len() ==> !less_text(entries[at].0, name),
    ensures
        place(entries, name) == at,
    decreases at,
{
    if at > 0 {
        assert(less_text(entries[0].0, name));
        let rest = entries.drop_first();
        assert forall|j: int| 0 <= j < at - 1 implies less_text((#[trigger] rest[j]).0, name) by {
            assert(rest[j] == entries[j + 1]);
        }
        lemma_place_is(rest, name, at - 1);
    }
}

/// What is looked up is the value of the first entry with the name.
pub proof fn lemma_lookup<V>(entries: Seq<(Seq<char>, V)>, name: Seq<char>)
    ensures
        first_with(entries, name) < entries.len() ==> lookup(entries, name) == Some(
            entries[first_with(entries, name)].1,
        ),
        first_with(entries, name) == entries.len() ==> lookup(entries, name) is None,
        names(entries).contains(name) == (lookup(entries, name) is Some),
    decreases entries.len(),
{
    lemma_first_with_means(entries, name);
    if entries.len() > 0 {
        let front = entries.drop_last();
        lemma_lookup(front, name);
        lemma_first_with_means(front, name);
        let at = first_with(entries, name);
        if at < entries.len() - 1 {
            assert forall|j: int| 0 <= j < at implies (#[trigger] front[j]).0 != name by {
                assert(front[j] == entries[j]);
            }
            assert(front[at] == entries[at]);
            lemma_first_with(front, name, at);
        } else {
            assert forall|j: int| 0 <= j < front.len() implies (#[trigger] front[j]).0 != name by {
                assert(front[j] == entries[j]);
            }
            lemma_first_with(front, name, front.len() as int);
        }
    }
    let at = first_with(entries, name);
    if at < entries.len() {
        assert(names(entries)[at] == name);
    } else {
        assert forall|j: int| 0 <= j < names(entries).len() implies names(entries)[j] != name by {
            assert(names(entries)[j] == entries[j].0);
        }
    }
}

/// Setting a name changes what is looked up under it, and nothing else.
pub proof fn law_lookup_after_insert<V>(
    entries: Seq<(Seq<char>, V)>,
    name: Seq<char>,
    value: V,
    other: Seq<char>,
)
    ensures
        lookup(inserted(entries, name, value), other) == if other == name {
            Some(value)
        } else {
            lookup(entries, other)
        },
{
    let after = inserted(entries, name, value);
    let at = first_with(entries, name);
    lemma_first_with_means(entries, name);
    lemma_first_with_means(entries, other);
    lemma_lookup(entries, other);
    lemma_lookup(after, other);
    let found = first_with(entries, other);
    if at < entries.len() {
        lemma_first_with(after, other, found);
    } else {
        let spot = place(entries, name);
        lemma_place(entries, name);
        if other == name {
            assert forall|j: int| 0 <= j < spot implies (#[trigger] after[j]).0 != other by {
                assert(after[j] == entries[j]);
            }
            lemma_first_with(after, other, spot);
        } else {
            let moved = if found < spot {
                found
            } else {
                found + 1
            };
            assert forall|j: int| 0 <= j < moved implies (#[trigger] after[j]).0 != other by {
                if j < spot {
                    assert(after[j] == entries[j]);
                } else if j > spot {
                    assert(after[j] == entries[j - 1]);
                }
            }
            if found < entries.len() {
                assert(after[moved] == entries[found]);
            }
            lemma_first_with(after, other, moved);
        }
    }
}

/// Setting a name keeps the names in order.
pub proof fn law_insert_keeps_order<V>(entries: Seq<(Seq<char>, V)>, name: Seq<char>, value: V)
    requires
        ascending(names(entries)),
    ensures
        ascending(names(inserted(entries, name, value))),
{
    let after = inserted(entries, name, value);
    let at = first_with(entries, name);
    lemma_first_with_means(entries, name);
    if at < entries.len() {
        assert(names(after) =~= names(entries));
    } else {
        let spot = place(entries, name);
        lemma_place(entries, name);
        assert(names(after) =~= names(entries).insert(spot, name));
        assert forall|i: int, j: int| 0 <= i < j < names(after).len() implies less_text(
            #[trigger] names(after)[i],
            #[trigger] names(after)[j],
        ) by {
            let old_names = names(entries);
            if j == spot {
                assert(less_text(entries[i].0, name));
            } else if i == spot {
                assert(names(after)[j] == old_names[j - 1]);
                assert(entries[spot].0 != name);
                lemma_less_text_total(entries[spot].0, name);
                assert(less_text(name, old_names[spot]));
                if j - 1 > spot {
                    assert(less_text(old_names[spot], old_names[j - 1]));
                    lemma_less_text_transitive(name, old_names[spot], old_names[j - 1]);
                }
            } else {
                let a = if i < spot {
                    i
                } else {
                    i - 1
                };
                let b = if j < spot {
                    j
                } else {
                    j - 1
                };
                assert(names(after)[i] == old_names[a]);
                assert(names(after)[j] == old_names[b]);
            }
        }
    }
}

/// In entries with ascending names no name occurs twice, and every entry is the
/// one that is looked up under its name.
pub proof fn law_ascending_unique<V>(entries: Seq<(Seq<char>, V)>, i: int)
    requires
        ascending(names(entries)),
        0 <= i < entries.len(),
    ensures
        lookup(entries, entries[i].0) == Some(entries[i].1),
        forall|j: int| 0 <= j < entries.len() && j != i ==> (#[trigger] entries[j]).0
            != entries[i].0,
{
    assert forall|j: int| 0 <= j < entries.len() && j != i implies (#[trigger] entries[j]).0
        != entries[i].0 by {
        assert(names(entries)[j] == entries[j].0);
        assert(names(entries)[i] == entries[i].0);
        lemma_less_text_irreflexive(entries[i].0);
        if j < i {
            assert(less_text(names(entries)[j], names(entries)[i]));
        } else {
            assert(less_text(names(entries)[i], names(entries)[j]));
        }
    }
    lemma_first_with(entries, entries[i].0, i);
    lemma_lookup(entries, entries[i].0);
}

/// Removing a name leaves nothing to look up under it, and changes nothing else,
/// in entries with ascending names.
pub proof fn law_lookup_after_remove<V>(
    entries: Seq<(Seq<char>, V)>,
    name: Seq<char>,
    other: Seq<char>,
)
    requires
        ascending(names(entries)),
    ensures
        lookup(removed(entries, name), other) == if other == name {
            None
        } else {
            lookup(entries, other)
        },
        ascending(names(removed(entries, name))),
{
    let after = removed(entries, name);
    let at = first_with(entries, name);
    lemma_first_with_means(entries, name);
    lemma_first_with_means(entries, other);
    lemma_lookup(entries, other);
    lemma_lookup(after, other);
    if at < entries.len() {
        law_ascending_unique(entries, at);
        let found = first_with(entries, other);
        let moved = if other == name {
            entries.len() - 1
        } else if found < at {
            found
        } else {
            found - 1
        };
        assert forall|j: int| 0 <= j < moved implies (#[trigger] after[j]).0 != other by {
            if j < at {
                assert(after[j] == entries[j]);
            } else {
                assert(after[j] == entries[j + 1]);
            }
        }
        if moved < after.len() {
            assert(after[moved] == entries[found]);
        }
        lemma_first_with(after, other, moved);
        assert forall|i: int, j: int| 0 <= i < j < names(after).len() implies less_text(
            #[trigger] names(after)[i],
            #[trigger] names(after)[j],
        ) by {
            let a = if i < at {
                i
            } else {
                i + 1
            };
            let b = if j < at {
                j
            } else {
                j + 1
            };
            assert(names(after)[i] == names(entries)[a]);
            assert(names(after)[j] == names(entries)[b]);
        }
    }
}

impl<V: View> NameMap<V> {
    /// An empty map.
    pub fn new() -> (map: Self)
        ensures
            map@ == Seq::<(Seq<char>, V::V)>::empty(),
            ascending(names(map@)),
    {
        let map: Self = NameMap { entries: Vec::new() };
        assert(map@ =~= Seq::<(Seq<char>, V::V)>::empty());
        map
    }

    fn position(&self, name: &str) -> (at: usize)
        ensures
            at == first_with(self@, name@),
            at <= self.entries@.len(),
    {
        let mut i: usize = 0;
        while i < self.entries.len()
            invariant
                i <= self.entries@.len(),
                forall|j: int| 0 <= j < i ==> (#[trigger] self@[j]).0 != name@,
            decreases self.entries@.len() - i,
        {
            assert(self@[i as int].0 == self.entries@[i as int].0@);
            if same_text(self.entries[i].0.as_str(), name) {
                proof {
                    lemma_first_with(self@, name@, i as int);
                }
                return i;
            }
            i = i + 1;
        }
        proof {
            lemma_first_with(self@, name@, i as int);
        }
        i
    }

    /// Whether the map has no entry.
    pub fn is_empty(&self) -> (empty: bool)
        ensures
            empty == (self@.len() == 0),
    {
        self.entries.len() == 0
    }

    /// Whether a name is in the map.
    pub fn contains_key(&self, name: &str) -> (found: bool)
        ensures
            found == names(self@).contains(name@),
            found == (lookup(self@, name@) is Some),
    {
        let at: usize = self.position(name);
        proof {
            lemma_lookup(self@, name@);
            lemma_first_with_means(self@, name@);
        }
        at < self.entries.len()
    }

    /// The value of a name.
    pub fn get(&self, name: &str) -> (value: Option<&V>)
        ensures
            match value {
                Some(found) => lookup(self@, name@) == Some(found@),
                None => lookup(self@, name@) is None,
            },
    {
        let at: usize = self.position(name);
        proof {
            lemma_lookup(self@, name@);
            lemma_first_with_means(self@, name@);
        }
        if at < self.entries.len() {
            Some(&self.entries[at].1)
        } else {
            None
        }
    }

    /// Set the value of a name.
    pub fn insert(&mut self, name: String, value: V)
        ensures
            final(self)@ == inserted(old(self)@, name@, value@),
            ascending(names(old(self)@)) ==> ascending(names(final(self)@)),
    {
        let ghost before = self@;
        let ghost after = inserted(before, name@, value@);
        proof {
            if ascending(names(before)) {
                law_insert_keeps_order(before, name@, value@);
            }
            lemma_first_with_means(before, name@);
        }
        let at: usize = self.position(name.as_str());
        if at < self.entries.len() {
            let key: String = self.entries[at].0.clone();
            self.entries.set(at, (key, value));
        } else {
            let mut spot: usize = 0;
            while spot < self.entries.len() && text_less(
                self.entries[spot].0.as_str(),
                name.as_str(),
            )
                invariant
                    spot <= self.entries@.len(),
                    self@ == before,
                    forall|j: int|
                        0 <= j < spot ==> less_text((#[trigger] before[j]).0, name@),
                decreases self.entries@.len() - spot,
            {
                assert(before[spot as int].0 == self.entries@[spot as int].0@);
                spot = spot + 1;
            }
            proof {
                if spot < before.len() {
                    assert(before[spot as int].0 == self.entries@[spot as int].0@);
                }
                lemma_place_is(before, name@, spot as int);
            }
            self.entries.insert(spot, (name, value));
        }
        assert(self@ =~= after);
    }

    /// Take the entry of a name out of the map.
    pub fn remove(&mut self, name: &str) -> (value: Option<V>)
        ensures
            final(self)@ == removed(old(self)@, name@),
            match value {
                Some(found) => lookup(old(self)@, name@) == Some(found@),
                None => lookup(old(self)@, name@) is None,
            },
            ascending(names(old(self)@)) ==> ascending(names(final(self)@)),
    {
        let ghost before = self@;
        let at: usize = self.position(name);
        proof {
            if ascending(names(before)) {
                law_lookup_after_remove(before, name@, name@);
            }
            lemma_lookup(before, name@);
            lemma_first_with_means(before, name@);
        }
        if at < self.entries.len() {
            let (_, value) = self.entries.remove(at);
            assert(self@ =~= removed(before, name@));
            Some(value)
        } else {
            None
        }
    }
}

impl<V: View> Default for NameMap<V> {
    fn default() -> (map: Self)
        ensures
            map@ == Seq::<(Seq<char>, V::V)>::empty(),
    {
        Self::new()
    }
}

} // verus!
