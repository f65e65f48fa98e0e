//! The table that embedding records are kept in while the program runs:
//! records by identifier, no identifier twice, in the order in which the
//! identifiers first arrived.

use vstd::prelude::*;

verus! {

/// The entry of `entries` that carries `id` stands at `at`.
pub open spec fn is_position<R>(entries: Seq<(Seq<char>, R)>, id: Seq<char>, at: int) -> bool {
    0 <= at < entries.len() && entries[at].0 == id
}

/// No identifier occurs twice in `entries`.
pub open spec fn ids_distinct<R>(entries: Seq<(Seq<char>, R)>) -> bool {
    forall|i: int, j: int|
        0 <= i < j < entries.len() ==> (#[trigger] entries[i]).0 != (#[trigger] entries[j]).0
}

/// Where the entry that carries `id` stands, if there is one.
pub open spec fn position_of<R>(entries: Seq<(Seq<char>, R)>, id: Seq<char>) -> Option<int> {
    if exists|at: int| is_position(entries, id, at) {
        Some(choose|at: int| is_position(entries, id, at))
    } else {
        None
    }
}

/// The record that `entries` hold under `id`, if there is one.
pub open spec fn lookup<R>(entries: Seq<(Seq<char>, R)>, id: Seq<char>) -> Option<R> {
    match position_of(entries, id) {
        Some(at) => Some(entries[at].1),
        None => None,
    }
}

/// What storing `record` under `id` makes of `entries`: the record takes the
/// place of the one held under `id`, or the end of the table where there is
/// none.
pub open spec fn stored<R>(entries: Seq<(Seq<char>, R)>, id: Seq<char>, record: R) -> Seq<
    (Seq<char>, R),
> {
    match position_of(entries, id) {
        Some(at) => entries.update(at, (id, record)),
        None => entries.push((id, record)),
    }
}

/// What deleting `id` makes of `entries`: the entry that carries it is taken
/// out, and the others keep their order.
pub open spec fn deleted<R>(entries: Seq<(Seq<char>, R)>, id: Seq<char>) -> Seq<(Seq<char>, R)> {
    match position_of(entries, id) {
        Some(at) => entries.remove(at),
        None => entries,
    }
}

/// Among distinct identifiers an entry that carries `id` is the one that
/// `position_of` names.
pub proof fn lemma_position_is<R>(entries: Seq<(Seq<char>, R)>, id: Seq<char>, at: int)
    requires
        ids_distinct(entries),
        is_position(entries, id, at),
    ensures
        position_of(entries, id) == Some(at),
{
    let chosen = choose|at: int| is_position(entries, id, at);
    assert(is_position(entries, id, chosen));
    if chosen < at {
        assert(entries[chosen].0 != entries[at].0);
    }
    if at < chosen {
        assert(entries[at].0 != entries[chosen].0);
    }
}

/// Storing keeps the identifiers distinct, makes the record the one held
/// under its identifier, and leaves every other identifier as it was.
pub proof fn lemma_stored<R>(entries: Seq<(Seq<char>, R)>, id: Seq<char>, record: R)
    requires
        ids_distinct(entries),
    ensures
        ids_distinct(stored(entries, id, record)),
        lookup(stored(entries, id, record), id) == Some(record),
        forall|other: Seq<char>|
            other != id ==> lookup(stored(entries, id, record), other) == lookup(entries, other),
        stored(entries, id, record).len() == if lookup(entries, id) is Some {
            entries.len()
        } else {
            entries.len() + 1
        },
{
    let after = stored(entries, id, record);
    match position_of(entries, id) {
        Some(at) => {
            assert(is_position(entries, id, at));
            assert forall|i: int, j: int| 0 <= i < j < after.len() implies (#[trigger] after[i]).0
                != (#[trigger] after[j]).0 by {
                assert(after[i].0 == entries[i].0);
                assert(after[j].0 == entries[j].0);
            }
            assert(is_position(after, id, at));
            lemma_position_is(after, id, at);
            assert forall|other: Seq<char>| other != id implies lookup(after, other) == lookup(
                entries,
                other,
            ) by {
                lemma_same_ids_same_lookup(entries, after, at, other);
            }
        },
        None => {
            let end = entries.len() as int;
            assert forall|i: int, j: int| 0 <= i < j < after.len() implies (#[trigger] after[i]).0
                != (#[trigger] after[j]).0 by {
                if j == end {
                    assert(!is_position(entries, id, i));
                } else {
                    assert(after[i].0 == entries[i].0);
                    assert(after[j].0 == entries[j].0);
                }
            }
            assert(is_position(after, id, end));
            lemma_position_is(after, id, end);
            assert forall|other: Seq<char>| other != id implies lookup(after, other) == lookup(
                entries,
                other,
            ) by {
                if exists|at: int| is_position(entries, other, at) {
                    let at = choose|at: int| is_position(entries, other, at);
                    assert(is_position(after, other, at));
                    lemma_position_is(after, other, at);
                    lemma_position_is(entries, other, at);
                } else {
                    if exists|at: int| is_position(after, other, at) {
                        let at = choose|at: int| is_position(after, other, at);
                        assert(is_position(entries, other, at));
                    }
                }
            }
        },
    }
}

/// Two tables that differ in one record at most, at `at`, hold the same
/// under every identifier but the one at `at`.
proof fn lemma_same_ids_same_lookup<R>(
    before: Seq<(Seq<char>, R)>,
    after: Seq<(Seq<char>, R)>,
    at: int,
    other: Seq<char>,
)
    requires
        ids_distinct(before),
        ids_distinct(after),
        0 <= at < before.len(),
        after.len() == before.len(),
        forall|i: int| 0 <= i < before.len() ==> (#[trigger] after[i]).0 == before[i].0,
        forall|i: int| 0 <= i < before.len() && i != at ==> (#[trigger] after[i]).1 == before[i].1,
        other != before[at].0,
    ensures
        lookup(after, other) == lookup(before, other),
{
    if exists|i: int| is_position(before, other, i) {
        let i = choose|i: int| is_position(before, other, i);
        assert(after[i].0 == before[i].0);
        assert(is_position(after, other, i));
        lemma_position_is(after, other, i);
        lemma_position_is(before, other, i);
    } else {
        if exists|i: int| is_position(after, other, i) {
            let i = choose|i: int| is_position(after, other, i);
            assert(after[i].0 == before[i].0);
            assert(is_position(before, other, i));
        }
    }
}

/// Deleting keeps the identifiers distinct, leaves nothing under the
/// identifier, and leaves every other identifier as it was.
pub proof fn lemma_deleted<R>(entries: Seq<(Seq<char>, R)>, id: Seq<char>)
    requires
        ids_distinct(entries),
    ensures
        ids_distinct(deleted(entries, id)),
        lookup(deleted(entries, id), id) is None,
        forall|other: Seq<char>|
            other != id ==> lookup(deleted(entries, id), other) == lookup(entries, other),
        deleted(entries, id).len() == if lookup(entries, id) is Some {
            entries.len() - 1
        } else {
            entries.len() as int
        },
{
    let after = deleted(entries, id);
    match position_of(entries, id) {
        Some(at) => {
            assert(is_position(entries, id, at));
            assert forall|i: int| 0 <= i < after.len() implies #[trigger] after[i] == entries[if i
                < at {
                i
            } else {
                i + 1
            }] by {}
            assert forall|i: int, j: int| 0 <= i < j < after.len() implies (#[trigger] after[i]).0
                != (#[trigger] after[j]).0 by {
                let from_i = if i < at { i } else { i + 1 };
                let from_j = if j < at { j } else { j + 1 };
                assert(after[i] == entries[from_i]);
                assert(after[j] == entries[from_j]);
                assert(entries[from_i].0 != entries[from_j].0);
            }
            if exists|i: int| is_position(after, id, i) {
                let i = choose|i: int| is_position(after, id, i);
                let from_i = if i < at { i } else { i + 1 };
                assert(after[i] == entries[from_i]);
                if from_i < at {
                    assert(entries[from_i].0 != entries[at].0);
                } else {
                    assert(entries[at].0 != entries[from_i].0);
                }
            }
            assert forall|other: Seq<char>| other != id implies lookup(after, other) == lookup(
                entries,
                other,
            ) by {
                if exists|i: int| is_position(entries, other, i) {
                    let i = choose|i: int| is_position(entries, other, i);
                    let to_i = if i < at { i } else { i - 1 };
                    assert(after[to_i] == entries[i]);
                    assert(is_position(after, other, to_i));
                    lemma_position_is(after, other, to_i);
                    lemma_position_is(entries, other, i);
                } else {
                    if exists|i: int| is_position(after, other, i) {
                        let i = choose|i: int| is_position(after, other, i);
                        let from_i = if i < at { i } else { i + 1 };
                        assert(after[i] == entries[from_i]);
                        assert(is_position(entries, other, from_i));
                    }
                }
            }
        },
        None => {},
    }
}

/// The entries of a table with their identifiers taken by their views.
pub open spec fn entry_views<R>(entries: Seq<(String, R)>) -> Seq<(Seq<char>, R)> {
    entries.map_values(|entry: (String, R)| (entry.0@, entry.1))
}

/// Records by identifier. No identifier occurs twice, and the entries stand
/// in the order in which their identifiers first arrived.
pub struct RecordTable<R> {
    entries: Vec<(String, R)>,
}

impl<R> View for RecordTable<R> {
    type V = Seq<(Seq<char>, R)>;

    closed spec fn view(&self) -> Seq<(Seq<char>, R)> {
        entry_views(self.entries@)
    }
}

impl<R> RecordTable<R> {
    #[verifier::type_invariant]
    spec fn distinct(self) -> bool {
        ids_distinct(self@)
    }

    /// An empty table.
    pub fn new() -> (table: RecordTable<R>)
        ensures
            table@ == Seq::<(Seq<char>, R)>::empty(),
    {
        let table = RecordTable { entries: Vec::new() };
        assert(table@ =~= Seq::<(Seq<char>, R)>::empty());
        table
    }

    /// Number of records held.
    pub fn len(&self) -> (n: usize)
        ensures
            n == self@.len(),
            ids_distinct(self@),
    {
        proof {
            use_type_invariant(self);
        }
        self.entries.len()
    }

    /// Where the entry that carries `id` stands.
    fn find(&self, id: &String) -> (found: Option<usize>)
        ensures
            match found {
                Some(at) => position_of(self@, id@) == Some(at as int),
                None => position_of(self@, id@) is None,
            },
            ids_distinct(self@),
    {
        proof {
            use_type_invariant(self);
        }
        let mut i: usize = 0;
        while i < self.entries.len()
            invariant
                i <= self.entries.len(),
                ids_distinct(self@),
                forall|k: int| 0 <= k < i ==> !is_position(self@, id@, k),
            decreases self.entries.len() - i,
        {
            if self.entries[i].0 == *id {
                proof {
                    lemma_position_is(self@, id@, i as int);
                }
                return Some(i);
            }
            i += 1;
        }
        None
    }

    /// The record held under `id`.
    pub fn get(&self, id: &str) -> (record: Option<&R>)
        ensures
            match record {
                Some(r) => lookup(self@, id@) == Some(*r),
                None => lookup(self@, id@) is None,
            },
    {
        let key = id.to_owned();
        match self.find(&key) {
            Some(at) => Some(&self.entries[at].1),
            None => None,
        }
    }

    /// Stores `record` under `id`, in place of the record held under it or,
    /// where there is none, at the end of the table.
    pub fn store(&mut self, id: String, record: R)
        ensures
            final(self)@ == stored(old(self)@, id@, record),
            ids_distinct(final(self)@),
    {
        let found = self.find(&id);
        proof {
            lemma_stored(self@, id@, record);
        }
        let mut entries: Vec<(String, R)> = Vec::new();
        assert(entry_views(entries@) =~= Seq::<(Seq<char>, R)>::empty());
        core::mem::swap(&mut self.entries, &mut entries);
        match found {
            Some(at) => {
                entries.set(at, (id, record));
            },
            None => {
                entries.push((id, record));
            },
        }
        assert(entry_views(entries@) =~= stored(old(self)@, id@, record));
        core::mem::swap(&mut self.entries, &mut entries);
    }

    /// Deletes the record held under `id` and says whether there was one.
    pub fn delete(&mut self, id: &str) -> (found: bool)
        ensures
            found == (lookup(old(self)@, id@) is Some),
            final(self)@ == deleted(old(self)@, id@),
            ids_distinct(final(self)@),
    {
        let key = id.to_owned();
        let found = self.find(&key);
        proof {
            lemma_deleted(self@, id@);
        }
        match found {
            Some(at) => {
                let mut entries: Vec<(String, R)> = Vec::new();
                assert(entry_views(entries@) =~= Seq::<(Seq<char>, R)>::empty());
                core::mem::swap(&mut self.entries, &mut entries);
                let _ = entries.remove(at);
                assert(entry_views(entries@) =~= deleted(old(self)@, id@));
                core::mem::swap(&mut self.entries, &mut entries);
                true
            },
            None => false,
        }
    }

    /// Every identifier with the record held under it, in the order of the
    /// table.
    pub fn entries(&self) -> (all: Vec<(&str, &R)>)
        ensures
            all@.len() == self@.len(),
            forall|i: int|
                0 <= i < all@.len() ==> (#[trigger] all@[i]).0@ == self@[i].0 && *all@[i].1
                    == self@[i].1,
    {
        let mut all: Vec<(&str, &R)> = Vec::new();
        let mut i: usize = 0;
        while i < self.entries.len()
            invariant
                i <= self.entries.len(),
                all@.len() == i,
                forall|k: int|
                    0 <= k < i ==> (#[trigger] all@[k]).0@ == self@[k].0 && *all@[k].1
                        == self@[k].1,
            decreases self.entries.len() - i,
        {
            all.push((self.entries[i].0.as_str(), &self.entries[i].1));
            i += 1;
        }
        all
    }

    /// Every record held, in the order of the table.
    pub fn records(&self) -> (all: Vec<&R>)
        ensures
            all@.len() == self@.len(),
            forall|i: int| 0 <= i < all@.len() ==> *(#[trigger] all@[i]) == self@[i].1,
    {
        let mut all: Vec<&R> = Vec::new();
        let mut i: usize = 0;
        while i < self.entries.len()
            invariant
                i <= self.entries.len(),
                all@.len() == i,
                forall|k: int| 0 <= k < i ==> *(#[trigger] all@[k]) == self@[k].1,
            decreases self.entries.len() - i,
        {
            all.push(&self.entries[i].1);
            i += 1;
        }
        all
    }
}

} // verus!
