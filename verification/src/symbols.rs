//! The table of the labels that a program declares.
use crate::text::{copy_bytes, same_bytes};
use vstd::prelude::*;
use vstd::string::*;

verus! {

/// A table that gives each declared label its address.
///
/// A name is declared at most once. Names are held, and compared, as the
/// bytes of their UTF-8 form, so that case counts. The order in which the
/// labels were declared is of no account.
#[derive(Debug)]
pub struct SymbolTable<A> {
    entries: Vec<(Vec<u8>, A)>,
}

/// The address that the first entry at or after `from` gives to `name`.
pub open spec fn found_from<A>(entries: Seq<(Vec<u8>, A)>, name: Seq<u8>, from: int) -> Option<A>
    decreases entries.len() - from,
{
    if from < 0 || from >= entries.len() {
        None
    } else if entries[from].0@ == name {
        Some(entries[from].1)
    } else {
        found_from(entries, name, from + 1)
    }
}

/// A name that is found is the name of an entry, and no entry before that
/// one has the name.
proof fn lemma_found_from<A>(entries: Seq<(Vec<u8>, A)>, name: Seq<u8>, from: int)
    requires
        0 <= from,
    ensures
        found_from(entries, name, from) is Some ==> exists|i: int|
            from <= i < entries.len() && (#[trigger] entries[i]).0@ == name && found_from(
                entries,
                name,
                from,
            ) == Some(entries[i].1),
        found_from(entries, name, from) is None ==> forall|i: int|
            from <= i < entries.len() ==> (#[trigger] entries[i]).0@ != name,
    decreases entries.len() - from,
{
    if from < entries.len() && entries[from].0@ != name {
        lemma_found_from(entries, name, from + 1);
    }
}

/// A name that is found from the start has a first entry.
proof fn lemma_first_place<A>(entries: Seq<(Vec<u8>, A)>, name: Seq<u8>, from: int)
    requires
        0 <= from,
        found_from(entries, name, from) is Some,
        forall|h: int| 0 <= h < from ==> (#[trigger] entries[h]).0@ != name,
    ensures
        exists|j: int|
            0 <= j < entries.len() && (#[trigger] entries[j]).0@ == name && forall|h: int|
                0 <= h < j ==> (#[trigger] entries[h]).0@ != name,
    decreases entries.len() - from,
{
    if entries[from].0@ != name {
        lemma_first_place(entries, name, from + 1);
    }
}

/// An entry that is put at the end gives its name an address only where no
/// entry before it does.
proof fn lemma_found_from_push<A>(
    entries: Seq<(Vec<u8>, A)>,
    entry: (Vec<u8>, A),
    name: Seq<u8>,
    from: int,
)
    requires
        0 <= from <= entries.len(),
    ensures
        found_from(entries.push(entry), name, from) == if found_from(entries, name, from) is Some {
            found_from(entries, name, from)
        } else if entry.0@ == name {
            Some(entry.1)
        } else {
            None
        },
    decreases entries.len() - from,
{
    let longer = entries.push(entry);
    if from < entries.len() {
        assert(longer[from] == entries[from]);
        if entries[from].0@ != name {
            lemma_found_from_push(entries, entry, name, from + 1);
        }
    } else {
        assert(longer[from] == entry);
        assert(found_from(longer, name, from + 1) is None);
    }
}

impl<A> View for SymbolTable<A> {
    type V = Map<Seq<u8>, A>;

    /// The table as a map from names to addresses.
    closed spec fn view(&self) -> Map<Seq<u8>, A> {
        Map::new(
            |name: Seq<u8>| found_from(self.entries@, name, 0) is Some,
            |name: Seq<u8>| found_from(self.entries@, name, 0)->0,
        )
    }
}

impl<A> SymbolTable<A> {
    /// A table without labels.
    pub fn new() -> (table: Self)
        ensures
            table@ == Map::<Seq<u8>, A>::empty(),
    {
        let table = SymbolTable { entries: Vec::new() };
        assert(table@ =~= Map::<Seq<u8>, A>::empty());
        table
    }

    /// Tells whether the table has no labels.
    pub fn is_empty(&self) -> (result: bool)
        ensures
            result == (self@ == Map::<Seq<u8>, A>::empty()),
    {
        let result = self.entries.len() == 0;
        proof {
            if result {
                assert(self@ =~= Map::<Seq<u8>, A>::empty());
            } else {
                assert(self@.contains_key(self.entries@[0].0@));
            }
        }
        result
    }

    /// The address of the label whose name has the bytes `name`, if the table
    /// holds it.
    pub fn lookup(&self, name: &[u8]) -> (result: Option<&A>)
        ensures
            match result {
                Some(address) => self@.contains_key(name@) && *address == self@[name@],
                None => !self@.contains_key(name@),
            },
    {
        let mut i: usize = 0;
        while i < self.entries.len()
            invariant
                i <= self.entries@.len(),
                found_from(self.entries@, name@, i as int) == found_from(self.entries@, name@, 0),
            decreases self.entries@.len() - i,
        {
            if same_bytes(self.entries[i].0.as_slice(), name) {
                return Some(&self.entries[i].1);
            }
            i += 1;
        }
        None
    }

    /// The address of the label `name`, if the table holds it.
    pub fn get(&self, name: &str) -> (result: Option<&A>)
        ensures
            match result {
                Some(address) => self@.contains_key(name.spec_bytes()) && *address
                    == self@[name.spec_bytes()],
                None => !self@.contains_key(name.spec_bytes()),
            },
    {
        self.lookup(name.as_bytes())
    }

    /// Declares the label `name` at `address`, unless the table holds the
    /// name already: then the table stays as it was and the answer is `false`.
    pub fn declare(&mut self, name: Vec<u8>, address: A) -> (added: bool)
        ensures
            added == !old(self)@.contains_key(name@),
            added ==> final(self)@ == old(self)@.insert(name@, address),
            !added ==> final(self)@ == old(self)@,
    {
        if self.lookup(name.as_slice()).is_some() {
            return false;
        }
        let ghost before = self.entries@;
        self.entries.push((name, address));
        proof {
            assert forall|key: Seq<u8>|
                found_from(self.entries@, key, 0) == if key == name@ {
                    Some(address)
                } else {
                    found_from(before, key, 0)
                } by {
                lemma_found_from_push(before, (name, address), key, 0);
            }
            assert(self@ =~= old(self)@.insert(name@, address));
        }
        true
    }
}

/// Whether `list` has an entry with the name `name`.
spec fn listed(list: Seq<(Vec<u8>, u16)>, name: Seq<u8>) -> bool {
    exists|k: int| 0 <= k < list.len() && (#[trigger] list[k]).0@ == name
}

impl SymbolTable<u16> {
    /// Whether the entry at `place` is the first with its name.
    spec fn first_at(&self, place: int) -> bool {
        0 <= place < self.entries@.len() && forall|h: int|
            0 <= h < place ==> (#[trigger] self.entries@[h]).0@ != self.entries@[place].0@
    }

    /// The place of the first entry with the name `name`, if there is one.
    fn first_entry(&self, name: &[u8]) -> (result: Option<usize>)
        ensures
            match result {
                Some(place) => place < self.entries@.len() && self.entries@[place as int].0@
                    == name@ && self@.contains_key(name@) && self@[name@]
                    == self.entries@[place as int].1 && forall|j: int|
                    0 <= j < place ==> (#[trigger] self.entries@[j]).0@ != name@,
                None => !self@.contains_key(name@) && forall|j: int|
                    0 <= j < self.entries@.len() ==> (#[trigger] self.entries@[j]).0@ != name@,
            },
    {
        let mut i: usize = 0;
        while i < self.entries.len()
            invariant
                i <= self.entries@.len(),
                found_from(self.entries@, name@, i as int) == found_from(self.entries@, name@, 0),
                forall|j: int| 0 <= j < i ==> (#[trigger] self.entries@[j]).0@ != name@,
            decreases self.entries@.len() - i,
        {
            if same_bytes(self.entries[i].0.as_slice(), name) {
                return Some(i);
            }
            i += 1;
        }
        None
    }

    /// The labels of the table, each with its address, and each once.
    pub fn labels(&self) -> (list: Vec<(Vec<u8>, u16)>)
        ensures
            forall|k: int|
                0 <= k < list@.len() ==> self@.contains_key((#[trigger] list@[k]).0@)
                    && self@[list@[k].0@] == list@[k].1,
            forall|name: Seq<u8>| #[trigger]
                self@.contains_key(name) ==> exists|k: int|
                    0 <= k < list@.len() && (#[trigger] list@[k]).0@ == name,
            forall|k: int, l: int|
                0 <= k < l < list@.len() ==> (#[trigger] list@[k]).0@ != (#[trigger] list@[l]).0@,
    {
        let mut list: Vec<(Vec<u8>, u16)> = Vec::new();
        let ghost mut places: Seq<int> = Seq::empty();
        let mut i: usize = 0;
        while i < self.entries.len()
            invariant
                i <= self.entries@.len(),
                places.len() == list@.len(),
                forall|k: int|
                    0 <= k < list@.len() ==> 0 <= (#[trigger] places[k]) < i && list@[k].0@
                        == self.entries@[places[k]].0@,
                forall|k: int|
                    0 <= k < list@.len() ==> self@.contains_key((#[trigger] list@[k]).0@)
                        && self@[list@[k].0@] == list@[k].1,
                forall|k: int, l: int|
                    0 <= k < l < list@.len() ==> (#[trigger] list@[k]).0@ != (
                    #[trigger] list@[l]).0@,
                forall|j: int|
                    0 <= j < i && #[trigger] self.first_at(j) ==> listed(
                        list@,
                        self.entries@[j].0@,
                    ),
            decreases self.entries@.len() - i,
        {
            let name = self.entries[i].0.as_slice();
            let address = self.entries[i].1;
            let first = self.first_entry(name);
            let ghost before = list@;
            if first == Some(i) {
                list.push((copy_bytes(name), address));
                proof {
                    places = places.push(i as int);
                    assert forall|k: int, l: int| 0 <= k < l < list@.len() implies (
                    #[trigger] list@[k]).0@ != (#[trigger] list@[l]).0@ by {
                        if l == before.len() {
                            assert(list@[k] == before[k]);
                            assert(self.entries@[places[k]].0@ != name@);
                        } else {
                            assert(list@[k] == before[k]);
                            assert(list@[l] == before[l]);
                        }
                    }
                    assert forall|j: int| 0 <= j < i + 1 && #[trigger] self.first_at(j) implies listed(
                        list@,
                        self.entries@[j].0@,
                    ) by {
                        if j == i {
                            assert(list@[before.len() as int].0@ == self.entries@[j].0@);
                        } else {
                            assert(listed(before, self.entries@[j].0@));
                            let k = choose|k: int|
                                0 <= k < before.len() && (#[trigger] before[k]).0@
                                    == self.entries@[j].0@;
                            assert(list@[k] == before[k]);
                        }
                    }
                }
            } else {
                proof {
                    let place = first->0 as int;
                    assert(place < i);
                    assert(self.entries@[place].0@ == self.entries@[i as int].0@);
                    assert(!self.first_at(i as int));
                }
            }
            i += 1;
        }
        proof {
            assert forall|name: Seq<u8>| #[trigger] self@.contains_key(name) implies exists|k: int|
                0 <= k < list@.len() && (#[trigger] list@[k]).0@ == name by {
                lemma_first_place(self.entries@, name, 0);
                let j = choose|j: int|
                    0 <= j < self.entries@.len() && (#[trigger] self.entries@[j]).0@ == name
                        && forall|h: int| 0 <= h < j ==> (#[trigger] self.entries@[h]).0@ != name;
                assert(self.first_at(j));
                assert(listed(list@, self.entries@[j].0@));
            }
        }
        list
    }

    /// Tells whether each label of this table has the same address in
    /// `other`.
    pub fn within(&self, other: &SymbolTable<u16>) -> (result: bool)
        ensures
            result == (forall|name: Seq<u8>| #[trigger]
                self@.contains_key(name) ==> other@.contains_key(name) && other@[name]
                    == self@[name]),
    {
        let mut i: usize = 0;
        while i < self.entries.len()
            invariant
                i <= self.entries@.len(),
                forall|j: int|
                    0 <= j < i ==> other@.contains_key((#[trigger] self.entries@[j]).0@)
                        && other@[self.entries@[j].0@] == self@[self.entries@[j].0@],
            decreases self.entries@.len() - i,
        {
            let name = self.entries[i].0.as_slice();
            proof {
                lemma_found_from(self.entries@, name@, 0);
                assert(self.entries@[i as int].0@ == name@);
                assert(self@.contains_key(name@));
            }
            let same = match (self.lookup(name), other.lookup(name)) {
                (Some(here), Some(there)) => *here == *there,
                _ => false,
            };
            if !same {
                return false;
            }
            i += 1;
        }
        proof {
            assert forall|name: Seq<u8>| #[trigger] self@.contains_key(name) implies other@.contains_key(
                name,
            ) && other@[name] == self@[name] by {
                lemma_found_from(self.entries@, name, 0);
                let j = choose|j: int|
                    0 <= j < self.entries@.len() && (#[trigger] self.entries@[j]).0@ == name;
                assert(other@.contains_key(self.entries@[j].0@));
            }
        }
        true
    }
}

impl PartialEq for SymbolTable<u16> {
    /// Two tables are equal when they hold the same labels at the same
    /// addresses.
    fn eq(&self, other: &SymbolTable<u16>) -> (result: bool) {
        let result = self.within(other) && other.within(self);
        proof {
            if result {
                assert(self@ =~= other@);
            }
        }
        result
    }
}

impl vstd::std_specs::cmp::PartialEqSpecImpl for SymbolTable<u16> {
    open spec fn obeys_eq_spec() -> bool {
        true
    }

    open spec fn eq_spec(&self, other: &SymbolTable<u16>) -> bool {
        self@ == other@
    }
}

impl Eq for SymbolTable<u16> {

}

} // verus!
