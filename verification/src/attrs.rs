use crate::text::str_eq;
use vstd::prelude::*;

verus! {

/// The names of a listing of attributes, in the listing's order.
pub open spec fn names_of(entries: Seq<(Seq<char>, Seq<char>)>) -> Seq<Seq<char>> {
    entries.map_values(|e: (Seq<char>, Seq<char>)| e.0)
}

/// No attribute name occurs twice in the listing.
pub open spec fn distinct_names(entries: Seq<(Seq<char>, Seq<char>)>) -> bool {
    forall|i: int, j: int|
        0 <= i < j < entries.len() ==> (#[trigger] entries[i]).0 != (#[trigger] entries[j]).0
}

/// Some entry of the listing carries `name`.
pub open spec fn has_name(entries: Seq<(Seq<char>, Seq<char>)>, name: Seq<char>) -> bool {
    exists|i: int| 0 <= i < entries.len() && (#[trigger] entries[i]).0 == name
}

/// A position in the listing at which `name` stands.
pub open spec fn position_of(entries: Seq<(Seq<char>, Seq<char>)>, name: Seq<char>) -> int {
    choose|i: int| 0 <= i < entries.len() && (#[trigger] entries[i]).0 == name
}

/// The mapping from name to value that a listing denotes.
pub open spec fn map_of(entries: Seq<(Seq<char>, Seq<char>)>) -> Map<Seq<char>, Seq<char>> {
    Map::new(
        |name: Seq<char>| has_name(entries, name),
        |name: Seq<char>| entries[position_of(entries, name)].1,
    )
}

/// The character contents of stored name/value pairs.
pub open spec fn listing(pairs: Seq<(String, String)>) -> Seq<(Seq<char>, Seq<char>)> {
    pairs.map_values(|p: (String, String)| (p.0@, p.1@))
}

/// In a listing with distinct names, the entry at position `i` is what the
/// mapping holds for that entry's name.
pub proof fn lemma_map_of_entry(entries: Seq<(Seq<char>, Seq<char>)>, i: int)
    requires
        distinct_names(entries),
        0 <= i < entries.len(),
    ensures
        map_of(entries).contains_key(entries[i].0),
        map_of(entries)[entries[i].0] == entries[i].1,
        position_of(entries, entries[i].0) == i,
{
}

/// A listing with distinct names denotes a finite mapping with one key per
/// entry.
pub proof fn lemma_map_of_len(entries: Seq<(Seq<char>, Seq<char>)>)
    requires
        distinct_names(entries),
    ensures
        map_of(entries).dom().finite(),
        map_of(entries).dom().len() == entries.len(),
{
    let names = names_of(entries);
    assert forall|i: int, j: int|
        0 <= i < names.len() && 0 <= j < names.len() && i != j implies names[i] != names[j] by {
        if i < j {
            assert(entries[i].0 != entries[j].0);
        } else {
            assert(entries[j].0 != entries[i].0);
        }
    }
    names.unique_seq_to_set();
    assert(names.to_set() =~= map_of(entries).dom()) by {
        assert forall|name: Seq<char>| names.to_set().contains(name) implies map_of(
            entries,
        ).dom().contains(name) by {
            let i = choose|i: int| 0 <= i < names.len() && names[i] == name;
            assert(entries[i].0 == name);
        }
        assert forall|name: Seq<char>| map_of(entries).dom().contains(
            name,
        ) implies names.to_set().contains(name) by {
            let i = position_of(entries, name);
            assert(names[i] == name);
        }
    }
}

/// Two listings with distinct names that hold the same entries, in whatever
/// order, denote the same mapping.
pub proof fn lemma_map_of_ignores_order(
    a: Seq<(Seq<char>, Seq<char>)>,
    b: Seq<(Seq<char>, Seq<char>)>,
)
    requires
        distinct_names(a),
        distinct_names(b),
        a.to_set() == b.to_set(),
    ensures
        map_of(a) == map_of(b),
{
    assert forall|name: Seq<char>| has_name(a, name) implies has_name(b, name) && map_of(b)[name]
        == map_of(a)[name] by {
        let i = position_of(a, name);
        lemma_map_of_entry(a, i);
        assert(a.to_set().contains(a[i]));
        let j = choose|j: int| 0 <= j < b.len() && b[j] == a[i];
        lemma_map_of_entry(b, j);
    }
    assert forall|name: Seq<char>| has_name(b, name) implies has_name(a, name) by {
        let j = position_of(b, name);
        assert(b.to_set().contains(b[j]));
        let i = choose|i: int| 0 <= i < a.len() && a[i] == b[j];
        assert(a[i].0 == name);
    }
}

/// The attributes of an element: attribute names mapped to values.
///
/// The entries are kept in the order in which their names were first
/// inserted, and no name is held twice. Equality looks at the mapping alone,
/// not at the order.
pub struct AttrMap {
    pairs: Vec<(String, String)>,
}

impl View for AttrMap {
    type V = Map<Seq<char>, Seq<char>>;

    open spec fn view(&self) -> Map<Seq<char>, Seq<char>> {
        map_of(self.entries())
    }
}

impl AttrMap {
    /// The entries in the order in which they are listed.
    pub closed spec fn entries(&self) -> Seq<(Seq<char>, Seq<char>)> {
        listing(self.pairs@)
    }

    /// Every value of this type lists each name once.
    #[verifier::type_invariant]
    pub open spec fn wf(&self) -> bool {
        distinct_names(self.entries())
    }

    /// An empty attribute map.
    pub fn new() -> (attrs: AttrMap)
        ensures
            attrs.entries() == Seq::<(Seq<char>, Seq<char>)>::empty(),
            attrs@ == Map::<Seq<char>, Seq<char>>::empty(),
            attrs.wf(),
    {
        AttrMap { pairs: Vec::new() }
    }

    /// The number of attributes.
    pub fn len(&self) -> (n: usize)
        ensures
            n == self.entries().len(),
            n == self@.dom().len(),
    {
        proof {
            use_type_invariant(self);
            lemma_map_of_len(self.entries());
        }
        self.pairs.len()
    }

    /// The stored pairs, in listing order.
    pub fn pairs(&self) -> (pairs: &Vec<(String, String)>)
        ensures
            listing(pairs@) == self.entries(),
    {
        &self.pairs
    }

    /// The position at which `name` is listed, if it is.
    fn find(&self, name: &str) -> (found: Option<usize>)
        ensures
            match found {
                Some(i) => i < self.entries().len() && self.entries()[i as int].0 == name@,
                None => !has_name(self.entries(), name@),
            },
    {
        let mut i: usize = 0;
        while i < self.pairs.len()
            invariant
                i <= self.pairs.len(),
                forall|j: int| 0 <= j < i ==> (#[trigger] self.entries()[j]).0 != name@,
            decreases self.pairs.len() - i,
        {
            if str_eq(self.pairs[i].0.as_str(), name) {
                return Some(i);
            }
            i = i + 1;
        }
        None
    }

    /// The value stored under `name`, if there is one.
    pub fn get(&self, name: &str) -> (found: Option<&String>)
        ensures
            match found {
                Some(value) => self@.contains_key(name@) && value@ == self@[name@],
                None => !self@.contains_key(name@),
            },
    {
        match self.find(name) {
            Some(i) => {
                proof {
                    use_type_invariant(self);
                    lemma_map_of_entry(self.entries(), i as int);
                }
                Some(&self.pairs[i].1)
            },
            None => None,
        }
    }

    /// Stores `value` under `name` and hands back the value that it replaces.
    ///
    /// A name that is already listed keeps its place; a new name goes to the
    /// end of the listing.
    pub fn insert(&mut self, name: String, value: String) -> (previous: Option<String>)
        ensures
            final(self)@ == old(self)@.insert(name@, value@),
            match previous {
                Some(p) => old(self)@.contains_key(name@) && p@ == old(self)@[name@],
                None => !old(self)@.contains_key(name@),
            },
            final(self).entries() == if has_name(old(self).entries(), name@) {
                old(self).entries().update(
                    position_of(old(self).entries(), name@),
                    (name@, value@),
                )
            } else {
                old(self).entries().push((name@, value@))
            },
            final(self).wf(),
    {
        proof {
            use_type_invariant(&*self);
        }
        let ghost before = self.entries();
        let ghost entry = (name@, value@);
        let found = self.find(name.as_str());
        let mut pairs: Vec<(String, String)> = Vec::new();
        std::mem::swap(&mut self.pairs, &mut pairs);
        pairs.push((name, value));
        let previous = match found {
            Some(i) => {
                let replaced = pairs.swap_remove(i);
                proof {
                    assert(listing(pairs@) =~= before.update(i as int, entry));
                    lemma_map_of_entry(before, i as int);
                    lemma_insert_existing(before, i as int, entry.1);
                }
                Some(replaced.1)
            },
            None => {
                proof {
                    assert(listing(pairs@) =~= before.push(entry));
                    lemma_insert_fresh(before, entry);
                }
                None
            },
        };
        std::mem::swap(&mut self.pairs, &mut pairs);
        previous
    }
}

impl Clone for AttrMap {
    fn clone(&self) -> (copy: AttrMap)
        ensures
            copy.entries() == self.entries(),
            copy@ == self@,
    {
        proof {
            use_type_invariant(self);
        }
        let mut pairs: Vec<(String, String)> = Vec::new();
        let mut i: usize = 0;
        while i < self.pairs.len()
            invariant
                i <= self.pairs.len(),
                listing(pairs@) == listing(self.pairs@).take(i as int),
            decreases self.pairs.len() - i,
        {
            let ghost copied = listing(pairs@);
            let name = self.pairs[i].0.clone();
            let value = self.pairs[i].1.clone();
            pairs.push((name, value));
            proof {
                assert(listing(pairs@) =~= copied.push(listing(self.pairs@)[i as int]));
            }
            i = i + 1;
        }
        proof {
            assert(listing(pairs@) =~= listing(self.pairs@));
        }
        AttrMap { pairs }
    }
}

impl PartialEq for AttrMap {
    /// Two attribute maps are equal when they map the same names to the same
    /// values, in whatever order they list them.
    fn eq(&self, other: &AttrMap) -> (same: bool) {
        proof {
            use_type_invariant(self);
            use_type_invariant(other);
            lemma_map_of_len(self.entries());
            lemma_map_of_len(other.entries());
        }
        if self.pairs.len() != other.pairs.len() {
            return false;
        }
        let mut i: usize = 0;
        while i < self.pairs.len()
            invariant
                i <= self.pairs.len(),
                self.wf(),
                forall|j: int|
                    0 <= j < i ==> other@.contains_key((#[trigger] self.entries()[j]).0)
                        && other@[self.entries()[j].0] == self.entries()[j].1,
            decreases self.pairs.len() - i,
        {
            proof {
                lemma_map_of_entry(self.entries(), i as int);
            }
            match other.get(self.pairs[i].0.as_str()) {
                Some(value) => {
                    if !(*value == self.pairs[i].1) {
                        return false;
                    }
                },
                None => {
                    return false;
                },
            }
            i = i + 1;
        }
        proof {
            assert forall|name: Seq<char>| self@.contains_key(name) implies other@.contains_key(
                name,
            ) && other@[name] == self@[name] by {
                let p = position_of(self.entries(), name);
                lemma_map_of_entry(self.entries(), p);
            }
            vstd::set_lib::lemma_subset_equality(self@.dom(), other@.dom());
            assert(self@ =~= other@);
        }
        true
    }
}

impl Eq for AttrMap {}

impl vstd::std_specs::cmp::PartialEqSpecImpl for AttrMap {
    open spec fn obeys_eq_spec() -> bool {
        true
    }

    open spec fn eq_spec(&self, other: &AttrMap) -> bool {
        self@ == other@
    }
}

/// Replacing the value of a listed name is an insertion into the mapping.
proof fn lemma_insert_existing(entries: Seq<(Seq<char>, Seq<char>)>, i: int, value: Seq<char>)
    requires
        distinct_names(entries),
        0 <= i < entries.len(),
    ensures
        distinct_names(entries.update(i, (entries[i].0, value))),
        map_of(entries.update(i, (entries[i].0, value))) == map_of(entries).insert(
            entries[i].0,
            value,
        ),
{
    let name = entries[i].0;
    let after = entries.update(i, (name, value));
    assert forall|key: Seq<char>| has_name(after, key) <==> has_name(entries, key) by {
        if has_name(entries, key) {
            assert(after[position_of(entries, key)].0 == key);
        }
    }
    assert forall|key: Seq<char>| has_name(after, key) implies map_of(after)[key] == map_of(
        entries,
    ).insert(name, value)[key] by {
        let p = position_of(after, key);
        lemma_map_of_entry(after, p);
        lemma_map_of_entry(entries, p);
    }
    lemma_map_of_entry(entries, i);
}

/// Appending an entry under an unlisted name is an insertion into the mapping.
proof fn lemma_insert_fresh(entries: Seq<(Seq<char>, Seq<char>)>, entry: (Seq<char>, Seq<char>))
    requires
        distinct_names(entries),
        !has_name(entries, entry.0),
    ensures
        distinct_names(entries.push(entry)),
        map_of(entries.push(entry)) == map_of(entries).insert(entry.0, entry.1),
{
    let after = entries.push(entry);
    assert forall|key: Seq<char>| has_name(after, key) <==> (has_name(entries, key) || key
        == entry.0) by {
        if has_name(entries, key) {
            assert(after[position_of(entries, key)].0 == key);
        }
        if key == entry.0 {
            assert(after[entries.len() as int].0 == key);
        }
    }
    assert forall|key: Seq<char>| has_name(after, key) implies map_of(after)[key] == map_of(
        entries,
    ).insert(entry.0, entry.1)[key] by {
        let p = position_of(after, key);
        lemma_map_of_entry(after, p);
        if p < entries.len() {
            lemma_map_of_entry(entries, p);
        }
    }
}

} // verus!
