//! Insertion-ordered maps keyed by name.
//!
//! The order of the names and the lookup by name are kept by an
//! `indexmap::IndexSet`; the values lie beside it, at the position that the
//! set gives.

use vstd::prelude::*;
use indexmap::IndexSet;
use crate::idmap::{distinct, lemma_position_in, lemma_position_is, position_in};

verus! {

/// The names that an `IndexSet` holds, in the order in which they were first
/// inserted.
pub uninterp spec fn name_order(set: IndexSet<String>) -> Seq<Seq<char>>;

/// Calls `indexmap::IndexSet::new`: a set that holds nothing.
#[verifier::external_body]
pub(crate) fn name_set_new() -> (r: IndexSet<String>)
    ensures
        name_order(r) == Seq::<Seq<char>>::empty(),
{
    IndexSet::new()
}

/// Calls `indexmap::IndexSet::insert_full`: a name that the set holds stays
/// where it is and its position comes back with `false`; a new one goes last
/// and its position comes back with `true`.
#[verifier::external_body]
pub(crate) fn name_set_insert(set: &mut IndexSet<String>, name: String) -> (r: (usize, bool))
    ensures
        name_order(*old(set)).contains(name@) ==> !r.1 && name_order(*final(set)) == name_order(
            *old(set),
        ) && r.0 < name_order(*old(set)).len() && name_order(*old(set))[r.0 as int] == name@,
        !name_order(*old(set)).contains(name@) ==> r.1 && r.0 == name_order(*old(set)).len()
            && name_order(*final(set)) == name_order(*old(set)).push(name@),
{
    set.insert_full(name)
}

/// Calls `indexmap::IndexSet::get_index_of`: the position of a name that the
/// set holds, nothing for one that it does not hold.
#[verifier::external_body]
pub(crate) fn name_set_position(set: &IndexSet<String>, name: &str) -> (r: Option<usize>)
    ensures
        match r {
            Some(i) => i < name_order(*set).len() && name_order(*set)[i as int] == name@,
            None => !name_order(*set).contains(name@),
        },
{
    set.get_index_of(name)
}

/// Calls `indexmap::IndexSet::clear`: the set holds nothing afterwards.
#[verifier::external_body]
pub(crate) fn name_set_clear(set: &mut IndexSet<String>)
    ensures
        name_order(*final(set)) == Seq::<Seq<char>>::empty(),
{
    set.clear()
}

/// The entries after `value` was stored under `name`: an entry with that name
/// keeps its place and takes the value; otherwise the new entry goes last.
pub open spec fn put<X>(entries: Seq<(Seq<char>, X)>, name: Seq<char>, value: X) -> Seq<
    (Seq<char>, X),
> {
    let p = position_in(entry_names(entries), name);
    if p < entries.len() {
        entries.update(p, (name, value))
    } else {
        entries.push((name, value))
    }
}

/// The names of a list of named entries.
pub open spec fn entry_names<X>(entries: Seq<(Seq<char>, X)>) -> Seq<Seq<char>> {
    Seq::new(entries.len(), |i: int| entries[i].0)
}

/// Whether an entry with the name `name` is present.
pub open spec fn has_name<X>(entries: Seq<(Seq<char>, X)>, name: Seq<char>) -> bool {
    position_in(entry_names(entries), name) < entries.len()
}

/// What the entry with the name `name` holds.
pub open spec fn named<X>(entries: Seq<(Seq<char>, X)>, name: Seq<char>) -> X
    recommends
        has_name(entries, name),
{
    entries[position_in(entry_names(entries), name)].1
}

/// A map from names to values that remembers the order in which its names
/// were first inserted.
pub struct NameMap<V> {
    order: IndexSet<String>,
    keys: Vec<String>,
    values: Vec<V>,
}

impl<V> NameMap<V> {
    /// The names in insertion order.
    pub closed spec fn names(&self) -> Seq<Seq<char>> {
        Seq::new(self.keys@.len(), |i: int| self.keys@[i]@)
    }

    /// The values, each at the position of its name.
    pub closed spec fn values(&self) -> Seq<V> {
        self.values@
    }

    /// The set beside the values holds the names in the same order, there is
    /// one value for each name, and no name occurs twice.
    pub closed spec fn wf(&self) -> bool {
        &&& self.keys@.len() == self.values@.len()
        &&& name_order(self.order) == self.names()
        &&& distinct(self.names())
    }

    /// A well-formed map has one value per name and no name twice.
    pub proof fn lemma_wf(&self)
        requires
            self.wf(),
        ensures
            self.names().len() == self.values().len(),
            distinct(self.names()),
    {
    }

    /// The entries as contracts see them: each name with what `f` makes of
    /// its value.
    pub open spec fn entries_with<X>(&self, f: spec_fn(V) -> X) -> Seq<(Seq<char>, X)> {
        Seq::new(self.names().len(), |i: int| (self.names()[i], f(self.values()[i])))
    }

    /// Whether a value is stored under `name`.
    pub open spec fn has(&self, name: Seq<char>) -> bool {
        position_in(self.names(), name) < self.names().len()
    }

    /// The value stored under `name`.
    pub open spec fn value_of(&self, name: Seq<char>) -> V
        recommends
            self.has(name),
    {
        self.values()[position_in(self.names(), name)]
    }

    /// Lookups in the entries that contracts see agree with lookups in the
    /// map.
    pub proof fn lemma_entries_with<X>(&self, f: spec_fn(V) -> X)
        requires
            self.wf(),
        ensures
            entry_names(self.entries_with(f)) == self.names(),
            self.entries_with(f).len() == self.names().len(),
            forall|name: Seq<char>| has_name(self.entries_with(f), name) == self.has(name),
            forall|name: Seq<char>|
                self.has(name) ==> named(self.entries_with(f), name) == f(self.value_of(name)),
    {
        assert(entry_names(self.entries_with(f)) =~= self.names());
        assert forall|name: Seq<char>| self.has(name) implies named(self.entries_with(f), name)
            == f(self.value_of(name)) by {
            lemma_position_in(self.names(), name);
        }
    }

    /// A map without entries.
    pub fn new() -> (r: Self)
        ensures
            r.wf(),
            r.names() == Seq::<Seq<char>>::empty(),
            r.values() == Seq::<V>::empty(),
    {
        let r = NameMap { order: name_set_new(), keys: Vec::new(), values: Vec::new() };
        assert(name_order(r.order) =~= r.names());
        r
    }

    /// The number of entries.
    pub fn len(&self) -> (r: usize)
        requires
            self.wf(),
        ensures
            r == self.names().len(),
            r == self.values().len(),
    {
        self.keys.len()
    }

    /// Stores `value` under `name`. A name that is present keeps its place
    /// and only the value changes; a new name goes last.
    pub fn insert(&mut self, name: String, value: V)
        requires
            old(self).wf(),
        ensures
            final(self).wf(),
            old(self).has(name@) ==> final(self).names() == old(self).names()
                && final(self).values() == old(self).values().update(
                position_in(old(self).names(), name@),
                value,
            ),
            !old(self).has(name@) ==> final(self).names() == old(self).names().push(name@)
                && final(self).values() == old(self).values().push(value),
    {
        let ghost before = name_order(self.order);
        let ghost old_names = self.names();
        proof {
            lemma_position_in(old_names, name@);
        }
        let (i, fresh) = name_set_insert(&mut self.order, name.clone());
        if fresh {
            self.keys.push(name);
            self.values.push(value);
            assert(name_order(self.order) =~= self.names());
            assert forall|a: int, b: int| 0 <= a < b < self.names().len() implies self.names()[a]
                != self.names()[b] by {
                if b == old_names.len() {
                    assert(old_names[a] == self.names()[a]);
                    assert(before.contains(old_names[a]));
                } else {
                    assert(old_names[a] == self.names()[a]);
                    assert(old_names[b] == self.names()[b]);
                }
            }
        } else {
            proof {
                lemma_position_is(old_names, name@, i as int);
            }
            self.values.set(i, value);
            assert(self.names() =~= old_names);
        }
    }

    /// The value stored under `name`, if there is one.
    pub fn get(&self, name: &str) -> (r: Option<&V>)
        requires
            self.wf(),
        ensures
            r is Some <==> self.has(name@),
            r matches Some(v) ==> *v == self.value_of(name@),
    {
        proof {
            lemma_position_in(self.names(), name@);
        }
        match name_set_position(&self.order, name) {
            Some(i) => {
                proof {
                    lemma_position_is(self.names(), name@, i as int);
                }
                Some(&self.values[i])
            },
            None => None,
        }
    }

    /// The name at position `i`.
    pub fn name_at(&self, i: usize) -> (r: &String)
        requires
            self.wf(),
            i < self.names().len(),
        ensures
            r@ == self.names()[i as int],
    {
        &self.keys[i]
    }

    /// The value at position `i`.
    pub fn value_at(&self, i: usize) -> (r: &V)
        requires
            self.wf(),
            i < self.names().len(),
        ensures
            *r == self.values()[i as int],
    {
        &self.values[i]
    }
}

/// Storing a value in a map is a `put` on the entries that contracts see.
pub proof fn lemma_insert_named<V, X>(
    before: &NameMap<V>,
    after: &NameMap<V>,
    name: Seq<char>,
    value: V,
    f: spec_fn(V) -> X,
)
    requires
        before.wf(),
        before.has(name) ==> after.names() == before.names() && after.values()
            == before.values().update(position_in(before.names(), name), value),
        !before.has(name) ==> after.names() == before.names().push(name) && after.values()
            == before.values().push(value),
    ensures
        after.entries_with(f) == put(before.entries_with(f), name, f(value)),
{
    before.lemma_entries_with(f);
    before.lemma_wf();
    lemma_position_in(before.names(), name);
    assert(after.entries_with(f) =~= put(before.entries_with(f), name, f(value)));
}

} // verus!
