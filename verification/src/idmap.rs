//! Insertion-ordered maps keyed by identifier.
//!
//! The order of the keys and the lookup by identifier number are kept by an
//! `indexmap::IndexSet`; the keys and values themselves lie beside it, at the
//! position that the set gives.

use vstd::prelude::*;
use indexmap::IndexSet;
use crate::identifier::{IdentView, Identifier};

verus! {

/// Declares `indexmap::IndexSet`, of which nothing is seen but what the
/// functions below state of its contents.
#[verifier::external_type_specification]
#[verifier::external_body]
#[verifier::reject_recursive_types(T)]
#[verifier::reject_recursive_types(S)]
pub struct ExIndexSet<T, S>(IndexSet<T, S>);

/// The identifier numbers that an `IndexSet` holds, in the order in which they
/// were first inserted.
pub uninterp spec fn id_order(set: IndexSet<usize>) -> Seq<usize>;

/// Calls `indexmap::IndexSet::new`: a set that holds nothing.
#[verifier::external_body]
fn id_set_new() -> (r: IndexSet<usize>)
    ensures
        id_order(r) == Seq::<usize>::empty(),
{
    IndexSet::new()
}

/// Calls `indexmap::IndexSet::insert_full`: a number that the set holds stays
/// where it is and its position comes back with `false`; a new one goes last
/// and its position comes back with `true`.
#[verifier::external_body]
fn id_set_insert(set: &mut IndexSet<usize>, id: usize) -> (r: (usize, bool))
    ensures
        id_order(*old(set)).contains(id) ==> !r.1 && id_order(*final(set)) == id_order(*old(set))
            && r.0 < id_order(*old(set)).len() && id_order(*old(set))[r.0 as int] == id,
        !id_order(*old(set)).contains(id) ==> r.1 && r.0 == id_order(*old(set)).len()
            && id_order(*final(set)) == id_order(*old(set)).push(id),
{
    set.insert_full(id)
}

/// Calls `indexmap::IndexSet::get_index_of`: the position of a number that
/// the set holds, nothing for one that it does not hold.
#[verifier::external_body]
fn id_set_position(set: &IndexSet<usize>, id: usize) -> (r: Option<usize>)
    ensures
        match r {
            Some(i) => i < id_order(*set).len() && id_order(*set)[i as int] == id,
            None => !id_order(*set).contains(id),
        },
{
    set.get_index_of(&id)
}

/// Calls `indexmap::IndexSet::clear`: the set holds nothing afterwards.
#[verifier::external_body]
fn id_set_clear(set: &mut IndexSet<usize>)
    ensures
        id_order(*final(set)) == Seq::<usize>::empty(),
{
    set.clear()
}

/// Position of the first `id` in `ids`; the length of `ids` when there is
/// none.
pub open spec fn position_in<T>(ids: Seq<T>, id: T) -> int
    decreases ids.len(),
{
    if ids.len() == 0 {
        0
    } else if ids[0] == id {
        0
    } else {
        1 + position_in(ids.skip(1), id)
    }
}

/// `position_in` gives a position within `ids` or their number, the number
/// there is `id`, and no earlier one is.
pub proof fn lemma_position_in<T>(ids: Seq<T>, id: T)
    ensures
        0 <= position_in(ids, id) <= ids.len(),
        position_in(ids, id) < ids.len() ==> ids[position_in(ids, id)] == id,
        forall|i: int| 0 <= i < position_in(ids, id) ==> ids[i] != id,
    decreases ids.len(),
{
    if ids.len() > 0 && ids[0] != id {
        lemma_position_in(ids.skip(1), id);
        assert forall|i: int| 0 <= i < position_in(ids, id) implies ids[i] != id by {
            if i > 0 {
                assert(ids.skip(1)[i - 1] == ids[i]);
            }
        }
    }
}

/// A position that holds `id`, with no `id` before it, is what `position_in`
/// gives.
pub proof fn lemma_position_is<T>(ids: Seq<T>, id: T, p: int)
    requires
        0 <= p <= ids.len(),
        p < ids.len() ==> ids[p] == id,
        forall|i: int| 0 <= i < p ==> ids[i] != id,
    ensures
        position_in(ids, id) == p,
{
    lemma_position_in(ids, id);
}

/// Nothing occurs twice.
pub open spec fn distinct<T>(ids: Seq<T>) -> bool {
    forall|i: int, j: int| 0 <= i < j < ids.len() ==> ids[i] != ids[j]
}

/// The identifier numbers of a list of keyed entries.
pub open spec fn entry_ids<X>(entries: Seq<(IdentView, X)>) -> Seq<usize> {
    Seq::new(entries.len(), |i: int| entries[i].0.id)
}

/// Whether an entry with the number `id` is present.
pub open spec fn has_entry<X>(entries: Seq<(IdentView, X)>, id: usize) -> bool {
    position_in(entry_ids(entries), id) < entries.len()
}

/// What the first entry with the number `id` holds.
pub open spec fn entry_value<X>(entries: Seq<(IdentView, X)>, id: usize) -> X
    recommends
        has_entry(entries, id),
{
    entries[position_in(entry_ids(entries), id)].1
}

/// The entries after `value` was stored for `key`: an entry with the same
/// number keeps its place and its key and takes the value; otherwise the new
/// entry goes last.
pub open spec fn upsert<X>(entries: Seq<(IdentView, X)>, key: IdentView, value: X) -> Seq<
    (IdentView, X),
> {
    if has_entry(entries, key.id) {
        let p = position_in(entry_ids(entries), key.id);
        entries.update(p, (entries[p].0, value))
    } else {
        entries.push((key, value))
    }
}

/// A map from identifiers to values that remembers the order in which its
/// keys were first inserted. Keys are told apart by their numbers.
pub struct IdMap<V> {
    order: IndexSet<usize>,
    keys: Vec<Identifier>,
    values: Vec<V>,
}

impl<V> IdMap<V> {
    /// The keys in insertion order.
    pub closed spec fn keys(&self) -> Seq<Identifier> {
        self.keys@
    }

    /// The values, each at the position of its key.
    pub closed spec fn values(&self) -> Seq<V> {
        self.values@
    }

    /// The numbers of the keys in insertion order.
    pub open spec fn ids(&self) -> Seq<usize> {
        Seq::new(self.keys().len(), |i: int| self.keys()[i].id)
    }

    /// The set beside the keys holds their numbers in the same order, there is
    /// one value for each key, and no number occurs twice.
    pub closed spec fn wf(&self) -> bool {
        &&& self.keys@.len() == self.values@.len()
        &&& id_order(self.order) == self.ids()
        &&& distinct(self.ids())
    }

    /// A well-formed map has one value per key and no key twice.
    pub proof fn lemma_wf(&self)
        requires
            self.wf(),
        ensures
            self.keys().len() == self.values().len(),
            distinct(self.ids()),
    {
    }

    /// The entries as contracts see them: each key's view with what `f` makes
    /// of its value.
    pub open spec fn entries_with<X>(&self, f: spec_fn(V) -> X) -> Seq<(IdentView, X)> {
        Seq::new(self.keys().len(), |i: int| (self.keys()[i]@, f(self.values()[i])))
    }

    /// Whether a key with the number `id` is present.
    pub open spec fn has(&self, id: usize) -> bool {
        position_in(self.ids(), id) < self.keys().len()
    }

    /// The value stored for the number `id`.
    pub open spec fn value_of(&self, id: usize) -> V
        recommends
            self.has(id),
    {
        self.values()[position_in(self.ids(), id)]
    }

    /// Lookups in the entries that contracts see agree with lookups in the
    /// map.
    pub proof fn lemma_entries_with<X>(&self, f: spec_fn(V) -> X)
        requires
            self.wf(),
        ensures
            entry_ids(self.entries_with(f)) == self.ids(),
            self.entries_with(f).len() == self.keys().len(),
            forall|id: usize| has_entry(self.entries_with(f), id) == self.has(id),
            forall|id: usize|
                self.has(id) ==> entry_value(self.entries_with(f), id) == f(self.value_of(id)),
    {
        assert(entry_ids(self.entries_with(f)) =~= self.ids());
        assert forall|id: usize| self.has(id) implies entry_value(self.entries_with(f), id) == f(
            self.value_of(id),
        ) by {
            lemma_position_in(self.ids(), id);
        }
    }

    /// No two entries have the same number.
    pub proof fn lemma_ids_distinct(&self)
        requires
            self.wf(),
        ensures
            distinct(self.ids()),
    {
    }

    /// A map without entries.
    pub fn new() -> (r: Self)
        ensures
            r.wf(),
            r.keys() == Seq::<Identifier>::empty(),
            r.values() == Seq::<V>::empty(),
    {
        let r = IdMap { order: id_set_new(), keys: Vec::new(), values: Vec::new() };
        assert(id_order(r.order) =~= r.ids());
        r
    }

    /// The number of entries.
    pub fn len(&self) -> (r: usize)
        requires
            self.wf(),
        ensures
            r == self.keys().len(),
            r == self.values().len(),
    {
        self.keys.len()
    }

    /// Stores `value` for `key`. A key whose number is present keeps its place
    /// and its stored identifier, and only the value changes; a new key goes
    /// last.
    pub fn insert(&mut self, key: Identifier, value: V)
        requires
            old(self).wf(),
        ensures
            final(self).wf(),
            old(self).has(key.id) ==> final(self).keys() == old(self).keys()
                && final(self).values() == old(self).values().update(
                position_in(old(self).ids(), key.id),
                value,
            ),
            !old(self).has(key.id) ==> final(self).keys() == old(self).keys().push(key)
                && final(self).values() == old(self).values().push(value),
    {
        let ghost before = id_order(self.order);
        let ghost old_ids = self.ids();
        proof {
            lemma_position_in(old_ids, key.id);
        }
        let (i, fresh) = id_set_insert(&mut self.order, key.id);
        if fresh {
            self.keys.push(key);
            self.values.push(value);
            assert(id_order(self.order) =~= self.ids());
            assert forall|a: int, b: int| 0 <= a < b < self.ids().len() implies self.ids()[a]
                != self.ids()[b] by {
                if b == old_ids.len() {
                    assert(old_ids[a] == self.ids()[a]);
                    assert(before.contains(old_ids[a]));
                } else {
                    assert(old_ids[a] == self.ids()[a]);
                    assert(old_ids[b] == self.ids()[b]);
                }
            }
        } else {
            proof {
                lemma_position_is(old_ids, key.id, i as int);
            }
            self.values.set(i, value);
            assert(self.ids() =~= old_ids);
        }
    }

    /// The value stored for `key`, if its number is present.
    pub fn get(&self, key: &Identifier) -> (r: Option<&V>)
        requires
            self.wf(),
        ensures
            r is Some <==> self.has(key.id),
            r matches Some(v) ==> *v == self.value_of(key.id),
    {
        proof {
            lemma_position_in(self.ids(), key.id);
        }
        match id_set_position(&self.order, key.id) {
            Some(i) => {
                proof {
                    lemma_position_is(self.ids(), key.id, i as int);
                }
                Some(&self.values[i])
            },
            None => None,
        }
    }

    /// Whether a value is stored for `key`.
    pub fn contains(&self, key: &Identifier) -> (r: bool)
        requires
            self.wf(),
        ensures
            r == self.has(key.id),
    {
        self.get(key).is_some()
    }

    /// The key at position `i`.
    pub fn key_at(&self, i: usize) -> (r: &Identifier)
        requires
            self.wf(),
            i < self.keys().len(),
        ensures
            *r == self.keys()[i as int],
    {
        &self.keys[i]
    }

    /// The value at position `i`.
    pub fn value_at(&self, i: usize) -> (r: &V)
        requires
            self.wf(),
            i < self.keys().len(),
        ensures
            *r == self.values()[i as int],
    {
        &self.values[i]
    }

    /// Removes every entry.
    pub fn clear(&mut self)
        ensures
            final(self).wf(),
            final(self).keys() == Seq::<Identifier>::empty(),
            final(self).values() == Seq::<V>::empty(),
    {
        id_set_clear(&mut self.order);
        self.keys.clear();
        self.values.clear();
        assert(id_order(self.order) =~= self.ids());
    }
}

/// Storing a value in a map is an upsert on the entries that contracts see.
pub proof fn lemma_insert_entries<V, X>(
    before: &IdMap<V>,
    after: &IdMap<V>,
    key: Identifier,
    value: V,
    f: spec_fn(V) -> X,
)
    requires
        before.wf(),
        before.has(key.id) ==> after.keys() == before.keys() && after.values()
            == before.values().update(position_in(before.ids(), key.id), value),
        !before.has(key.id) ==> after.keys() == before.keys().push(key) && after.values()
            == before.values().push(value),
    ensures
        after.entries_with(f) == upsert(before.entries_with(f), key@, f(value)),
{
    before.lemma_entries_with(f);
    before.lemma_wf();
    lemma_position_in(before.ids(), key.id);
    assert(after.entries_with(f) =~= upsert(before.entries_with(f), key@, f(value)));
}

/// After a value was stored for a key, it is what the key's number holds,
/// and what other numbers hold is as before.
pub proof fn lemma_upsert_lookup<X>(entries: Seq<(IdentView, X)>, key: IdentView, value: X)
    ensures
        has_entry(upsert(entries, key, value), key.id),
        entry_value(upsert(entries, key, value), key.id) == value,
        forall|id: usize|
            id != key.id ==> has_entry(upsert(entries, key, value), id) == has_entry(entries, id),
        forall|id: usize|
            id != key.id && has_entry(entries, id) ==> entry_value(
                upsert(entries, key, value),
                id,
            ) == entry_value(entries, id),
{
    let ids = entry_ids(entries);
    let after = upsert(entries, key, value);
    let after_ids = entry_ids(after);
    lemma_position_in(ids, key.id);
    let p = position_in(ids, key.id);
    assert(after_ids.len() == after.len());
    assert forall|i: int| 0 <= i < p implies after_ids[i] != key.id by {
        assert(after_ids[i] == ids[i]);
    }
    assert(after_ids[p] == key.id);
    lemma_position_is(after_ids, key.id, p);
    assert forall|id: usize| id != key.id implies has_entry(after, id) == has_entry(
        entries,
        id,
    ) && (has_entry(entries, id) ==> entry_value(after, id) == entry_value(entries, id)) by {
        lemma_position_in(ids, id);
        let q = position_in(ids, id);
        if q < ids.len() {
            assert forall|i: int| 0 <= i < q implies after_ids[i] != id by {
                assert(after_ids[i] == ids[i]);
            }
            assert(after_ids[q] == ids[q]);
            lemma_position_is(after_ids, id, q);
        } else {
            assert forall|i: int| 0 <= i < after_ids.len() implies after_ids[i] != id by {
                if i < ids.len() {
                    assert(after_ids[i] == ids[i]);
                }
            }
            lemma_position_is(after_ids, id, after_ids.len() as int);
        }
    }
}

} // verus!
