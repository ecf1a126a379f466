//! The container arithmetic shared by every weighing function in the crate.
//!
//! The numbers count the *owned buffers*: the arena, map and slice allocations
//! that hang off a value. They leave out indirection inside an element and the
//! padding of a container's own bucket layout, so they err low.
//!
//! How much room a container keeps in reserve is the allocator's affair. Where
//! a weight rests on such an answer, the contract ties it to an answer that the
//! container gives when it is asked, and two answers may differ. How many values
//! an arena, an arena map or a slice holds, and which values a walk over an arena
//! map or an insertion-ordered map meets, is its own affair, and there is one
//! answer.

use indexmap::IndexMap;
use la_arena::{Arena, ArenaMap, Idx};
use rustc_hash::{FxBuildHasher, FxHashSet};
use smallvec::SmallVec;
use std::collections::{HashMap, HashSet};
use std::mem::{size_of, size_of_val};
use thin_vec::ThinVec;
use triomphe::Arc;
use vstd::prelude::*;
use vstd::std_specs::hash::{builds_valid_hashers, obeys_key_model};

use crate::weight::{
    added, adds_up, all_measure, all_report, charge_of, exactly, law_a_part_weighs_no_more,
    law_a_total_is_the_sum_of_its_counts, law_exact_parts_make_an_exact_whole,
    law_two_counts_add_up, law_two_parts_weigh_both, lemma_measured_numbers, lemma_measures_more,
    measures, picked, plus, reports, sum, sum_of, times, total,
};

verus! {

// ------------------------------------------------------------ outside types
/// `la_arena::Arena`, carried as an opaque value.
#[verifier::external_type_specification]
#[verifier::external_body]
#[verifier::reject_recursive_types(T)]
pub struct ExArena<T>(Arena<T>);

/// `la_arena::Idx`, carried as an opaque value.
#[verifier::external_type_specification]
#[verifier::external_body]
#[verifier::reject_recursive_types(T)]
pub struct ExIdx<T>(Idx<T>);

/// `la_arena::ArenaMap`, carried as an opaque value.
#[verifier::external_type_specification]
#[verifier::external_body]
#[verifier::reject_recursive_types(IDX)]
#[verifier::reject_recursive_types(V)]
pub struct ExArenaMap<IDX, V>(ArenaMap<IDX, V>);

/// `indexmap::IndexMap`, carried as an opaque value.
#[verifier::external_type_specification]
#[verifier::external_body]
#[verifier::reject_recursive_types(K)]
#[verifier::reject_recursive_types(V)]
#[verifier::reject_recursive_types(S)]
pub struct ExIndexMap<K, V, S>(IndexMap<K, V, S>);

/// `thin_vec::ThinVec`, carried as an opaque value.
#[verifier::external_type_specification]
#[verifier::external_body]
#[verifier::reject_recursive_types(T)]
pub struct ExThinVec<T>(ThinVec<T>);

/// `triomphe::Arc`, carried as an opaque value.
#[verifier::external_type_specification]
#[verifier::external_body]
#[verifier::reject_recursive_types(T)]
pub struct ExArc<T: ?Sized>(Arc<T>);

/// `rustc_hash::FxBuildHasher`, carried as an opaque value.
#[verifier::external_type_specification]
#[verifier::external_body]
pub struct ExFxBuildHasher(FxBuildHasher);

/// A `smallvec::SmallVec` of `T`s with room for `N` of them inline.
#[verifier::external_body]
#[verifier::reject_recursive_types(T)]
pub struct InlineVec<T, const N: usize>(pub SmallVec<[T; N]>);

/// An insertion-ordered map with the fast hasher.
pub type FxIndexMap<K, V> = IndexMap<K, V, FxBuildHasher>;

// ---------------------------------------------------------- outside answers
/// `Arena::len`. Nothing is said of it here; it stands in [`arena_holds`].
pub assume_specification<T>[ Arena::<T>::len ](values: &Arena<T>) -> (len: usize)
;

/// `Arena::len`: how many values the arena holds. The same arena always gives
/// the same answer. That it is the count of what was allocated is left unsaid,
/// since the arena is opaque here.
#[verifier::external_body]
fn arena_count<T>(values: &Arena<T>) -> (len: usize)
    ensures
        arena_holds(values, len),
        forall|other: usize| #[trigger] arena_holds(values, other) ==> other == len,
{
    values.len()
}

/// `Arc::deref`. Nothing is said of it here; it stands in [`shares`].
pub assume_specification<T: ?Sized>[ <Arc<T> as std::ops::Deref>::deref ](arc: &Arc<T>) -> (value: &T)
;

/// `Arc::deref`: the value that the pointer shares. The same pointer always
/// shares the same value.
#[verifier::external_body]
pub(crate) fn shared<T: ?Sized>(arc: &Arc<T>) -> (value: &T)
    ensures
        shares(arc, value),
        forall|other: &T| #[trigger] shares(arc, other) ==> other == value,
{
    arc
}

/// `ThinVec::len`. Nothing is said of it here; it stands in [`thin_vec_holds`],
/// and what its answers are worth is said by `is_empty` and the capacity.
pub assume_specification<T>[ ThinVec::<T>::len ](values: &ThinVec<T>) -> (len: usize)
;

/// `ThinVec::is_empty`: whether the vector holds no values, as any answer of
/// `ThinVec::len` has it.
pub assume_specification<T>[ ThinVec::<T>::is_empty ](values: &ThinVec<T>) -> (empty: bool)
    ensures
        empty == (thin_vec_len(values) == 0),
        forall|len: usize| #[trigger] thin_vec_holds(values, len) ==> empty == (len == 0),
;

/// `ThinVec::capacity`: how many values the vector has room for, never fewer
/// than `ThinVec::len` may answer that it holds.
#[verifier::external_body]
fn thin_vec_capacity<T>(values: &ThinVec<T>) -> (capacity: usize)
    ensures
        capacity >= thin_vec_len(values),
        forall|len: usize| #[trigger] thin_vec_holds(values, len) ==> len <= capacity,
{
    values.capacity()
}

/// `IndexMap::capacity`: how many entries the map has room for, never fewer than
/// the values that a walk meets.
#[verifier::external_body]
fn index_map_capacity<K, V, S>(map: &IndexMap<K, V, S>) -> (capacity: usize)
    ensures
        capacity >= index_map_contents(map).len(),
{
    map.capacity()
}

/// `Vec::capacity`: how many values the vector has room for, never fewer than
/// it holds.
#[verifier::external_body]
fn vec_capacity<T>(vec: &Vec<T>) -> (capacity: usize)
    ensures
        capacity >= vec@.len(),
{
    vec.capacity()
}

/// `HashMap::capacity`: how many entries the map has room for, never fewer than
/// it holds.
#[verifier::external_body]
fn hash_map_capacity<K, V, S>(map: &HashMap<K, V, S>) -> (capacity: usize)
    ensures
        capacity >= map.len(),
{
    map.capacity()
}

/// `HashSet::capacity`: how many values the set has room for, never fewer than
/// it holds.
#[verifier::external_body]
fn hash_set_capacity<T, S>(set: &HashSet<T, S>) -> (capacity: usize)
    ensures
        capacity >= set.len(),
{
    set.capacity()
}

/// `ArenaMap::values`. Nothing is said of it here; it stands in
/// [`arena_map_walks`].
#[verifier::external_body]
fn arena_map_walk<'a, T, V>(map: &'a ArenaMap<Idx<T>, V>) -> (values: Vec<&'a V>)
{
    map.values().collect()
}

/// `ArenaMap::values`: the values in the occupied slots, one reference each.
/// Every walk over the same map meets the same values in the same order. That
/// they are the values which were inserted is left unsaid, since the map is
/// opaque here.
#[verifier::external_body]
fn arena_map_values<'a, T, V>(map: &'a ArenaMap<Idx<T>, V>) -> (values: Vec<&'a V>)
    ensures
        arena_map_walks(map, values@),
        forall|other: Seq<&V>| #[trigger] arena_map_walks(map, other) ==> other == values@,
{
    map.values().collect()
}

/// `IndexMap::values`. Nothing is said of it here; it stands in
/// [`index_map_walks`].
#[verifier::external_body]
fn index_map_walk<'a, K, V, S>(map: &'a IndexMap<K, V, S>) -> (values: Vec<&'a V>)
{
    map.values().collect()
}

/// `IndexMap::values`: the values of the map, one reference each. Every walk over
/// the same map meets the same values in the same order. That they are the
/// values which were inserted is left unsaid, since the map is opaque here.
#[verifier::external_body]
fn index_map_values<'a, K, V, S>(map: &'a IndexMap<K, V, S>) -> (values: Vec<&'a V>)
    ensures
        index_map_walks(map, values@),
        forall|other: Seq<&V>| #[trigger] index_map_walks(map, other) ==> other == values@,
{
    map.values().collect()
}

/// `HashMap::values`: the values of the map in some order, one reference for
/// each entry, whatever the keys and the hasher do. Where those behave, the
/// entries are those of the map's view.
#[verifier::external_body]
fn hash_map_values<'a, K, V, S>(map: &'a HashMap<K, V, S>) -> (values: Vec<&'a V>)
    ensures
        values@.len() == map.len(),
        obeys_key_model::<K>() && builds_valid_hashers::<S>() ==> values_of_entries(map@, values@),
{
    map.values().collect()
}

impl<T, const N: usize> InlineVec<T, N> {
    /// `SmallVec::spilled`: whether the values live on the heap. Values without
    /// a size never do.
    #[verifier::external_body]
    fn spilled(&self) -> (spilled: bool)
        ensures
            vstd::layout::size_of::<T>() == 0 ==> !spilled,
    {
        self.0.spilled()
    }

    /// `SmallVec::capacity`: how many values the vector has room for, never
    /// fewer than fit inline, and more where `SmallVec::spilled` says that they
    /// live on the heap.
    #[verifier::external_body]
    fn capacity(&self) -> (capacity: usize)
        ensures
            capacity >= N,
            forall|spilled: bool| #[trigger]
                call_ensures(InlineVec::<T, N>::spilled, (self,), spilled) && spilled ==> capacity
                    > N,
    {
        self.0.capacity()
    }
}

/// `values` are the values of the entries of `map`, each entry once, in the
/// order of some listing of its keys.
pub open spec fn values_of_entries<K, V>(map: Map<K, V>, values: Seq<&V>) -> bool {
    exists|keys: Seq<K>|
        {
            &&& #[trigger] keys.no_duplicates()
            &&& keys.to_set() == map.dom()
            &&& keys.len() == values.len()
            &&& forall|i: int| 0 <= i < values.len() ==> *(#[trigger] values[i]) == map[keys[i]]
        }
}

/// `arena` may answer that it holds `len` values.
pub open spec fn arena_holds<T>(arena: &Arena<T>, len: usize) -> bool {
    call_ensures(Arena::<T>::len, (arena,), len)
}

/// How many values `arena` answers that it holds.
pub open spec fn arena_len<T>(arena: &Arena<T>) -> usize {
    choose|len: usize| arena_holds(arena, len)
}

/// Whenever `arena` is asked how many values it holds, it gives the same answer.
pub open spec fn holds_one_number<T>(arena: &Arena<T>) -> bool {
    forall|len: usize| #[trigger] arena_holds(arena, len) ==> len == arena_len(arena)
}

/// `vec` may answer that it holds `len` values.
pub open spec fn thin_vec_holds<T>(vec: &ThinVec<T>, len: usize) -> bool {
    call_ensures(ThinVec::<T>::len, (vec,), len)
}

/// How many values `vec` holds, as it answers itself.
pub open spec fn thin_vec_len<T>(vec: &ThinVec<T>) -> usize {
    choose|len: usize| thin_vec_holds(vec, len)
}

/// `vec` may answer whether it is empty, and that it has room for `capacity`
/// values: never for fewer than it may answer that it holds.
pub closed spec fn thin_vec_has_room<T>(vec: &ThinVec<T>, empty: bool, capacity: usize) -> bool {
    &&& call_ensures(ThinVec::<T>::is_empty, (vec,), empty)
    &&& call_ensures(thin_vec_capacity::<T>, (vec,), capacity)
    &&& empty == (thin_vec_len(vec) == 0)
    &&& thin_vec_len(vec) <= capacity
    &&& forall|len: usize| #[trigger]
        thin_vec_holds(vec, len) ==> empty == (len == 0) && len <= capacity
}

/// `map` may answer that it has room for `capacity` entries, never for fewer than
/// a walk meets.
pub closed spec fn index_map_has_room<K, V, S>(map: &IndexMap<K, V, S>, capacity: usize) -> bool {
    &&& call_ensures(index_map_capacity::<K, V, S>, (map,), capacity)
    &&& index_map_contents(map).len() <= capacity
}

/// `arc` may answer that it shares `value`.
pub open spec fn shares<T: ?Sized>(arc: &Arc<T>, value: &T) -> bool {
    call_ensures(<Arc<T> as std::ops::Deref>::deref, (arc,), value)
}

/// The value that `arc` shares.
pub open spec fn pointee<T: ?Sized>(arc: &Arc<T>) -> &T {
    choose|value: &T| shares(arc, value)
}

/// Whenever `arc` is asked for the value that it shares, it gives the same one.
pub open spec fn shares_one_value<T: ?Sized>(arc: &Arc<T>) -> bool {
    forall|value: &T| #[trigger] shares(arc, value) ==> value == pointee(arc)
}

/// `vec` may answer that it has room for `capacity` values.
pub closed spec fn vec_has_room<T>(vec: &Vec<T>, capacity: usize) -> bool {
    call_ensures(vec_capacity::<T>, (vec,), capacity)
}

/// `map` may answer that it has room for `capacity` entries.
pub closed spec fn hash_map_has_room<K, V, S>(map: &HashMap<K, V, S>, capacity: usize) -> bool {
    call_ensures(hash_map_capacity::<K, V, S>, (map,), capacity)
}

/// `set` may answer that it has room for `capacity` values.
pub closed spec fn hash_set_has_room<T, S>(set: &HashSet<T, S>, capacity: usize) -> bool {
    call_ensures(hash_set_capacity::<T, S>, (set,), capacity)
}

/// `vec` may answer whether it left its inline array, and that it has room for
/// `capacity` values: more than the array has, where it left it.
pub closed spec fn inline_vec_has_room<T, const N: usize>(
    vec: &InlineVec<T, N>,
    spilled: bool,
    capacity: usize,
) -> bool {
    &&& call_ensures(InlineVec::<T, N>::spilled, (vec,), spilled)
    &&& call_ensures(InlineVec::<T, N>::capacity, (vec,), capacity)
    &&& spilled ==> capacity > N
}

/// `map` may answer with `values` when they are walked.
pub closed spec fn arena_map_walks<T, V>(map: &ArenaMap<Idx<T>, V>, values: Seq<&V>) -> bool {
    exists|walk: Vec<&V>| #[trigger]
        call_ensures(arena_map_walk::<T, V>, (map,), walk) && walk@ == values
}

/// The values that `map` answers with when they are walked.
pub open spec fn arena_map_contents<T, V>(map: &ArenaMap<Idx<T>, V>) -> Seq<&V> {
    choose|values: Seq<&V>| arena_map_walks(map, values)
}

/// `map` may answer with `values` when they are walked.
pub closed spec fn index_map_walks<K, V, S>(map: &IndexMap<K, V, S>, values: Seq<&V>) -> bool {
    exists|walk: Vec<&V>| #[trigger]
        call_ensures(index_map_walk::<K, V, S>, (map,), walk) && walk@ == values
}

/// The values that `map` answers with when they are walked.
pub open spec fn index_map_contents<K, V, S>(map: &IndexMap<K, V, S>) -> Seq<&V> {
    choose|values: Seq<&V>| index_map_walks(map, values)
}

/// `map` may answer with `values` when its values are walked.
pub closed spec fn hash_map_yields<K, V, S>(map: &HashMap<K, V, S>, values: Seq<&V>) -> bool {
    exists|walk: Vec<&V>| #[trigger]
        call_ensures(hash_map_values::<K, V, S>, (map,), walk) && walk@ == values
}

// --------------------------------------------------------------- containers
/// What an arena weighs: its length in values.
pub open spec fn arena_bytes<T>(arena: &Arena<T>) -> nat {
    arena_len(arena) as nat * vstd::layout::size_of::<T>()
}

/// The weights of an arena.
pub open spec fn arena_weights<T>(arena: &Arena<T>) -> Set<nat> {
    exactly(arena_bytes(arena))
}

/// An arena is a vector of values that is shrunk to fit once it is filled, so
/// its length is the allocation rather than merely the fill.
pub fn arena<T>(values: &Arena<T>) -> (r: Option<usize>)
    ensures
        reports(r, arena_bytes(values)),
        measures(r, arena_weights(values)),
        holds_one_number(values),
        forall|len: usize| #[trigger]
            call_ensures(Arena::<T>::len, (values,), len) ==> reports(
                r,
                len as nat * vstd::layout::size_of::<T>(),
            ),
{
    let len = arena_count(values);
    let r = times(len, size_of::<T>());
    proof {
        assert(arena_holds(values, len));
        assert(arena_weights(values).contains(arena_bytes(values)));
        assert forall|other: usize| #[trigger]
            call_ensures(Arena::<T>::len, (values,), other) implies other == len by {
            assert(arena_holds(values, other));
        }
    }
    r
}

/// What an arena map weighs: a slot for each of its values.
pub open spec fn arena_map_bytes<T, V>(map: &ArenaMap<Idx<T>, V>) -> nat {
    arena_map_contents(map).len() * vstd::layout::size_of::<Option<V>>()
}

/// The weights of an arena map.
pub open spec fn arena_map_weights<T, V>(map: &ArenaMap<Idx<T>, V>) -> Set<nat> {
    exactly(arena_map_bytes(map))
}

/// An arena map is a vector of slots, but it shows only the occupied ones. Its
/// holes go uncounted.
pub fn arena_map<T, V>(map: &ArenaMap<Idx<T>, V>) -> (r: Option<usize>)
    ensures
        reports(r, arena_map_bytes(map)),
        measures(r, arena_map_weights(map)),
        forall|values: Seq<&V>| #[trigger]
            arena_map_walks(map, values) ==> reports(
                r,
                values.len() * vstd::layout::size_of::<Option<V>>(),
            ),
{
    let values = arena_map_values(map);
    assert(arena_map_walks(map, values@));
    let r = times(values.len(), size_of::<Option<V>>());
    assert(arena_map_weights(map).contains(arena_map_bytes(map)));
    r
}

/// `per_value`, called once on each of `values`, may have answered with
/// `charges`.
pub open spec fn answers<V, F: Fn(&V) -> Option<usize>>(
    per_value: F,
    values: Seq<&V>,
    charges: Seq<Option<usize>>,
) -> bool {
    &&& charges.len() == values.len()
    &&& forall|i: int|
        0 <= i < values.len() ==> call_ensures(per_value, (values[i],), #[trigger] charges[i])
}

/// `r` is what `own` bytes and the answers of `per_value` on each of `values`
/// come to.
pub open spec fn adds_values<V, F: Fn(&V) -> Option<usize>>(
    r: Option<usize>,
    own: nat,
    per_value: F,
    values: Seq<&V>,
) -> bool {
    exists|charges: Seq<Option<usize>>| #[trigger]
        answers(per_value, values, charges) && adds_up(own, charges, r)
}

/// Whatever `per_value` says of a value, it measures what `each` says that the
/// value may weigh.
pub open spec fn weighs_each<V, F: Fn(&V) -> Option<usize>>(
    per_value: F,
    each: spec_fn(V) -> Set<nat>,
) -> bool {
    forall|value: &V, charge: Option<usize>| #[trigger]
        call_ensures(per_value, (value,), charge) ==> measures(charge, each(*value))
}

/// What each of `values` may weigh where one value weighs `each`.
pub open spec fn weights_of<V>(values: Seq<&V>, each: spec_fn(V) -> Set<nat>) -> Seq<Set<nat>> {
    values.map_values(|value: &V| each(*value))
}

/// Where `per_value` measures `each`, what it adds to a map is among the weights
/// of the values.
proof fn lemma_values_measure<V, F: Fn(&V) -> Option<usize>>(
    r: Option<usize>,
    own: nat,
    per_value: F,
    values: Seq<&V>,
    each: spec_fn(V) -> Set<nat>,
)
    requires
        adds_values(r, own, per_value, values),
        weighs_each(per_value, each),
    ensures
        measures(r, sum_of(seq![exactly(own), sum_of(weights_of(values, each))])),
{
    let charges = choose|charges: Seq<Option<usize>>| #[trigger]
        answers(per_value, values, charges) && adds_up(own, charges, r);
    let parts = weights_of(values, each);
    assert(all_measure(charges, parts));
    let numbers = lemma_measured_numbers(charges, parts);
    assert(reports(r, own + sum(numbers)));
    law_two_parts_weigh_both(exactly(own), sum_of(parts), own + sum(numbers));
    assert(exactly(own).contains(own) && sum_of(parts).contains(sum(numbers)));
}

/// Adds `own` bytes and what `per_value` says of each of `values`.
fn add_values<V, F: Fn(&V) -> Option<usize>>(
    own: Option<usize>,
    values: &Vec<&V>,
    per_value: &F,
) -> (r: Option<usize>)
    requires
        forall|i: int|
            0 <= i < values@.len() ==> call_requires(*per_value, (#[trigger] values@[i],)),
    ensures
        forall|bytes: nat| #[trigger]
            reports(own, bytes) ==> adds_values(r, bytes, *per_value, values@),
{
    let mut charges: Vec<Option<usize>> = Vec::new();
    let mut i: usize = 0;
    while i < values.len()
        invariant
            i <= values.len(),
            charges@.len() == i,
            forall|j: int|
                0 <= j < values@.len() ==> call_requires(*per_value, (#[trigger] values@[j],)),
            forall|j: int| 0 <= j < i ==> call_ensures(
                *per_value,
                (values@[j],),
                #[trigger] charges@[j],
            ),
        decreases values.len() - i,
    {
        let value = values[i];
        let charge = per_value(value);
        charges.push(charge);
        i = i + 1;
    }
    let r = plus(own, total(charges.as_slice()));
    proof {
        assert forall|bytes: nat| #[trigger] reports(own, bytes) implies adds_values(
            r,
            bytes,
            *per_value,
            values@,
        ) by {
            assert(answers(*per_value, values@, charges@));
            assert(adds_up(bytes, charges@, r));
        }
    }
    r
}

/// What an arena map may weigh whose values weigh `each` on top of their slots.
pub open spec fn arena_map_with_weights<T, V>(
    map: &ArenaMap<Idx<T>, V>,
    each: spec_fn(V) -> Set<nat>,
) -> Set<nat> {
    sum_of(
        seq![exactly(arena_map_bytes(map)), sum_of(weights_of(arena_map_contents(map), each))],
    )
}

/// [`arena_map`] for a map whose values own heap of their own.
pub fn arena_map_with<T, V, F: Fn(&V) -> Option<usize>>(
    map: &ArenaMap<Idx<T>, V>,
    per_value: F,
) -> (r: Option<usize>)
    requires
        forall|i: int|
            0 <= i < arena_map_contents(map).len() ==> call_requires(
                per_value,
                (#[trigger] arena_map_contents(map)[i],),
            ),
    ensures
        adds_values(r, arena_map_bytes(map), per_value, arena_map_contents(map)),
        forall|each: spec_fn(V) -> Set<nat>| #[trigger]
            weighs_each(per_value, each) ==> measures(r, arena_map_with_weights(map, each)),
{
    let values = arena_map_values(map);
    proof {
        assert(arena_map_walks(map, values@));
        assert forall|i: int| 0 <= i < values@.len() implies call_requires(
            per_value,
            (#[trigger] values@[i],),
        ) by {
            assert(values@[i] == arena_map_contents(map)[i]);
        }
    }
    let slots = times(values.len(), size_of::<Option<V>>());
    let r = add_values(slots, &values, &per_value);
    proof {
        assert(reports(slots, arena_map_bytes(map)));
        assert forall|each: spec_fn(V) -> Set<nat>| #[trigger]
            weighs_each(per_value, each) implies measures(r, arena_map_with_weights(map, each)) by {
            lemma_values_measure(r, arena_map_bytes(map), per_value, values@, each);
        }
    }
    r
}

/// The bytes of a hash table with room for `capacity` slots: each slot, and one
/// control byte beside it.
pub fn hash_table_bytes(capacity: usize, slot: usize) -> (r: Option<usize>)
    ensures
        reports(r, capacity as nat * (slot as nat + 1)),
{
    let r = plus(times(capacity, slot), Some(capacity));
    proof {
        assert(capacity * (slot + 1) == capacity * slot + capacity) by (nonlinear_arith);
        assert(reports(Some(capacity), capacity as nat));
    }
    r
}

/// What a hash map may weigh.
pub open spec fn hash_map_weights<K, V, S>(map: &HashMap<K, V, S>) -> Set<nat> {
    Set::new(
        |n: nat|
            exists|capacity: usize| #[trigger]
                hash_map_has_room(map, capacity) && n == capacity * (vstd::layout::size_of::<
                    (K, V),
                >() + 1),
    )
}

/// A hash map allocates for its capacity, not for its length, and keeps one
/// control byte per bucket beside the bucket itself.
pub fn hash_map<K, V, S>(map: &HashMap<K, V, S>) -> (r: Option<usize>)
    ensures
        measures(r, hash_map_weights(map)),
{
    let capacity = hash_map_capacity(map);
    let r = hash_table_bytes(capacity, size_of::<(K, V)>());
    proof {
        assert(hash_map_has_room(map, capacity));
        assert(hash_map_weights(map).contains(
            capacity as nat * (vstd::layout::size_of::<(K, V)>() + 1),
        ));
    }
    r
}

/// What a hash map may weigh whose values weigh `each` on top of their buckets.
pub open spec fn hash_map_with_weights<K, V, S>(
    map: &HashMap<K, V, S>,
    each: spec_fn(V) -> Set<nat>,
) -> Set<nat> {
    Set::new(
        |n: nat|
            exists|values: Seq<&V>| #[trigger]
                hash_map_yields(map, values) && sum_of(
                    seq![hash_map_weights(map), sum_of(weights_of(values, each))],
                ).contains(n),
    )
}

/// [`hash_map`] for a map whose values own heap of their own.
pub fn hash_map_with<K, V, S, F: Fn(&V) -> Option<usize>>(
    map: &HashMap<K, V, S>,
    per_value: F,
) -> (r: Option<usize>)
    requires
        forall|values: Seq<&V>, i: int| #![trigger hash_map_yields(map, values), values[i]]
            hash_map_yields(map, values) && 0 <= i < values.len() ==> call_requires(
                per_value,
                (values[i],),
            ),
    ensures
        exists|own: nat, values: Seq<&V>|
            {
                &&& #[trigger] hash_map_weights(map).contains(own)
                &&& #[trigger] hash_map_yields(map, values)
                &&& adds_values(r, own, per_value, values)
            },
        forall|each: spec_fn(V) -> Set<nat>| #[trigger]
            weighs_each(per_value, each) ==> measures(r, hash_map_with_weights(map, each)),
{
    let charge = hash_map(map);
    let values = hash_map_values(map);
    assert(hash_map_yields(map, values@));
    let r = add_values(charge, &values, &per_value);
    proof {
        let own = choose|own: nat| #[trigger]
            hash_map_weights(map).contains(own) && reports(charge, own);
        assert(hash_map_weights(map).contains(own) && adds_values(r, own, per_value, values@));
        assert forall|each: spec_fn(V) -> Set<nat>| #[trigger]
            weighs_each(per_value, each) implies measures(r, hash_map_with_weights(map, each)) by {
            let owned = sum_of(weights_of(values@, each));
            let exact = sum_of(seq![exactly(own), owned]);
            let all = sum_of(seq![hash_map_weights(map), owned]);
            lemma_values_measure(r, own, per_value, values@, each);
            assert forall|n: nat| #[trigger] exact.contains(n) implies hash_map_with_weights(
                map,
                each,
            ).contains(n) by {
                law_two_parts_weigh_both(exactly(own), owned, n);
                law_two_parts_weigh_both(hash_map_weights(map), owned, n);
                assert(all.contains(n));
            }
            lemma_measures_more(r, exact, hash_map_with_weights(map, each));
        }
    }
    r
}

/// What a hash set may weigh.
pub open spec fn hash_set_weights<T>(set: &FxHashSet<T>) -> Set<nat> {
    Set::new(
        |n: nat|
            exists|capacity: usize| #[trigger]
                hash_set_has_room(set, capacity) && n == capacity * (vstd::layout::size_of::<T>()
                    + 1),
    )
}

/// A set is a map to `()`, with the same control byte per bucket.
pub fn hash_set<T>(set: &FxHashSet<T>) -> (r: Option<usize>)
    ensures
        measures(r, hash_set_weights(set)),
{
    let capacity = hash_set_capacity(set);
    let r = hash_table_bytes(capacity, size_of::<T>());
    proof {
        assert(hash_set_has_room(set, capacity));
        assert(hash_set_weights(set).contains(
            capacity as nat * (vstd::layout::size_of::<T>() + 1),
        ));
    }
    r
}

/// The bytes of the entry vector of an insertion-ordered map with room for
/// `capacity` entries: a hash, a key and a value each.
pub fn index_entries_bytes(capacity: usize, key: usize, value: usize) -> (r: Option<usize>)
    ensures
        reports(r, capacity as nat * (vstd::layout::size_of::<usize>() + key as nat + value as nat)),
{
    let hash = size_of::<usize>();
    let r = plus(plus(times(capacity, hash), times(capacity, key)), times(capacity, value));
    proof {
        assert(capacity * (hash + key + value) == capacity * hash + capacity * key + capacity
            * value) by (nonlinear_arith);
        let (h, k, v) = (
            capacity as nat * hash as nat,
            capacity as nat * key as nat,
            capacity as nat * value as nat,
        );
        assert(reports(r, h + k + v));
    }
    r
}

/// What an insertion-ordered map may weigh.
pub open spec fn index_map_weights<K, V>(map: &FxIndexMap<K, V>) -> Set<nat> {
    Set::new(
        |n: nat|
            exists|capacity: usize| #[trigger]
                index_map_has_room(map, capacity) && n == capacity * (vstd::layout::size_of::<
                    usize,
                >() + vstd::layout::size_of::<K>() + vstd::layout::size_of::<V>()),
    )
}

/// An insertion-ordered map is a vector of `{hash, key, value}` buckets beside a
/// table of positions into it. The table and any padding of the buckets are left
/// out.
pub fn index_map<K, V>(map: &FxIndexMap<K, V>) -> (r: Option<usize>)
    ensures
        measures(r, index_map_weights(map)),
{
    let capacity = index_map_capacity(map);
    let r = index_entries_bytes(capacity, size_of::<K>(), size_of::<V>());
    proof {
        assert(index_map_has_room(map, capacity));
        assert(index_map_weights(map).contains(
            capacity as nat * (vstd::layout::size_of::<usize>() + vstd::layout::size_of::<K>()
                + vstd::layout::size_of::<V>()),
        ));
    }
    r
}

/// What an insertion-ordered map may weigh whose values weigh `each` on top of
/// their buckets.
pub open spec fn index_map_with_weights<K, V>(
    map: &FxIndexMap<K, V>,
    each: spec_fn(V) -> Set<nat>,
) -> Set<nat> {
    sum_of(seq![index_map_weights(map), sum_of(weights_of(index_map_contents(map), each))])
}

/// [`index_map`] for a map whose values own heap of their own.
pub fn index_map_with<K, V, F: Fn(&V) -> Option<usize>>(
    map: &FxIndexMap<K, V>,
    per_value: F,
) -> (r: Option<usize>)
    requires
        forall|i: int|
            0 <= i < index_map_contents(map).len() ==> call_requires(
                per_value,
                (#[trigger] index_map_contents(map)[i],),
            ),
    ensures
        exists|own: nat| #[trigger]
            index_map_weights(map).contains(own) && adds_values(
                r,
                own,
                per_value,
                index_map_contents(map),
            ),
        forall|each: spec_fn(V) -> Set<nat>| #[trigger]
            weighs_each(per_value, each) ==> measures(r, index_map_with_weights(map, each)),
{
    let charge = index_map(map);
    let values = index_map_values(map);
    proof {
        assert(index_map_walks(map, values@));
        assert forall|i: int| 0 <= i < values@.len() implies call_requires(
            per_value,
            (#[trigger] values@[i],),
        ) by {
            assert(values@[i] == index_map_contents(map)[i]);
        }
    }
    let r = add_values(charge, &values, &per_value);
    proof {
        let own = choose|own: nat| #[trigger]
            index_map_weights(map).contains(own) && reports(charge, own);
        assert(index_map_weights(map).contains(own) && adds_values(r, own, per_value, values@));
        assert forall|each: spec_fn(V) -> Set<nat>| #[trigger]
            weighs_each(per_value, each) implies measures(r, index_map_with_weights(map, each)) by {
            let owned = sum_of(weights_of(values@, each));
            let exact = sum_of(seq![exactly(own), owned]);
            lemma_values_measure(r, own, per_value, values@, each);
            assert forall|n: nat| #[trigger] exact.contains(n) implies index_map_with_weights(
                map,
                each,
            ).contains(n) by {
                law_two_parts_weigh_both(exactly(own), owned, n);
                law_two_parts_weigh_both(index_map_weights(map), owned, n);
            }
            lemma_measures_more(r, exact, index_map_with_weights(map, each));
        }
    }
    r
}

/// What a slice weighs: its length in values.
pub open spec fn slice_bytes<T>(items: &[T]) -> nat {
    items@.len() * vstd::layout::size_of::<T>()
}

/// The weights of a slice.
pub open spec fn slice_weights<T>(items: &[T]) -> Set<nat> {
    exactly(slice_bytes(items))
}

/// A slice has no room to spare, so its length is its allocation, and the bytes
/// of anything that lies in memory can be counted.
pub fn slice<T>(items: &[T]) -> (r: Option<usize>)
    ensures
        r is Some,
        reports(r, items@.len() * vstd::layout::size_of::<T>()),
        reports(r, slice_bytes(items)),
        measures(r, slice_weights(items)),
{
    broadcast use vstd::layout::layout_of_slices;

    let r = Some(size_of_val(items));
    assert(slice_weights(items).contains(slice_bytes(items)));
    r
}

/// What a vector may weigh.
pub open spec fn vec_weights<T>(items: &Vec<T>) -> Set<nat> {
    Set::new(
        |n: nat|
            exists|capacity: usize| #[trigger]
                vec_has_room(items, capacity) && n == capacity * vstd::layout::size_of::<T>(),
    )
}

/// A vector allocates for its capacity.
pub fn vec<T>(items: &Vec<T>) -> (r: Option<usize>)
    ensures
        measures(r, vec_weights(items)),
{
    let capacity = vec_capacity(items);
    let r = times(capacity, size_of::<T>());
    proof {
        assert(vec_has_room(items, capacity));
        assert(vec_weights(items).contains(capacity as nat * vstd::layout::size_of::<T>()));
    }
    r
}

/// The heap bytes of a vector with an inline array, from whether it left the
/// array, its capacity and the size of a value.
pub fn inline_vec_bytes(spilled: bool, capacity: usize, item: usize) -> (r: Option<usize>)
    ensures
        reports(
            r,
            if spilled {
                capacity as nat * item as nat
            } else {
                0
            },
        ),
{
    if spilled {
        times(capacity, item)
    } else {
        Some(0)
    }
}

/// What a vector with an inline array may weigh.
pub open spec fn small_vec_weights<T, const N: usize>(items: &InlineVec<T, N>) -> Set<nat> {
    Set::new(
        |n: nat|
            exists|spilled: bool, capacity: usize| #[trigger]
                inline_vec_has_room(items, spilled, capacity) && n == if spilled {
                    capacity as nat * vstd::layout::size_of::<T>()
                } else {
                    0
                },
    )
}

/// A vector that never spilled lives in its inline array and owns nothing:
/// counting it would charge the enclosing struct's own bytes twice.
pub fn small_vec<T, const N: usize>(items: &InlineVec<T, N>) -> (r: Option<usize>)
    ensures
        measures(r, small_vec_weights(items)),
{
    let spilled = items.spilled();
    let capacity = items.capacity();
    let r = inline_vec_bytes(spilled, capacity, size_of::<T>());
    proof {
        let bytes = if spilled {
            capacity as nat * vstd::layout::size_of::<T>()
        } else {
            0
        };
        assert(inline_vec_has_room(items, spilled, capacity));
        assert(small_vec_weights(items).contains(bytes));
    }
    r
}

/// The heap bytes of a thin vector, from whether it is empty, its capacity and
/// the size of a value.
pub fn thin_vec_bytes(empty: bool, capacity: usize, item: usize) -> (r: Option<usize>)
    ensures
        reports(
            r,
            if empty {
                0
            } else {
                capacity as nat * item as nat
            },
        ),
{
    if empty {
        Some(0)
    } else {
        times(capacity, item)
    }
}

/// What a thin vector may weigh: nothing where it is empty.
pub open spec fn thin_vec_weights<T>(items: &ThinVec<T>) -> Set<nat> {
    Set::new(
        |n: nat|
            exists|empty: bool, capacity: usize| #[trigger]
                thin_vec_has_room(items, empty, capacity) && n == if empty {
                    0
                } else {
                    capacity as nat * vstd::layout::size_of::<T>()
                },
    )
}

/// An empty thin vector points at a shared static and owns nothing; any other
/// allocates for its capacity.
pub fn thin_vec<T>(items: &ThinVec<T>) -> (r: Option<usize>)
    ensures
        thin_vec_len(items) == 0 ==> r == Some(0usize),
        forall|len: usize| #[trigger]
            thin_vec_holds(items, len) ==> {
                &&& len == 0 ==> r == Some(0usize)
                &&& r matches Some(n) ==> n >= len * vstd::layout::size_of::<T>()
            },
        measures(r, thin_vec_weights(items)),
{
    let empty = items.is_empty();
    let capacity = thin_vec_capacity(items);
    let r = thin_vec_bytes(empty, capacity, size_of::<T>());
    proof {
        let size = vstd::layout::size_of::<T>();
        let bytes = if empty {
            0
        } else {
            capacity as nat * size
        };
        assert(thin_vec_has_room(items, empty, capacity));
        assert(thin_vec_weights(items).contains(bytes));
        assert forall|len: usize| #[trigger] thin_vec_holds(items, len) implies len * size <= bytes by {
            lemma_more_slots(len as nat, capacity as nat, size);
            assert(0 * size == 0);
        }
    }
    r
}

/// What an optional box may weigh whose value owns `each`: the value itself and
/// what it owns in turn, or nothing.
pub open spec fn boxed_weights<T>(value: &Option<Box<T>>, each: spec_fn(T) -> Set<nat>) -> Set<nat> {
    match value {
        Some(value) => sum_of(seq![exactly(vstd::layout::size_of::<T>()), each(**value)]),
        None => exactly(0),
    }
}

/// The allocation a box makes for the value it points at, plus whatever that
/// value owns in turn.
pub fn boxed<T, F: Fn(&T) -> Option<usize>>(value: &Option<Box<T>>, owned: F) -> (r: Option<usize>)
    requires
        value matches Some(it) ==> call_requires(owned, (&**it,)),
    ensures
        value is None ==> r == Some(0usize),
        value matches Some(it) ==> adds_values(
            r,
            vstd::layout::size_of::<T>(),
            owned,
            seq![&**it],
        ),
        forall|each: spec_fn(T) -> Set<nat>| #[trigger]
            weighs_each(owned, each) ==> measures(r, boxed_weights(value, each)),
{
    match value {
        Some(value) => {
            let charge = owned(&**value);
            let own = Some(size_of::<T>());
            let r = plus(own, charge);
            proof {
                let size = vstd::layout::size_of::<T>();
                let charges = seq![charge];
                assert(answers(owned, seq![&**value], charges));
                assert forall|numbers: Seq<nat>| #[trigger] all_report(charges, numbers) implies reports(
                    r,
                    size + sum(numbers),
                ) by {
                    assert(reports(charges[0], numbers[0]));
                    reveal_with_fuel(sum, 2);
                }
                assert(adds_up(size, charges, r));
                assert forall|each: spec_fn(T) -> Set<nat>| #[trigger]
                    weighs_each(owned, each) implies measures(
                    r,
                    boxed_weights(&Some(*value), each),
                ) by {
                    assert(exactly(size).contains(size) && reports(own, size));
                    assert(measures(own, exactly(size)) && measures(charge, each(**value)));
                    law_two_counts_add_up(exactly(size), each(**value), r);
                }
            }
            r
        },
        None => {
            assert(exactly(0).contains(0));
            Some(0)
        },
    }
}

// --------------------------------------------------------------------- laws
/// A vector never weighs less than the values it holds.
pub proof fn law_a_vec_weighs_what_it_holds<T>(items: &Vec<T>, n: nat)
    requires
        vec_weights(items).contains(n),
    ensures
        n >= items@.len() * vstd::layout::size_of::<T>(),
{
    let capacity = choose|capacity: usize| #[trigger]
        vec_has_room(items, capacity) && n == capacity * vstd::layout::size_of::<T>();
    lemma_more_slots(items@.len(), capacity as nat, vstd::layout::size_of::<T>());
}

/// A thin vector never weighs less than the values that it may answer it holds,
/// and nothing where it may answer that it holds none.
pub proof fn law_a_thin_vec_weighs_what_it_holds<T>(items: &ThinVec<T>, len: usize, n: nat)
    requires
        thin_vec_holds(items, len) || len == thin_vec_len(items),
        thin_vec_weights(items).contains(n),
    ensures
        n >= len as nat * vstd::layout::size_of::<T>(),
        len == 0 ==> n == 0,
{
    let size = vstd::layout::size_of::<T>();
    let (empty, capacity) = choose|empty: bool, capacity: usize| #[trigger]
        thin_vec_has_room(items, empty, capacity) && n == if empty {
            0
        } else {
            capacity as nat * size
        };
    lemma_more_slots(len as nat, capacity as nat, size);
    assert(0 * size == 0);
}

/// Values without a size cost nothing, however many of them a vector holds or
/// has room for.
pub proof fn law_values_without_size_are_free<T>(
    part: &[T],
    items: &Vec<T>,
    thin: &ThinVec<T>,
    n: nat,
)
    requires
        vstd::layout::size_of::<T>() == 0,
        slice_weights(part).contains(n) || vec_weights(items).contains(n) || thin_vec_weights(
            thin,
        ).contains(n),
    ensures
        n == 0,
{
    assert(part@.len() * 0 == 0);
    if vec_weights(items).contains(n) {
        let capacity = choose|capacity: usize| #[trigger]
            vec_has_room(items, capacity) && n == capacity * vstd::layout::size_of::<T>();
        assert(capacity * 0 == 0);
    } else if thin_vec_weights(thin).contains(n) {
        let (empty, capacity) = choose|empty: bool, capacity: usize| #[trigger]
            thin_vec_has_room(thin, empty, capacity) && n == if empty {
                0
            } else {
                capacity as nat * vstd::layout::size_of::<T>()
            };
        assert(capacity * 0 == 0);
    }
}

/// The two halves of a slice weigh what the whole weighs, and an empty slice
/// weighs nothing.
pub proof fn law_halves_of_a_slice_add_up<T>(front: &[T], back: &[T], whole: &[T])
    requires
        whole@ == front@ + back@,
    ensures
        slice_bytes(front) + slice_bytes(back) == slice_bytes(whole),
        whole@.len() == 0 ==> slice_bytes(whole) == 0,
{
    let (m, k, size) = (front@.len(), back@.len(), vstd::layout::size_of::<T>());
    assert((m + k) * size == m * size + k * size) by (nonlinear_arith);
    assert(0 * size == 0);
}

/// A set weighs what a map to `()` with the same room weighs, wherever a value
/// beside a `()` is as large as the value.
pub proof fn law_a_set_weighs_what_a_map_to_unit_weighs<T, S>(
    set: &FxHashSet<T>,
    map: &HashMap<T, (), S>,
)
    requires
        vstd::layout::size_of::<(T, ())>() == vstd::layout::size_of::<T>(),
        forall|capacity: usize|
            #[trigger] hash_set_has_room(set, capacity) <==> #[trigger] hash_map_has_room(
                map,
                capacity,
            ),
    ensures
        hash_set_weights(set) == hash_map_weights(map),
{
    let entry = vstd::layout::size_of::<T>() + 1;
    assert forall|n: nat| #[trigger]
        hash_set_weights(set).contains(n) <==> hash_map_weights(map).contains(n) by {
        if hash_set_weights(set).contains(n) {
            let capacity = choose|capacity: usize| #[trigger]
                hash_set_has_room(set, capacity) && n == capacity * entry;
            assert(hash_map_has_room(map, capacity));
        }
        if hash_map_weights(map).contains(n) {
            let capacity = choose|capacity: usize| #[trigger]
                hash_map_has_room(map, capacity) && n == capacity * entry;
            assert(hash_set_has_room(set, capacity));
        }
    }
    assert(hash_set_weights(set) =~= hash_map_weights(map));
}

/// A hash map never weighs less than the entries it holds, with a control byte
/// for each.
pub proof fn law_a_hash_map_weighs_what_it_holds<K, V, S>(map: &HashMap<K, V, S>, n: nat)
    requires
        hash_map_weights(map).contains(n),
    ensures
        n >= map.len() as nat * (vstd::layout::size_of::<(K, V)>() + 1),
{
    let entry = vstd::layout::size_of::<(K, V)>() + 1;
    let capacity = choose|capacity: usize| #[trigger]
        hash_map_has_room(map, capacity) && n == capacity * entry;
    lemma_more_slots(map.len() as nat, capacity as nat, entry);
}

/// A hash set never weighs less than the values it holds, with a control byte
/// for each.
pub proof fn law_a_hash_set_weighs_what_it_holds<T>(set: &FxHashSet<T>, n: nat)
    requires
        hash_set_weights(set).contains(n),
    ensures
        n >= set.len() as nat * (vstd::layout::size_of::<T>() + 1),
{
    let entry = vstd::layout::size_of::<T>() + 1;
    let capacity = choose|capacity: usize| #[trigger]
        hash_set_has_room(set, capacity) && n == capacity * entry;
    lemma_more_slots(set.len() as nat, capacity as nat, entry);
}

/// An insertion-ordered map never weighs less than the entries it holds, with a
/// hash for each.
pub proof fn law_an_index_map_weighs_what_it_holds<K, V>(map: &FxIndexMap<K, V>, n: nat)
    requires
        index_map_weights(map).contains(n),
    ensures
        n >= index_map_contents(map).len() * (vstd::layout::size_of::<usize>()
            + vstd::layout::size_of::<K>() + vstd::layout::size_of::<V>()),
{
    let entry = vstd::layout::size_of::<usize>() + vstd::layout::size_of::<K>()
        + vstd::layout::size_of::<V>();
    let capacity = choose|capacity: usize| #[trigger]
        index_map_has_room(map, capacity) && n == capacity * entry;
    lemma_more_slots(index_map_contents(map).len(), capacity as nat, entry);
}

/// A vector with an inline array weighs nothing, or more than the array would
/// hold; of values without a size it always weighs nothing.
pub proof fn law_an_inline_vec_weighs_nothing_or_outgrew_its_array<T, const N: usize>(
    items: &InlineVec<T, N>,
    n: nat,
)
    requires
        small_vec_weights(items).contains(n),
    ensures
        n == 0 || n >= (N + 1) * vstd::layout::size_of::<T>(),
        vstd::layout::size_of::<T>() == 0 ==> n == 0,
{
    let (spilled, capacity) = choose|spilled: bool, capacity: usize| #[trigger]
        inline_vec_has_room(items, spilled, capacity) && n == if spilled {
            capacity as nat * vstd::layout::size_of::<T>()
        } else {
            0
        };
    if spilled {
        lemma_more_slots((N + 1) as nat, capacity as nat, vstd::layout::size_of::<T>());
    }
}

/// A walk over a hash map meets as many values as the map has entries, and
/// where keys and hasher behave, the value of each entry once.
pub proof fn law_a_walk_meets_every_entry<K, V, S>(map: &HashMap<K, V, S>, values: Seq<&V>)
    requires
        hash_map_yields(map, values),
    ensures
        values.len() == map.len(),
        obeys_key_model::<K>() && builds_valid_hashers::<S>() ==> values_of_entries(map@, values),
{
}

/// Where no value owns anything, weighing the values beside the map adds
/// nothing: each kind of map weighs as it does without its values.
pub proof fn law_values_without_heap_are_free<T, K, V, S>(
    slots: &ArenaMap<Idx<T>, V>,
    buckets: &HashMap<K, V, S>,
    entries: &FxIndexMap<K, V>,
    each: spec_fn(V) -> Set<nat>,
)
    requires
        forall|value: V| #[trigger] each(value) == exactly(0),
    ensures
        arena_map_with_weights(slots, each) == arena_map_weights(slots),
        hash_map_with_weights(buckets, each).subset_of(hash_map_weights(buckets)),
        index_map_with_weights(entries, each) == index_map_weights(entries),
{
    assert forall|n: nat| #[trigger]
        arena_map_with_weights(slots, each).contains(n) <==> arena_map_weights(slots).contains(n) by {
        lemma_free_values(arena_map_weights(slots), arena_map_contents(slots), each, n);
    }
    assert(arena_map_with_weights(slots, each) =~= arena_map_weights(slots));
    assert forall|n: nat| #[trigger]
        hash_map_with_weights(buckets, each).contains(n) implies hash_map_weights(
        buckets,
    ).contains(n) by {
        let values = choose|values: Seq<&V>| #[trigger]
            hash_map_yields(buckets, values) && sum_of(
                seq![hash_map_weights(buckets), sum_of(weights_of(values, each))],
            ).contains(n);
        lemma_free_values(hash_map_weights(buckets), values, each, n);
    }
    assert forall|n: nat| #[trigger]
        index_map_with_weights(entries, each).contains(n) <==> index_map_weights(entries).contains(
        n,
    ) by {
        lemma_free_values(index_map_weights(entries), index_map_contents(entries), each, n);
    }
    assert(index_map_with_weights(entries, each) =~= index_map_weights(entries));
}

/// Values that all weigh the same add their number times that weight, once for
/// each value that a walk meets.
pub proof fn law_values_of_one_weight_add_their_number<T, K, V, S>(
    slots: &ArenaMap<Idx<T>, V>,
    buckets: &HashMap<K, V, S>,
    entries: &FxIndexMap<K, V>,
    each: spec_fn(V) -> Set<nat>,
    bytes: nat,
)
    requires
        forall|value: V| #[trigger] each(value) == exactly(bytes),
    ensures
        arena_map_with_weights(slots, each) == exactly(
            arena_map_bytes(slots) + arena_map_contents(slots).len() * bytes,
        ),
        hash_map_with_weights(buckets, each).subset_of(
            sum_of(seq![hash_map_weights(buckets), exactly(buckets.len() as nat * bytes)]),
        ),
        index_map_with_weights(entries, each) == sum_of(
            seq![
                index_map_weights(entries),
                exactly(index_map_contents(entries).len() * bytes),
            ],
        ),
{
    lemma_equal_values(arena_map_contents(slots), each, bytes);
    law_exact_parts_make_an_exact_whole(
        seq![arena_map_bytes(slots), arena_map_contents(slots).len() * bytes],
    );
    assert(seq![arena_map_bytes(slots), arena_map_contents(slots).len() * bytes].map_values(
        |n: nat| exactly(n),
    ) =~= seq![
        exactly(arena_map_bytes(slots)),
        exactly(arena_map_contents(slots).len() * bytes),
    ]);
    reveal_with_fuel(sum, 3);
    assert(seq![
        arena_map_bytes(slots),
        arena_map_contents(slots).len() * bytes,
    ].drop_last().drop_last().len() == 0);
    assert forall|n: nat| #[trigger] hash_map_with_weights(buckets, each).contains(n) implies sum_of(
        seq![hash_map_weights(buckets), exactly(buckets.len() as nat * bytes)],
    ).contains(n) by {
        let values = choose|values: Seq<&V>| #[trigger]
            hash_map_yields(buckets, values) && sum_of(
                seq![hash_map_weights(buckets), sum_of(weights_of(values, each))],
            ).contains(n);
        law_a_walk_meets_every_entry(buckets, values);
        lemma_equal_values(values, each, bytes);
    }
    lemma_equal_values(index_map_contents(entries), each, bytes);
}

proof fn lemma_equal_values<V>(values: Seq<&V>, each: spec_fn(V) -> Set<nat>, bytes: nat)
    requires
        forall|value: V| #[trigger] each(value) == exactly(bytes),
    ensures
        sum_of(weights_of(values, each)) == exactly(values.len() * bytes),
{
    let numbers = Seq::new(values.len(), |i: int| bytes);
    assert(weights_of(values, each) =~= numbers.map_values(|n: nat| exactly(n)));
    law_exact_parts_make_an_exact_whole(numbers);
    lemma_sum_of_equals(numbers, bytes);
}

proof fn lemma_sum_of_equals(numbers: Seq<nat>, bytes: nat)
    requires
        forall|i: int| 0 <= i < numbers.len() ==> #[trigger] numbers[i] == bytes,
    ensures
        sum(numbers) == numbers.len() * bytes,
    decreases numbers.len(),
{
    let len = numbers.len();
    if len > 0 {
        lemma_sum_of_equals(numbers.drop_last(), bytes);
        assert(len * bytes == (len - 1) * bytes + bytes) by (nonlinear_arith);
    } else {
        assert(0 * bytes == 0);
    }
}

/// The counts of a map with its values are exactly the sums of a count of the
/// map alone and a count of the values that a walk meets.
pub proof fn law_a_map_and_its_values_add_up<K, V, S>(
    buckets: &HashMap<K, V, S>,
    entries: &FxIndexMap<K, V>,
    each: spec_fn(V) -> Set<nat>,
    charge: Option<usize>,
)
    ensures
        measures(charge, hash_map_with_weights(buckets, each)) <==> exists|
            values: Seq<&V>,
            own: Option<usize>,
            owned: Option<usize>,
        |
            {
                &&& #[trigger] hash_map_yields(buckets, values)
                &&& #[trigger] measures(own, hash_map_weights(buckets))
                &&& #[trigger] measures(owned, sum_of(weights_of(values, each)))
                &&& charge == added(own, owned)
            },
        measures(charge, index_map_with_weights(entries, each)) <==> exists|
            own: Option<usize>,
            owned: Option<usize>,
        |
            #[trigger] measures(own, index_map_weights(entries)) && #[trigger] measures(
                owned,
                sum_of(weights_of(index_map_contents(entries), each)),
            ) && charge == added(own, owned),
{
    assert forall|values: Seq<&V>| #[trigger] hash_map_yields(buckets, values) implies sum_of(
        seq![hash_map_weights(buckets), sum_of(weights_of(values, each))],
    ).subset_of(hash_map_with_weights(buckets, each)) by {}
    law_two_counts_add_up(
        index_map_weights(entries),
        sum_of(weights_of(index_map_contents(entries), each)),
        charge,
    );
    if measures(charge, hash_map_with_weights(buckets, each)) {
        let n = choose|n: nat| #[trigger]
            hash_map_with_weights(buckets, each).contains(n) && reports(charge, n);
        let values = choose|values: Seq<&V>| #[trigger]
            hash_map_yields(buckets, values) && sum_of(
                seq![hash_map_weights(buckets), sum_of(weights_of(values, each))],
            ).contains(n);
        let whole = sum_of(seq![hash_map_weights(buckets), sum_of(weights_of(values, each))]);
        assert(whole.contains(n) && measures(charge, whole));
        law_two_counts_add_up(hash_map_weights(buckets), sum_of(weights_of(values, each)), charge);
    }
    assert forall|values: Seq<&V>, own: Option<usize>, owned: Option<usize>|
        {
            &&& #[trigger] hash_map_yields(buckets, values)
            &&& #[trigger] measures(own, hash_map_weights(buckets))
            &&& #[trigger] measures(owned, sum_of(weights_of(values, each)))
            &&& charge == added(own, owned)
        } implies measures(charge, hash_map_with_weights(buckets, each)) by {
        let owns = sum_of(weights_of(values, each));
        law_two_counts_add_up(hash_map_weights(buckets), owns, charge);
        lemma_measures_more(
            charge,
            sum_of(seq![hash_map_weights(buckets), owns]),
            hash_map_with_weights(buckets, each),
        );
    }
}

/// Values that own nothing change no weight.
proof fn lemma_free_values<V>(own: Set<nat>, values: Seq<&V>, each: spec_fn(V) -> Set<nat>, n: nat)
    requires
        forall|value: V| #[trigger] each(value) == exactly(0),
    ensures
        sum_of(seq![own, sum_of(weights_of(values, each))]).contains(n) <==> own.contains(n),
{
    let parts = seq![own, sum_of(weights_of(values, each))];
    lemma_nothing_sums_to_nothing(weights_of(values, each));
    reveal_with_fuel(sum, 3);
    if sum_of(parts).contains(n) {
        let picks = choose|picks: Seq<nat>| #[trigger] picked(parts, picks) && n == sum(picks);
        assert(parts[0].contains(picks[0]) && parts[1].contains(picks[1]));
    }
    if own.contains(n) {
        let picks = seq![n, 0nat];
        assert(picks.drop_last() =~= seq![n]);
        assert(seq![n].drop_last() =~= Seq::empty());
        assert(picked(parts, picks));
        assert(sum(picks) == n);
    }
}

/// Parts that weigh nothing make a whole that weighs nothing.
proof fn lemma_nothing_sums_to_nothing(parts: Seq<Set<nat>>)
    requires
        forall|i: int| 0 <= i < parts.len() ==> #[trigger] parts[i] == exactly(0),
    ensures
        sum_of(parts) == exactly(0),
{
    let zeros = Seq::new(parts.len(), |i: int| 0nat);
    assert(zeros.map_values(|n: nat| exactly(n)) =~= parts);
    law_exact_parts_make_an_exact_whole(zeros);
    lemma_sum_of_zeros(zeros);
}

proof fn lemma_sum_of_zeros(zeros: Seq<nat>)
    requires
        forall|i: int| 0 <= i < zeros.len() ==> #[trigger] zeros[i] == 0,
    ensures
        sum(zeros) == 0,
    decreases zeros.len(),
{
    if zeros.len() > 0 {
        lemma_sum_of_zeros(zeros.drop_last());
    }
}

/// An absent box weighs nothing, and a present one never less than the value in
/// it.
pub proof fn law_a_box_charges_its_value<T>(
    value: &Option<Box<T>>,
    each: spec_fn(T) -> Set<nat>,
    n: nat,
)
    requires
        boxed_weights(value, each).contains(n),
    ensures
        value is None ==> n == 0,
        value is Some ==> n >= vstd::layout::size_of::<T>(),
{
    if let Some(value) = value {
        let parts = seq![exactly(vstd::layout::size_of::<T>()), each(**value)];
        let own = law_a_part_weighs_no_more(parts, 0, n);
    }
}

/// The counts of a present box are exactly its value's size and a count of what
/// the value owns; an absent box costs nothing.
pub proof fn law_a_box_and_its_value_add_up<T>(
    value: &Option<Box<T>>,
    each: spec_fn(T) -> Set<nat>,
    charge: Option<usize>,
)
    ensures
        value is None ==> (measures(charge, boxed_weights(value, each)) <==> charge == Some(0usize)),
        value matches Some(it) ==> (measures(charge, boxed_weights(value, each)) <==> exists|
            owned: Option<usize>,
        | #[trigger]
            measures(owned, each(**it)) && charge == added(
                charge_of(vstd::layout::size_of::<T>()),
                owned,
            )),
{
    assert(exactly(0).contains(0));
    if let Some(it) = value {
        let size = vstd::layout::size_of::<T>();
        let own = exactly(size);
        let owned = each(**it);
        assert(own.contains(size));
        assert(reports(charge_of(size), size));
        assert(measures(charge_of(size), own));
        assert forall|x: Option<usize>| #[trigger] measures(x, own) implies x == charge_of(size) by {
            let bytes = choose|bytes: nat| #[trigger] own.contains(bytes) && reports(x, bytes);
            assert(bytes == size);
        }
        law_two_counts_add_up(own, owned, charge);
        assert(boxed_weights(value, each) == sum_of(seq![own, owned]));
    }
}

proof fn lemma_more_slots(fewer: nat, more: nat, size: nat)
    requires
        fewer <= more,
    ensures
        fewer * size <= more * size,
{
    assert(fewer * size <= more * size) by (nonlinear_arith)
        requires
            fewer <= more,
    ;
}

// ------------------------------------------------------------- exact weights
/// Arenas, arena maps and slices weigh their length in values, whatever the
/// length, and nothing else.
pub proof fn law_exact_containers_weigh_their_length<T, V>(
    values: &Arena<T>,
    len: usize,
    map: &ArenaMap<Idx<T>, V>,
    items: &[T],
    n: nat,
)
    requires
        call_ensures(Arena::<T>::len, (values,), len),
        holds_one_number(values),
    ensures
        arena_len(values) == len,
        arena_bytes(values) == len as nat * vstd::layout::size_of::<T>(),
        arena_weights(values).contains(n) <==> n == len as nat * vstd::layout::size_of::<T>(),
        arena_map_bytes(map) == arena_map_contents(map).len() * vstd::layout::size_of::<Option<V>>(),
        arena_map_weights(map).contains(n) <==> n == arena_map_contents(map).len()
            * vstd::layout::size_of::<Option<V>>(),
        slice_bytes(items) == items@.len() * vstd::layout::size_of::<T>(),
        slice_weights(items).contains(n) <==> n == items@.len() * vstd::layout::size_of::<T>(),
{
    assert(arena_holds(values, len));
}

/// A vector weighs its capacity in values; a hash map and a hash set weigh their
/// capacity in entries and a byte more for each; an insertion-ordered map weighs
/// its capacity in keys, values and hashes. Each answer of the container gives a
/// weight, and each weight comes of an answer.
pub proof fn law_reserving_containers_weigh_their_capacity<T, K, V, S>(
    items: &Vec<T>,
    buckets: &HashMap<K, V, S>,
    set: &FxHashSet<T>,
    entries: &FxIndexMap<K, V>,
    n: nat,
)
    ensures
        vec_weights(items).contains(n) <==> exists|capacity: usize| #[trigger]
            vec_has_room(items, capacity) && n == capacity * vstd::layout::size_of::<T>(),
        hash_map_weights(buckets).contains(n) <==> exists|capacity: usize| #[trigger]
            hash_map_has_room(buckets, capacity) && n == capacity * vstd::layout::size_of::<(K, V)>()
                + capacity,
        hash_set_weights(set).contains(n) <==> exists|capacity: usize| #[trigger]
            hash_set_has_room(set, capacity) && n == capacity * vstd::layout::size_of::<T>()
                + capacity,
        index_map_weights(entries).contains(n) <==> exists|capacity: usize| #[trigger]
            index_map_has_room(entries, capacity) && n == capacity * vstd::layout::size_of::<usize>()
                + capacity * vstd::layout::size_of::<K>() + capacity * vstd::layout::size_of::<V>(),
{
    let (pair, t, k, v, hash) = (
        vstd::layout::size_of::<(K, V)>(),
        vstd::layout::size_of::<T>(),
        vstd::layout::size_of::<K>(),
        vstd::layout::size_of::<V>(),
        vstd::layout::size_of::<usize>(),
    );
    assert forall|capacity: usize| #[trigger]
        hash_map_has_room(buckets, capacity) implies capacity * (pair + 1) == capacity * pair
        + capacity by {
        lemma_slots_with_a_byte(capacity as nat, pair);
    }
    assert forall|capacity: usize| #[trigger] hash_set_has_room(set, capacity) implies capacity * (t
        + 1) == capacity * t + capacity by {
        lemma_slots_with_a_byte(capacity as nat, t);
    }
    assert forall|capacity: usize| #[trigger]
        index_map_has_room(entries, capacity) implies capacity * (hash + k + v) == capacity * hash
        + capacity * k + capacity * v by {
        assert(capacity * (hash + k + v) == capacity * hash + capacity * k + capacity * v)
            by (nonlinear_arith);
    }
    if hash_map_weights(buckets).contains(n) {
        let capacity = choose|capacity: usize| #[trigger]
            hash_map_has_room(buckets, capacity) && n == capacity * (pair + 1);
        assert(hash_map_has_room(buckets, capacity));
    }
    if hash_set_weights(set).contains(n) {
        let capacity = choose|capacity: usize| #[trigger]
            hash_set_has_room(set, capacity) && n == capacity * (t + 1);
        assert(hash_set_has_room(set, capacity));
    }
    if index_map_weights(entries).contains(n) {
        let capacity = choose|capacity: usize| #[trigger]
            index_map_has_room(entries, capacity) && n == capacity * (hash + k + v);
        assert(index_map_has_room(entries, capacity));
    }
}

proof fn lemma_slots_with_a_byte(slots: nat, size: nat)
    ensures
        slots * (size + 1) == slots * size + slots,
{
    assert(slots * (size + 1) == slots * size + slots) by (nonlinear_arith);
}

/// A vector with an inline array weighs its capacity in values once it has left
/// the array, and nothing before; a thin vector weighs its capacity in values
/// unless it is empty.
pub proof fn law_small_vectors_weigh_what_they_allocate<T, const N: usize>(
    inline: &InlineVec<T, N>,
    thin: &ThinVec<T>,
    n: nat,
)
    ensures
        small_vec_weights(inline).contains(n) <==> exists|spilled: bool, capacity: usize| #[trigger]
            inline_vec_has_room(inline, spilled, capacity) && (spilled ==> n == capacity
                * vstd::layout::size_of::<T>()) && (!spilled ==> n == 0),
        thin_vec_weights(thin).contains(n) <==> exists|empty: bool, capacity: usize| #[trigger]
            thin_vec_has_room(thin, empty, capacity) && (!empty ==> n == capacity
                * vstd::layout::size_of::<T>()) && (empty ==> n == 0),
{
    if exists|spilled: bool, capacity: usize| #[trigger]
        inline_vec_has_room(inline, spilled, capacity) && (spilled ==> n == capacity
            * vstd::layout::size_of::<T>()) && (!spilled ==> n == 0) {
        let (spilled, capacity) = choose|spilled: bool, capacity: usize| #[trigger]
            inline_vec_has_room(inline, spilled, capacity) && (spilled ==> n == capacity
                * vstd::layout::size_of::<T>()) && (!spilled ==> n == 0);
        assert(inline_vec_has_room(inline, spilled, capacity));
    }
    if exists|empty: bool, capacity: usize| #[trigger]
        thin_vec_has_room(thin, empty, capacity) && (!empty ==> n == capacity
            * vstd::layout::size_of::<T>()) && (empty ==> n == 0) {
        let (empty, capacity) = choose|empty: bool, capacity: usize| #[trigger]
            thin_vec_has_room(thin, empty, capacity) && (!empty ==> n == capacity
                * vstd::layout::size_of::<T>()) && (empty ==> n == 0);
        assert(thin_vec_has_room(thin, empty, capacity));
    }
}

/// The room that a container has is what it answers when it is asked for its
/// capacity, and the values that it yields are those that a walk meets.
proof fn law_answers_are_what_the_containers_give<T, K, V, S, const N: usize>(
    items: &Vec<T>,
    buckets: &HashMap<K, V, S>,
    set: &HashSet<T, S>,
    entries: &IndexMap<K, V, S>,
    inline: &InlineVec<T, N>,
    thin: &ThinVec<T>,
    capacity: usize,
    flag: bool,
)
    ensures
        vec_has_room(items, capacity) <==> call_ensures(vec_capacity::<T>, (items,), capacity),
        hash_map_has_room(buckets, capacity) <==> call_ensures(
            hash_map_capacity::<K, V, S>,
            (buckets,),
            capacity,
        ),
        hash_set_has_room(set, capacity) <==> call_ensures(
            hash_set_capacity::<T, S>,
            (set,),
            capacity,
        ),
        index_map_has_room(entries, capacity) ==> call_ensures(
            index_map_capacity::<K, V, S>,
            (entries,),
            capacity,
        ) && index_map_contents(entries).len() <= capacity,
        inline_vec_has_room(inline, flag, capacity) ==> call_ensures(
            InlineVec::<T, N>::spilled,
            (inline,),
            flag,
        ) && call_ensures(InlineVec::<T, N>::capacity, (inline,), capacity),
        thin_vec_has_room(thin, flag, capacity) ==> call_ensures(
            ThinVec::<T>::is_empty,
            (thin,),
            flag,
        ) && call_ensures(thin_vec_capacity::<T>, (thin,), capacity),
{
}

/// The values that a map yields are those that some walk over it meets.
proof fn law_walks_are_what_the_maps_give<T, K, V, S>(
    slots: &ArenaMap<Idx<T>, V>,
    buckets: &HashMap<K, V, S>,
    entries: &IndexMap<K, V, S>,
    values: Seq<&V>,
)
    ensures
        arena_map_walks(slots, values) <==> exists|walk: Vec<&V>| #[trigger]
            call_ensures(arena_map_walk::<T, V>, (slots,), walk) && walk@ == values,
        hash_map_yields(buckets, values) <==> exists|walk: Vec<&V>| #[trigger]
            call_ensures(hash_map_values::<K, V, S>, (buckets,), walk) && walk@ == values,
        index_map_walks(entries, values) <==> exists|walk: Vec<&V>| #[trigger]
            call_ensures(index_map_walk::<K, V, S>, (entries,), walk) && walk@ == values,
        arena_map_walks(slots, values) ==> arena_map_walks(slots, arena_map_contents(slots)),
        index_map_walks(entries, values) ==> index_map_walks(entries, index_map_contents(entries)),
{
}

/// A map whose values own heap of their own weighs what the map weighs and one
/// weight of each of its values, every value once.
pub proof fn law_each_value_is_weighed_once<T, K, V, S>(
    slots: &ArenaMap<Idx<T>, V>,
    buckets: &HashMap<K, V, S>,
    entries: &FxIndexMap<K, V>,
    each: spec_fn(V) -> Set<nat>,
    n: nat,
)
    ensures
        arena_map_with_weights(slots, each).contains(n) <==> exists|picks: Seq<nat>| #[trigger]
            picks.len() == arena_map_contents(slots).len() && (forall|i: int|
                0 <= i < picks.len() ==> each(*arena_map_contents(slots)[i]).contains(
                    #[trigger] picks[i],
                )) && n == arena_map_contents(slots).len() * vstd::layout::size_of::<Option<V>>()
                + sum(picks),
        hash_map_with_weights(buckets, each).contains(n) <==> exists|
            values: Seq<&V>,
            own: nat,
            picks: Seq<nat>,
        | #[trigger]
            hash_map_yields(buckets, values) && #[trigger] hash_map_weights(buckets).contains(own)
                && #[trigger] picks.len() == values.len() && (forall|i: int|
                0 <= i < picks.len() ==> each(*values[i]).contains(#[trigger] picks[i])) && n == own
                + sum(picks),
        index_map_with_weights(entries, each).contains(n) <==> exists|own: nat, picks: Seq<nat>|
            #[trigger] index_map_weights(entries).contains(own) && #[trigger] picks.len()
                == index_map_contents(entries).len() && (forall|i: int|
                0 <= i < picks.len() ==> each(*index_map_contents(entries)[i]).contains(
                    #[trigger] picks[i],
                )) && n == own + sum(picks),
{
    let slot = arena_map_contents(slots);
    let entry = index_map_contents(entries);
    assert forall|picks: Seq<nat>, values: Seq<&V>|
        #![trigger picks.len(), weights_of(values, each)]
        picked(weights_of(values, each), picks) <==> picks.len() == values.len() && forall|i: int|
            0 <= i < picks.len() ==> each(*values[i]).contains(#[trigger] picks[i]) by {
        let parts = weights_of(values, each);
        if picked(parts, picks) {
            assert forall|i: int| 0 <= i < picks.len() implies each(*values[i]).contains(
                #[trigger] picks[i],
            ) by {
                assert(parts[i].contains(picks[i]));
            }
        }
        if picks.len() == values.len() && forall|i: int|
            0 <= i < picks.len() ==> each(*values[i]).contains(#[trigger] picks[i]) {
            assert forall|i: int| 0 <= i < parts.len() implies #[trigger] parts[i].contains(
                picks[i],
            ) by {
                assert(each(*values[i]).contains(picks[i]));
            }
        }
    }
    lemma_owned_and_picked(exactly(arena_map_bytes(slots)), weights_of(slot, each), n);
    lemma_owned_and_picked(index_map_weights(entries), weights_of(entry, each), n);
    if arena_map_with_weights(slots, each).contains(n) {
        let (own, picks) = choose|own: nat, picks: Seq<nat>|
            #[trigger] exactly(arena_map_bytes(slots)).contains(own) && #[trigger] picked(
                weights_of(slot, each),
                picks,
            ) && n == own + sum(picks);
        assert(picks.len() == slot.len());
    }
    if exists|picks: Seq<nat>| #[trigger]
        picks.len() == slot.len() && (forall|i: int|
            0 <= i < picks.len() ==> each(*slot[i]).contains(#[trigger] picks[i])) && n
            == slot.len() * vstd::layout::size_of::<Option<V>>() + sum(picks) {
        let picks = choose|picks: Seq<nat>| #[trigger]
            picks.len() == slot.len() && (forall|i: int|
                0 <= i < picks.len() ==> each(*slot[i]).contains(#[trigger] picks[i])) && n
                == slot.len() * vstd::layout::size_of::<Option<V>>() + sum(picks);
        assert(exactly(arena_map_bytes(slots)).contains(arena_map_bytes(slots)));
        assert(picked(weights_of(slot, each), picks));
    }
    if index_map_with_weights(entries, each).contains(n) {
        let (own, picks) = choose|own: nat, picks: Seq<nat>|
            #[trigger] index_map_weights(entries).contains(own) && #[trigger] picked(
                weights_of(entry, each),
                picks,
            ) && n == own + sum(picks);
        assert(picks.len() == entry.len());
    }
    if exists|own: nat, picks: Seq<nat>|
        #[trigger] index_map_weights(entries).contains(own) && #[trigger] picks.len() == entry.len()
            && (forall|i: int|
            0 <= i < picks.len() ==> each(*entry[i]).contains(#[trigger] picks[i])) && n == own
            + sum(picks) {
        let (own, picks) = choose|own: nat, picks: Seq<nat>|
            #[trigger] index_map_weights(entries).contains(own) && #[trigger] picks.len()
                == entry.len() && (forall|i: int|
                0 <= i < picks.len() ==> each(*entry[i]).contains(#[trigger] picks[i])) && n == own
                + sum(picks);
        assert(picked(weights_of(entry, each), picks));
    }
    if hash_map_with_weights(buckets, each).contains(n) {
        let values = choose|values: Seq<&V>| #[trigger]
            hash_map_yields(buckets, values) && sum_of(
                seq![hash_map_weights(buckets), sum_of(weights_of(values, each))],
            ).contains(n);
        lemma_owned_and_picked(hash_map_weights(buckets), weights_of(values, each), n);
        let (own, picks) = choose|own: nat, picks: Seq<nat>|
            #[trigger] hash_map_weights(buckets).contains(own) && #[trigger] picked(
                weights_of(values, each),
                picks,
            ) && n == own + sum(picks);
        assert(hash_map_yields(buckets, values) && picks.len() == values.len());
    }
    assert forall|values: Seq<&V>, own: nat, picks: Seq<nat>|
        #[trigger] hash_map_yields(buckets, values) && #[trigger] hash_map_weights(
            buckets,
        ).contains(own) && #[trigger] picks.len() == values.len() && (forall|i: int|
            0 <= i < picks.len() ==> each(*values[i]).contains(#[trigger] picks[i])) && n == own
            + sum(picks) implies hash_map_with_weights(buckets, each).contains(n) by {
        lemma_owned_and_picked(hash_map_weights(buckets), weights_of(values, each), n);
        assert(picked(weights_of(values, each), picks));
    }
}

proof fn lemma_owned_and_picked(own: Set<nat>, parts: Seq<Set<nat>>, n: nat)
    ensures
        sum_of(seq![own, sum_of(parts)]).contains(n) <==> exists|m: nat, picks: Seq<nat>|
            #[trigger] own.contains(m) && #[trigger] picked(parts, picks) && n == m + sum(picks),
{
    law_two_parts_weigh_both(own, sum_of(parts), n);
    if sum_of(seq![own, sum_of(parts)]).contains(n) {
        let (x, y) = choose|x: nat, y: nat| #[trigger]
            own.contains(x) && #[trigger] sum_of(parts).contains(y) && n == x + y;
        let picks = choose|picks: Seq<nat>| #[trigger] picked(parts, picks) && y == sum(picks);
        assert(own.contains(x) && picked(parts, picks));
    }
    if exists|m: nat, picks: Seq<nat>|
        #[trigger] own.contains(m) && #[trigger] picked(parts, picks) && n == m + sum(picks) {
        let (m, picks) = choose|m: nat, picks: Seq<nat>|
            #[trigger] own.contains(m) && #[trigger] picked(parts, picks) && n == m + sum(picks);
        assert(own.contains(m) && sum_of(parts).contains(sum(picks)));
    }
}

/// What a closure answers on each value is added to what the map weighs: on all
/// of them where all answers fit, and there is no count where one does not.
pub proof fn law_the_answers_on_all_values_are_added<V, F: Fn(&V) -> Option<usize>>(
    r: Option<usize>,
    own: nat,
    per_value: F,
    values: Seq<&V>,
) -> (charges: Seq<Option<usize>>)
    requires
        adds_values(r, own, per_value, values),
    ensures
        charges.len() == values.len(),
        forall|i: int|
            0 <= i < values.len() ==> call_ensures(per_value, (values[i],), #[trigger] charges[i]),
        (forall|i: int| 0 <= i < charges.len() ==> (#[trigger] charges[i]) is Some) ==> reports(
            r,
            own + sum(charges.map_values(|charge: Option<usize>| charge->0 as nat)),
        ),
        (exists|i: int| 0 <= i < charges.len() && (#[trigger] charges[i]) is None) ==> r is None,
{
    let charges = choose|charges: Seq<Option<usize>>| #[trigger]
        answers(per_value, values, charges) && adds_up(own, charges, r);
    law_a_total_is_the_sum_of_its_counts(charges, own, r);
    charges
}

/// A box weighs its value's own bytes and one weight of what the value owns; no
/// box weighs nothing.
pub proof fn law_a_box_weighs_its_value_and_what_it_owns<T>(
    value: &Option<Box<T>>,
    each: spec_fn(T) -> Set<nat>,
    n: nat,
)
    ensures
        value is None ==> (boxed_weights(value, each).contains(n) <==> n == 0),
        value matches Some(it) ==> (boxed_weights(value, each).contains(n) <==> exists|owned: nat|
            #[trigger] each(**it).contains(owned) && n == vstd::layout::size_of::<T>() + owned),
{
    if let Some(it) = value {
        let size = vstd::layout::size_of::<T>();
        let owns = each(**it);
        law_two_parts_weigh_both(exactly(size), owns, n);
        assert(boxed_weights(value, each) == sum_of(seq![exactly(size), owns]));
        if exists|owned: nat| #[trigger] owns.contains(owned) && n == size + owned {
            let owned = choose|owned: nat| #[trigger] owns.contains(owned) && n == size + owned;
            assert(exactly(size).contains(size) && owns.contains(owned));
        }
    }
}

/// Whoever asks a shared pointer for its value gets the one that contracts speak
/// of.
pub proof fn law_a_pointer_shares_its_pointee<T: ?Sized>(arc: &Arc<T>, value: &T)
    requires
        call_ensures(<Arc<T> as std::ops::Deref>::deref, (arc,), value),
        shares_one_value(arc),
    ensures
        pointee(arc) == value,
{
    assert(shares(arc, value));
}

} // verus!
