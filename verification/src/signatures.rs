//! Sizing what a memoized signature owns beside its source map.
//!
//! The signatures are spelled out one by one: the shared parts (the lowered
//! store, the generic parameters) sit beside different fields in each, and each
//! lists what it owns.

use la_arena::{Arena, Idx};
use triomphe::Arc;
use vstd::prelude::*;

use crate::containers::{
    arena, arena_bytes, arena_len, arena_weights, holds_one_number, pointee, shared, shares, shares_one_value,
    slice, slice_bytes, slice_weights,
};
use crate::expr_store::{
    store_heap, store_parts, store_source_map_heap, store_source_map_parts, ExpressionStore,
    ExpressionStoreSourceMap, Hir,
};
use crate::weight::{
    added, exactly, law_a_box_comes_on_top, law_two_counts_add_up, law_two_parts_weigh_both,
    lemma_known_bytes_come_on_top, lemma_total_measures, measures, picked, plus, reports, sum, sum_of,
    total,
};

verus! {

/// What a signature owns beside its source map.
pub trait SignatureHeap {
    /// What the parts of the signature may weigh.
    spec fn parts(&self) -> Seq<Set<nat>>;

    /// The heap of the signature.
    fn heap_size(&self) -> (r: Option<usize>)
        ensures
            measures(r, sum_of(self.parts())),
    ;
}

/// The generic parameters of an item.
#[verifier::reject_recursive_types(H)]
pub struct GenericParams<H: Hir> {
    pub type_or_consts: Arena<H::TypeOrConstParam>,
    pub lifetimes: Arena<H::LifetimeParam>,
    pub where_predicates: Box<[H::WherePredicate]>,
}

/// What generic parameters weigh.
pub open spec fn generic_params_bytes<H: Hir>(params: &GenericParams<H>) -> nat {
    arena_bytes(&params.type_or_consts) + arena_bytes(&params.lifetimes) + slice_bytes(
        &*params.where_predicates,
    )
}

/// The heap of generic parameters.
pub fn generic_params_heap<H: Hir>(params: &GenericParams<H>) -> (r: Option<usize>)
    ensures
        reports(r, generic_params_bytes(params)),
        reports(
            r,
            arena_len(&params.type_or_consts) as nat * vstd::layout::size_of::<
                H::TypeOrConstParam,
            >() + arena_len(&params.lifetimes) as nat * vstd::layout::size_of::<H::LifetimeParam>()
                + params.where_predicates@.len() * vstd::layout::size_of::<H::WherePredicate>(),
        ),
        measures(r, exactly(generic_params_bytes(params))),
        holds_one_number(&params.type_or_consts),
        holds_one_number(&params.lifetimes),
{
    let r = plus(
        plus(arena(&params.type_or_consts), arena(&params.lifetimes)),
        slice(&*params.where_predicates),
    );
    assert(exactly(generic_params_bytes(params)).contains(generic_params_bytes(params)));
    r
}

/// The signature of a struct.
#[verifier::reject_recursive_types(H)]
pub struct StructSignature<H: Hir> {
    pub store: ExpressionStore<H>,
    pub generic_params: GenericParams<H>,
}

impl<H: Hir> SignatureHeap for StructSignature<H> {
    open spec fn parts(&self) -> Seq<Set<nat>> {
        seq![sum_of(store_parts(&self.store)), exactly(generic_params_bytes(&self.generic_params))]
    }

    fn heap_size(&self) -> (r: Option<usize>) {
        let charges = [store_heap(&self.store), generic_params_heap(&self.generic_params)];
        let r = total(&charges);
        proof {
            lemma_total_measures(charges@, self.parts(), r);
        }
        r
    }
}

/// The signature of a union.
#[verifier::reject_recursive_types(H)]
pub struct UnionSignature<H: Hir> {
    pub store: ExpressionStore<H>,
    pub generic_params: GenericParams<H>,
}

impl<H: Hir> SignatureHeap for UnionSignature<H> {
    open spec fn parts(&self) -> Seq<Set<nat>> {
        seq![sum_of(store_parts(&self.store)), exactly(generic_params_bytes(&self.generic_params))]
    }

    fn heap_size(&self) -> (r: Option<usize>) {
        let charges = [store_heap(&self.store), generic_params_heap(&self.generic_params)];
        let r = total(&charges);
        proof {
            lemma_total_measures(charges@, self.parts(), r);
        }
        r
    }
}

/// The signature of an enum.
#[verifier::reject_recursive_types(H)]
pub struct EnumSignature<H: Hir> {
    pub store: ExpressionStore<H>,
    pub generic_params: GenericParams<H>,
}

impl<H: Hir> SignatureHeap for EnumSignature<H> {
    open spec fn parts(&self) -> Seq<Set<nat>> {
        seq![sum_of(store_parts(&self.store)), exactly(generic_params_bytes(&self.generic_params))]
    }

    fn heap_size(&self) -> (r: Option<usize>) {
        let charges = [store_heap(&self.store), generic_params_heap(&self.generic_params)];
        let r = total(&charges);
        proof {
            lemma_total_measures(charges@, self.parts(), r);
        }
        r
    }
}

/// The signature of a trait.
#[verifier::reject_recursive_types(H)]
pub struct TraitSignature<H: Hir> {
    pub store: ExpressionStore<H>,
    pub generic_params: GenericParams<H>,
}

impl<H: Hir> SignatureHeap for TraitSignature<H> {
    open spec fn parts(&self) -> Seq<Set<nat>> {
        seq![sum_of(store_parts(&self.store)), exactly(generic_params_bytes(&self.generic_params))]
    }

    fn heap_size(&self) -> (r: Option<usize>) {
        let charges = [store_heap(&self.store), generic_params_heap(&self.generic_params)];
        let r = total(&charges);
        proof {
            lemma_total_measures(charges@, self.parts(), r);
        }
        r
    }
}

/// The signature of an impl.
#[verifier::reject_recursive_types(H)]
pub struct ImplSignature<H: Hir> {
    pub store: ExpressionStore<H>,
    pub generic_params: GenericParams<H>,
}

impl<H: Hir> SignatureHeap for ImplSignature<H> {
    open spec fn parts(&self) -> Seq<Set<nat>> {
        seq![sum_of(store_parts(&self.store)), exactly(generic_params_bytes(&self.generic_params))]
    }

    fn heap_size(&self) -> (r: Option<usize>) {
        let charges = [store_heap(&self.store), generic_params_heap(&self.generic_params)];
        let r = total(&charges);
        proof {
            lemma_total_measures(charges@, self.parts(), r);
        }
        r
    }
}

/// The signature of a constant, which carries no generic parameters.
#[verifier::reject_recursive_types(H)]
pub struct ConstSignature<H: Hir> {
    pub store: ExpressionStore<H>,
}

impl<H: Hir> SignatureHeap for ConstSignature<H> {
    open spec fn parts(&self) -> Seq<Set<nat>> {
        seq![sum_of(store_parts(&self.store))]
    }

    fn heap_size(&self) -> (r: Option<usize>) {
        let charges = [store_heap(&self.store)];
        let r = total(&charges);
        proof {
            lemma_total_measures(charges@, self.parts(), r);
        }
        r
    }
}

/// The signature of a static, which carries no generic parameters.
#[verifier::reject_recursive_types(H)]
pub struct StaticSignature<H: Hir> {
    pub store: ExpressionStore<H>,
}

impl<H: Hir> SignatureHeap for StaticSignature<H> {
    open spec fn parts(&self) -> Seq<Set<nat>> {
        seq![sum_of(store_parts(&self.store))]
    }

    fn heap_size(&self) -> (r: Option<usize>) {
        let charges = [store_heap(&self.store)];
        let r = total(&charges);
        proof {
            lemma_total_measures(charges@, self.parts(), r);
        }
        r
    }
}

/// The signature of a function.
#[verifier::reject_recursive_types(H)]
pub struct FunctionSignature<H: Hir> {
    pub store: ExpressionStore<H>,
    pub generic_params: GenericParams<H>,
    pub params: Box<[Idx<H::TypeRef>]>,
}

impl<H: Hir> SignatureHeap for FunctionSignature<H> {
    open spec fn parts(&self) -> Seq<Set<nat>> {
        seq![
            sum_of(store_parts(&self.store)),
            exactly(generic_params_bytes(&self.generic_params)),
            slice_weights(&*self.params),
        ]
    }

    fn heap_size(&self) -> (r: Option<usize>) {
        let charges = [
            store_heap(&self.store),
            generic_params_heap(&self.generic_params),
            slice(&*self.params),
        ];
        let r = total(&charges);
        proof {
            lemma_total_measures(charges@, self.parts(), r);
        }
        r
    }
}

/// The signature of a type alias.
#[verifier::reject_recursive_types(H)]
pub struct TypeAliasSignature<H: Hir> {
    pub store: ExpressionStore<H>,
    pub generic_params: GenericParams<H>,
    pub bounds: Box<[H::TypeBound]>,
}

impl<H: Hir> SignatureHeap for TypeAliasSignature<H> {
    open spec fn parts(&self) -> Seq<Set<nat>> {
        seq![
            sum_of(store_parts(&self.store)),
            exactly(generic_params_bytes(&self.generic_params)),
            slice_weights(&*self.bounds),
        ]
    }

    fn heap_size(&self) -> (r: Option<usize>) {
        let charges = [
            store_heap(&self.store),
            generic_params_heap(&self.generic_params),
            slice(&*self.bounds),
        ];
        let r = total(&charges);
        proof {
            lemma_total_measures(charges@, self.parts(), r);
        }
        r
    }
}

/// The fields of a variant: not a signature by name, but lowered and owned like
/// one.
#[verifier::reject_recursive_types(H)]
pub struct VariantFields<H: Hir> {
    pub store: ExpressionStore<H>,
    pub fields: Arena<H::Field>,
}

impl<H: Hir> SignatureHeap for VariantFields<H> {
    open spec fn parts(&self) -> Seq<Set<nat>> {
        seq![sum_of(store_parts(&self.store)), arena_weights(&self.fields)]
    }

    fn heap_size(&self) -> (r: Option<usize>) {
        let charges = [store_heap(&self.store), arena(&self.fields)];
        let r = total(&charges);
        proof {
            lemma_total_measures(charges@, self.parts(), r);
        }
        r
    }
}

/// What a signature may weigh together with its source map.
pub open spec fn signature_with_source_map_weights<T: SignatureHeap, H: Hir>(
    value: &(Arc<T>, ExpressionStoreSourceMap<H>),
) -> Set<nat> {
    sum_of(
        seq![sum_of(pointee(&value.0).parts()), sum_of(store_source_map_parts(&value.1))],
    )
}

/// The heap of a signature and its source map. Every kind of signature comes in
/// this shape, and only the signature half differs.
pub fn signature_with_source_map<T: SignatureHeap, H: Hir>(
    value: &(Arc<T>, ExpressionStoreSourceMap<H>),
) -> (r: Option<usize>)
    ensures
        measures(r, signature_with_source_map_weights(value)),
        shares_one_value(&value.0),
{
    let signature = shared(&value.0);
    let charges = [signature.heap_size(), store_source_map_heap(&value.1)];
    let r = total(&charges);
    proof {
        let parts = seq![sum_of(signature.parts()), sum_of(store_source_map_parts(&value.1))];
        assert(shares(&value.0, signature));
        lemma_total_measures(charges@, parts, r);
    }
    r
}

/// The counts of a signature and its source map are exactly the sums of a count
/// of the one and a count of the other.
pub proof fn law_a_signature_and_its_source_map_add_up<T: SignatureHeap, H: Hir>(
    value: &(Arc<T>, ExpressionStoreSourceMap<H>),
    charge: Option<usize>,
)
    ensures
        measures(charge, signature_with_source_map_weights(value)) <==> exists|
            signature: Option<usize>,
            source_map: Option<usize>,
        |
            #[trigger] measures(signature, sum_of(pointee(&value.0).parts())) && #[trigger] measures(
                source_map,
                sum_of(store_source_map_parts(&value.1)),
            ) && charge == added(signature, source_map),
{
    law_two_counts_add_up(
        sum_of(pointee(&value.0).parts()),
        sum_of(store_source_map_parts(&value.1)),
        charge,
    );
}

// ------------------------------------------------------------- exact weights
/// Generic parameters weigh their types and constants, their lifetimes and their
/// predicates, all by number.
pub proof fn law_generic_params_weigh_their_number<H: Hir>(params: &GenericParams<H>)
    ensures
        generic_params_bytes(params) == arena_len(&params.type_or_consts) as nat
            * vstd::layout::size_of::<H::TypeOrConstParam>() + arena_len(&params.lifetimes) as nat
            * vstd::layout::size_of::<H::LifetimeParam>() + params.where_predicates@.len()
            * vstd::layout::size_of::<H::WherePredicate>(),
{
}

/// The signature of a struct weighs its store and its generic parameters.
pub proof fn law_a_struct_weighs_its_store_and_params<H: Hir>(it: &StructSignature<H>, n: nat)
    ensures
        sum_of(it.parts()).contains(n) <==> exists|store: nat| #[trigger]
            sum_of(store_parts(&it.store)).contains(store) && n == store + generic_params_bytes(&it.generic_params),
{
    lemma_known_bytes_come_on_top(sum_of(store_parts(&it.store)), generic_params_bytes(&it.generic_params), n);
}

/// The signature of a union weighs its store and its generic parameters.
pub proof fn law_a_union_weighs_its_store_and_params<H: Hir>(it: &UnionSignature<H>, n: nat)
    ensures
        sum_of(it.parts()).contains(n) <==> exists|store: nat| #[trigger]
            sum_of(store_parts(&it.store)).contains(store) && n == store + generic_params_bytes(&it.generic_params),
{
    lemma_known_bytes_come_on_top(sum_of(store_parts(&it.store)), generic_params_bytes(&it.generic_params), n);
}

/// The signature of an enum weighs its store and its generic parameters.
pub proof fn law_an_enum_weighs_its_store_and_params<H: Hir>(it: &EnumSignature<H>, n: nat)
    ensures
        sum_of(it.parts()).contains(n) <==> exists|store: nat| #[trigger]
            sum_of(store_parts(&it.store)).contains(store) && n == store + generic_params_bytes(&it.generic_params),
{
    lemma_known_bytes_come_on_top(sum_of(store_parts(&it.store)), generic_params_bytes(&it.generic_params), n);
}

/// The signature of a trait weighs its store and its generic parameters.
pub proof fn law_a_trait_weighs_its_store_and_params<H: Hir>(it: &TraitSignature<H>, n: nat)
    ensures
        sum_of(it.parts()).contains(n) <==> exists|store: nat| #[trigger]
            sum_of(store_parts(&it.store)).contains(store) && n == store + generic_params_bytes(&it.generic_params),
{
    lemma_known_bytes_come_on_top(sum_of(store_parts(&it.store)), generic_params_bytes(&it.generic_params), n);
}

/// The signature of an impl weighs its store and its generic parameters.
pub proof fn law_an_impl_weighs_its_store_and_params<H: Hir>(it: &ImplSignature<H>, n: nat)
    ensures
        sum_of(it.parts()).contains(n) <==> exists|store: nat| #[trigger]
            sum_of(store_parts(&it.store)).contains(store) && n == store + generic_params_bytes(&it.generic_params),
{
    lemma_known_bytes_come_on_top(sum_of(store_parts(&it.store)), generic_params_bytes(&it.generic_params), n);
}

/// The signature of a const weighs its store and nothing else.
pub proof fn law_a_const_weighs_its_store<H: Hir>(it: &ConstSignature<H>, n: nat)
    ensures
        sum_of(it.parts()).contains(n) <==> sum_of(store_parts(&it.store)).contains(n),
{
    let store = sum_of(store_parts(&it.store));
    law_two_parts_weigh_both(store, exactly(0), n);
    law_a_box_comes_on_top(seq![store], 0, exactly(0));
    assert(seq![store].push(exactly(0)) =~= seq![store, exactly(0)]);
    assert(it.parts() =~= seq![store]);
    if store.contains(n) {
        assert(exactly(0).contains(0) && n == n + 0);
    }
}

/// The signature of a static weighs its store and nothing else.
pub proof fn law_a_static_weighs_its_store<H: Hir>(it: &StaticSignature<H>, n: nat)
    ensures
        sum_of(it.parts()).contains(n) <==> sum_of(store_parts(&it.store)).contains(n),
{
    let store = sum_of(store_parts(&it.store));
    law_two_parts_weigh_both(store, exactly(0), n);
    law_a_box_comes_on_top(seq![store], 0, exactly(0));
    assert(seq![store].push(exactly(0)) =~= seq![store, exactly(0)]);
    assert(it.parts() =~= seq![store]);
    if store.contains(n) {
        assert(exactly(0).contains(0) && n == n + 0);
    }
}

/// The signature of a function weighs its store, its generic parameters and its
/// parameters.
pub proof fn law_a_function_weighs_its_store_and_params<H: Hir>(it: &FunctionSignature<H>, n: nat)
    ensures
        sum_of(it.parts()).contains(n) <==> exists|store: nat|
            {
                &&& #[trigger] sum_of(store_parts(&it.store)).contains(store)
                &&& n == store
                    + generic_params_bytes(&it.generic_params)
                    + it.params@.len() * vstd::layout::size_of::<Idx<H::TypeRef>>()
            },
{
    let parts = it.parts();
    reveal_with_fuel(sum, 4);
    if sum_of(parts).contains(n) {
        let picks = choose|picks: Seq<nat>| #[trigger] picked(parts, picks) && n == sum(picks);
        assert(parts[0].contains(picks[0]));
        assert(parts[1].contains(picks[1]));
        assert(parts[2].contains(picks[2]));
        assert(sum_of(store_parts(&it.store)).contains(picks[0]));
        assert(picks.len() == 3);
        assert(n == picks[0] + picks[1] + picks[2]);
    }
    if exists|store: nat|
        {
            &&& #[trigger] sum_of(store_parts(&it.store)).contains(store)
            &&& n == store
                + generic_params_bytes(&it.generic_params)
                + it.params@.len() * vstd::layout::size_of::<Idx<H::TypeRef>>()
        } {
        let store = choose|store: nat|
            {
                &&& #[trigger] sum_of(store_parts(&it.store)).contains(store)
                &&& n == store
                    + generic_params_bytes(&it.generic_params)
                    + it.params@.len() * vstd::layout::size_of::<Idx<H::TypeRef>>()
            };
        let picks: Seq<nat> = seq![
            store,
            generic_params_bytes(&it.generic_params),
            it.params@.len() * vstd::layout::size_of::<Idx<H::TypeRef>>(),
        ];
        assert(parts[0].contains(picks[0]));
        assert(parts[1].contains(picks[1]));
        assert(parts[2].contains(picks[2]));
        assert forall|i: int| 0 <= i < parts.len() implies #[trigger] parts[i].contains(picks[i]) by {}
        assert(sum(picks) == n);
        assert(picked(parts, picks));
    }
}

/// The signature of a type alias weighs its store, its generic parameters and its
/// bounds.
pub proof fn law_a_type_alias_weighs_its_store_and_bounds<H: Hir>(it: &TypeAliasSignature<H>, n: nat)
    ensures
        sum_of(it.parts()).contains(n) <==> exists|store: nat|
            {
                &&& #[trigger] sum_of(store_parts(&it.store)).contains(store)
                &&& n == store
                    + generic_params_bytes(&it.generic_params)
                    + it.bounds@.len() * vstd::layout::size_of::<H::TypeBound>()
            },
{
    let parts = it.parts();
    reveal_with_fuel(sum, 4);
    if sum_of(parts).contains(n) {
        let picks = choose|picks: Seq<nat>| #[trigger] picked(parts, picks) && n == sum(picks);
        assert(parts[0].contains(picks[0]));
        assert(parts[1].contains(picks[1]));
        assert(parts[2].contains(picks[2]));
        assert(sum_of(store_parts(&it.store)).contains(picks[0]));
        assert(picks.len() == 3);
        assert(n == picks[0] + picks[1] + picks[2]);
    }
    if exists|store: nat|
        {
            &&& #[trigger] sum_of(store_parts(&it.store)).contains(store)
            &&& n == store
                + generic_params_bytes(&it.generic_params)
                + it.bounds@.len() * vstd::layout::size_of::<H::TypeBound>()
        } {
        let store = choose|store: nat|
            {
                &&& #[trigger] sum_of(store_parts(&it.store)).contains(store)
                &&& n == store
                    + generic_params_bytes(&it.generic_params)
                    + it.bounds@.len() * vstd::layout::size_of::<H::TypeBound>()
            };
        let picks: Seq<nat> = seq![
            store,
            generic_params_bytes(&it.generic_params),
            it.bounds@.len() * vstd::layout::size_of::<H::TypeBound>(),
        ];
        assert(parts[0].contains(picks[0]));
        assert(parts[1].contains(picks[1]));
        assert(parts[2].contains(picks[2]));
        assert forall|i: int| 0 <= i < parts.len() implies #[trigger] parts[i].contains(picks[i]) by {}
        assert(sum(picks) == n);
        assert(picked(parts, picks));
    }
}

/// The fields of a variant weigh their store and their number.
pub proof fn law_variant_fields_weigh_their_store_and_number<H: Hir>(it: &VariantFields<H>, n: nat)
    ensures
        sum_of(it.parts()).contains(n) <==> exists|store: nat| #[trigger]
            sum_of(store_parts(&it.store)).contains(store) && n == store + arena_len(
                &it.fields,
            ) as nat * vstd::layout::size_of::<H::Field>(),
{
    lemma_known_bytes_come_on_top(
        sum_of(store_parts(&it.store)),
        arena_len(&it.fields) as nat * vstd::layout::size_of::<H::Field>(),
        n,
    );
}

} // verus!
