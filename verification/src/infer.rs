//! Weighing what type inference leaves behind for a body.
//!
//! A type for every expression, pattern and binding, the resolutions of method
//! calls and field accesses, and the captures of every closure. Interned handles
//! are followed by nobody.

use la_arena::{ArenaMap, Idx};
use rustc_hash::FxHashMap;
use vstd::prelude::*;

use crate::containers;
use crate::containers::{
    arena_map, arena_map_bytes, arena_map_contents, arena_map_weights, hash_map, hash_map_weights,
    hash_map_with,
    hash_map_with_weights, hash_map_yields, index_map_with, index_map_with_weights,
    law_a_hash_map_weighs_what_it_holds, law_a_walk_meets_every_entry, slice, slice_weights,
    small_vec, small_vec_weights, vec_weights, weighs_each, weights_of, FxIndexMap, InlineVec,
};
use crate::expr_store::Hir;
use crate::weight::{
    fits_in, law_a_part_weighs_no_more, lemma_sum_step, lemma_total_measures, measures, picked, sum, sum_of, total,
};

verus! {

/// The element types of an inference result.
pub trait Inference: Hir {
    type Ty;

    type BindingMode;

    type MethodResolution;

    type FieldResolution;

    type Closure;

    type CapturedPlace;

    type Place;

    type FakeReadCause;

    type CaptureSourceStack;

    type Signature;
}

/// What capture analysis found out about a closure.
#[verifier::reject_recursive_types(I)]
pub struct ClosureData<I: Inference> {
    pub min_captures: FxIndexMap<Idx<I::Binding>, Vec<I::CapturedPlace>>,
    pub fake_reads: Box<
        [(I::Place, I::FakeReadCause, InlineVec<I::CaptureSourceStack, 2>)],
    >,
    pub liberated_sig: I::Signature,
}

/// What inference found out about a body.
#[verifier::reject_recursive_types(I)]
pub struct InferenceResult<I: Inference> {
    pub type_of_expr: ArenaMap<Idx<I::Expr>, I::Ty>,
    pub type_of_pat: ArenaMap<Idx<I::Pat>, I::Ty>,
    pub type_of_binding: ArenaMap<Idx<I::Binding>, I::Ty>,
    pub binding_modes: ArenaMap<Idx<I::Pat>, I::BindingMode>,
    pub method_resolutions: FxHashMap<Idx<I::Expr>, I::MethodResolution>,
    pub field_resolutions: FxHashMap<Idx<I::Expr>, I::FieldResolution>,
    pub closures_data: FxHashMap<I::Closure, ClosureData<I>>,
}

/// What the parts of a closure's captures may weigh. Its signature is an
/// interned handle and owns nothing.
pub open spec fn closure_data_parts<I: Inference>(data: &ClosureData<I>) -> Seq<Set<nat>> {
    seq![
        slice_weights(&*data.fake_reads),
        index_map_with_weights(
            &data.min_captures,
            |places: Vec<I::CapturedPlace>| vec_weights(&places),
        ),
        sum_of(
            data.fake_reads@.map_values(
                |read: (I::Place, I::FakeReadCause, InlineVec<I::CaptureSourceStack, 2>)|
                    small_vec_weights(&read.2),
            ),
        ),
    ]
}

/// The containers a single closure's capture analysis owns.
pub fn closure_data<I: Inference>(data: &ClosureData<I>) -> (r: Option<usize>)
    ensures
        measures(r, sum_of(closure_data_parts(data))),
{
    let reads: &[(I::Place, I::FakeReadCause, InlineVec<I::CaptureSourceStack, 2>)] =
        &*data.fake_reads;
    let mut sources: Vec<Option<usize>> = Vec::new();
    let mut i: usize = 0;
    while i < reads.len()
        invariant
            i <= reads.len(),
            sources@.len() == i,
            forall|j: int| 0 <= j < i ==> measures(
                #[trigger] sources@[j],
                small_vec_weights(&reads@[j].2),
            ),
        decreases reads.len() - i,
    {
        sources.push(small_vec(&reads[i].2));
        i = i + 1;
    }
    assert(weighs_each(
        containers::vec::<I::CapturedPlace>,
        |places: Vec<I::CapturedPlace>| vec_weights(&places),
    ));
    let charges = [
        slice(reads),
        index_map_with(&data.min_captures, containers::vec::<I::CapturedPlace>),
        total(sources.as_slice()),
    ];
    let r = total(&charges);
    proof {
        lemma_total_measures(
            sources@,
            data.fake_reads@.map_values(
                |read: (I::Place, I::FakeReadCause, InlineVec<I::CaptureSourceStack, 2>)|
                    small_vec_weights(&read.2),
            ),
            charges@[2],
        );
        lemma_total_measures(charges@, closure_data_parts(data), r);
    }
    r
}

/// What the parts of an inference result may weigh.
pub open spec fn inference_result_parts<I: Inference>(result: &InferenceResult<I>) -> Seq<Set<nat>> {
    seq![
        arena_map_weights(&result.type_of_expr),
        arena_map_weights(&result.type_of_pat),
        arena_map_weights(&result.type_of_binding),
        arena_map_weights(&result.binding_modes),
        hash_map_weights(&result.method_resolutions),
        hash_map_weights(&result.field_resolutions),
        hash_map_with_weights(
            &result.closures_data,
            |data: ClosureData<I>| sum_of(closure_data_parts(&data)),
        ),
    ]
}

impl<I: Inference> InferenceResult<I> {
    /// The heap of every map, the captures of the closures included.
    pub fn heap_size(&self) -> (r: Option<usize>)
        ensures
            measures(r, sum_of(inference_result_parts(self))),
    {
        assert(weighs_each(
            closure_data::<I>,
            |data: ClosureData<I>| sum_of(closure_data_parts(&data)),
        ));
        let charges = [
            arena_map(&self.type_of_expr),
            arena_map(&self.type_of_pat),
            arena_map(&self.type_of_binding),
            arena_map(&self.binding_modes),
            hash_map(&self.method_resolutions),
            hash_map(&self.field_resolutions),
            hash_map_with(&self.closures_data, closure_data::<I>),
        ];
        let r = total(&charges);
        proof {
            lemma_total_measures(charges@, inference_result_parts(self), r);
        }
        r
    }
}

/// The heap of an inference result.
pub fn inference_result<I: Inference>(result: &InferenceResult<I>) -> (r: Option<usize>)
    ensures
        measures(r, sum_of(inference_result_parts(result))),
{
    result.heap_size()
}

/// A closure does not pay for its signature, which is an interned handle.
pub proof fn law_the_signature_is_free<I: Inference>(
    data: ClosureData<I>,
    other_sig: I::Signature,
)
    ensures
        closure_data_parts(&ClosureData { liberated_sig: other_sig, ..data })
            == closure_data_parts(&data),
{
}

/// An inference result never weighs less than the types of its expressions,
/// patterns and bindings and the modes of the bindings, all of them together.
pub proof fn law_an_inference_result_pays_for_every_type<I: Inference>(
    result: &InferenceResult<I>,
    n: nat,
)
    requires
        sum_of(inference_result_parts(result)).contains(n),
    ensures
        n >= arena_map_bytes(&result.type_of_expr) + arena_map_bytes(&result.type_of_pat)
            + arena_map_bytes(&result.type_of_binding) + arena_map_bytes(&result.binding_modes),
{
    let parts = inference_result_parts(result);
    let picks = choose|picks: Seq<nat>| #[trigger] picked(parts, picks) && n == sum(picks);
    assert(parts[0].contains(picks[0]) && parts[1].contains(picks[1]) && parts[2].contains(picks[2])
        && parts[3].contains(picks[3]));
    reveal_with_fuel(sum, 8);
}

/// An inference result pays for each of its closures: it never weighs less than
/// an entry for every closure, and behind each of its weights stands a weight of
/// each closure's captures that is no greater.
pub proof fn law_an_inference_result_pays_for_its_closures<I: Inference>(
    result: &InferenceResult<I>,
    n: nat,
) -> (closures: Seq<&ClosureData<I>>)
    requires
        sum_of(inference_result_parts(result)).contains(n),
    ensures
        hash_map_yields(&result.closures_data, closures),
        closures.len() == result.closures_data.len(),
        n >= closures.len() * (vstd::layout::size_of::<(I::Closure, ClosureData<I>)>() + 1),
        forall|i: int|
            0 <= i < closures.len() ==> fits_in(sum_of(closure_data_parts(#[trigger] closures[i])), n),
{
    let each = |data: ClosureData<I>| sum_of(closure_data_parts(&data));
    let map = &result.closures_data;
    let part = law_a_part_weighs_no_more(inference_result_parts(result), 6, n);
    let closures = choose|values: Seq<&ClosureData<I>>| #[trigger]
        hash_map_yields(map, values) && sum_of(
            seq![hash_map_weights(map), sum_of(weights_of(values, each))],
        ).contains(part);
    let halves = seq![hash_map_weights(map), sum_of(weights_of(closures, each))];
    let buckets = law_a_part_weighs_no_more(halves, 0, part);
    law_a_walk_meets_every_entry(map, closures);
    law_a_hash_map_weighs_what_it_holds(map, buckets);
    let owned = law_a_part_weighs_no_more(halves, 1, part);
    assert forall|i: int| 0 <= i < closures.len() implies fits_in(
        sum_of(closure_data_parts(#[trigger] closures[i])),
        n,
    ) by {
        let m = law_a_part_weighs_no_more(weights_of(closures, each), i, owned);
        assert(sum_of(closure_data_parts(closures[i])).contains(m));
    }
    closures
}

// ------------------------------------------------------------- exact weights
/// A closure weighs its fake reads, its captures and the places that each capture
/// lists, and the sources of each fake read: each once.
pub proof fn law_a_closure_weighs_its_reads_and_captures<I: Inference>(
    data: &ClosureData<I>,
    places: spec_fn(Vec<I::CapturedPlace>) -> Set<nat>,
    sources: spec_fn((I::Place, I::FakeReadCause, InlineVec<I::CaptureSourceStack, 2>)) -> Set<nat>,
    n: nat,
)
    requires
        forall|it: Vec<I::CapturedPlace>| #[trigger] places(it) == vec_weights(&it),
        forall|it: (I::Place, I::FakeReadCause, InlineVec<I::CaptureSourceStack, 2>)| #[trigger]
            sources(it) == small_vec_weights(&it.2),
    ensures
        sum_of(closure_data_parts(data)).contains(n) <==> exists|captures: nat, read: nat|
            {
                &&& #[trigger] index_map_with_weights(&data.min_captures, places).contains(captures)
                &&& #[trigger] sum_of(data.fake_reads@.map_values(sources)).contains(read)
                &&& n == data.fake_reads@.len() * vstd::layout::size_of::<(I::Place, I::FakeReadCause, InlineVec<I::CaptureSourceStack, 2>)>()
                    + captures
                    + read
            },
{
    assert(places =~= |it: Vec<I::CapturedPlace>| vec_weights(&it));
    assert(data.fake_reads@.map_values(sources) =~= data.fake_reads@.map_values(
        |it: (I::Place, I::FakeReadCause, InlineVec<I::CaptureSourceStack, 2>)| small_vec_weights(&it.2),
    ));
    let parts = closure_data_parts(data);
    reveal_with_fuel(sum, 4);
    if sum_of(parts).contains(n) {
        let picks = choose|picks: Seq<nat>| #[trigger] picked(parts, picks) && n == sum(picks);
        assert(parts[0].contains(picks[0]));
        assert(parts[1].contains(picks[1]));
        assert(parts[2].contains(picks[2]));
        assert(index_map_with_weights(&data.min_captures, places).contains(picks[1]));
        assert(sum_of(data.fake_reads@.map_values(sources)).contains(picks[2]));
        assert(picks.len() == 3);
        assert(n == picks[0] + picks[1] + picks[2]);
    }
    if exists|captures: nat, read: nat|
        {
            &&& #[trigger] index_map_with_weights(&data.min_captures, places).contains(captures)
            &&& #[trigger] sum_of(data.fake_reads@.map_values(sources)).contains(read)
            &&& n == data.fake_reads@.len() * vstd::layout::size_of::<(I::Place, I::FakeReadCause, InlineVec<I::CaptureSourceStack, 2>)>()
                + captures
                + read
        } {
        let (captures, read) = choose|captures: nat, read: nat|
            {
                &&& #[trigger] index_map_with_weights(&data.min_captures, places).contains(captures)
                &&& #[trigger] sum_of(data.fake_reads@.map_values(sources)).contains(read)
                &&& n == data.fake_reads@.len() * vstd::layout::size_of::<(I::Place, I::FakeReadCause, InlineVec<I::CaptureSourceStack, 2>)>()
                    + captures
                    + read
            };
        let picks: Seq<nat> = seq![
            data.fake_reads@.len() * vstd::layout::size_of::<(I::Place, I::FakeReadCause, InlineVec<I::CaptureSourceStack, 2>)>(),
            captures,
            read,
        ];
        assert(parts[0].contains(picks[0]));
        assert(parts[1].contains(picks[1]));
        assert(parts[2].contains(picks[2]));
        assert forall|i: int| 0 <= i < parts.len() implies #[trigger] parts[i].contains(picks[i]) by {}
        assert(sum(picks) == n);
        assert(picked(parts, picks));
    }
}

/// An inference result weighs its seven maps, each once: the types of expressions,
/// patterns and bindings and the modes of the bindings by number, and whatever
/// the other maps hold, one weight of each of the resolutions of methods and of
/// fields and of the closures.
#[verifier::spinoff_prover]
pub proof fn law_an_inference_result_weighs_its_seven_maps<I: Inference>(
    result: &InferenceResult<I>,
    closure: spec_fn(ClosureData<I>) -> Set<nat>,
    n: nat,
)
    requires
        forall|it: ClosureData<I>| #[trigger] closure(it) == sum_of(closure_data_parts(&it)),
    ensures
        sum_of(inference_result_parts(result)).contains(n) <==> exists|
            methods: nat,
            fields: nat,
            closures: nat,
        |
            {
                &&& #[trigger] hash_map_weights(&result.method_resolutions).contains(methods)
                &&& #[trigger] hash_map_weights(&result.field_resolutions).contains(fields)
                &&& #[trigger] hash_map_with_weights(&result.closures_data, closure).contains(closures)
                &&& n == arena_map_contents(&result.type_of_expr).len() * vstd::layout::size_of::<Option<I::Ty>>()
                    + arena_map_contents(&result.type_of_pat).len() * vstd::layout::size_of::<Option<I::Ty>>()
                    + arena_map_contents(&result.type_of_binding).len() * vstd::layout::size_of::<Option<I::Ty>>()
                    + arena_map_contents(&result.binding_modes).len() * vstd::layout::size_of::<Option<I::BindingMode>>()
                    + methods
                    + fields
                    + closures
            },
{
    assert(closure =~= |it: ClosureData<I>| sum_of(closure_data_parts(&it)));
    let parts = inference_result_parts(result);
    if sum_of(parts).contains(n) {
        let picks = choose|picks: Seq<nat>| #[trigger] picked(parts, picks) && n == sum(picks);
        assert(parts[0].contains(picks[0]));
        assert(parts[1].contains(picks[1]));
        assert(parts[2].contains(picks[2]));
        assert(parts[3].contains(picks[3]));
        assert(parts[4].contains(picks[4]));
        assert(parts[5].contains(picks[5]));
        assert(parts[6].contains(picks[6]));
        assert(hash_map_weights(&result.method_resolutions).contains(picks[4]));
        assert(hash_map_weights(&result.field_resolutions).contains(picks[5]));
        assert(hash_map_with_weights(&result.closures_data, closure).contains(picks[6]));
        assert(picks.len() == 7);
        lemma_sum_step(picks, 0);
        lemma_sum_step(picks, 1);
        lemma_sum_step(picks, 2);
        lemma_sum_step(picks, 3);
        lemma_sum_step(picks, 4);
        lemma_sum_step(picks, 5);
        lemma_sum_step(picks, 6);
        assert(n == picks[0] + picks[1] + picks[2] + picks[3] + picks[4] + picks[5] + picks[6]);
    }
    if exists|methods: nat, fields: nat, closures: nat|
        {
            &&& #[trigger] hash_map_weights(&result.method_resolutions).contains(methods)
            &&& #[trigger] hash_map_weights(&result.field_resolutions).contains(fields)
            &&& #[trigger] hash_map_with_weights(&result.closures_data, closure).contains(closures)
            &&& n == arena_map_contents(&result.type_of_expr).len() * vstd::layout::size_of::<Option<I::Ty>>()
                + arena_map_contents(&result.type_of_pat).len() * vstd::layout::size_of::<Option<I::Ty>>()
                + arena_map_contents(&result.type_of_binding).len() * vstd::layout::size_of::<Option<I::Ty>>()
                + arena_map_contents(&result.binding_modes).len() * vstd::layout::size_of::<Option<I::BindingMode>>()
                + methods
                + fields
                + closures
        } {
        let (methods, fields, closures) = choose|methods: nat, fields: nat, closures: nat|
            {
                &&& #[trigger] hash_map_weights(&result.method_resolutions).contains(methods)
                &&& #[trigger] hash_map_weights(&result.field_resolutions).contains(fields)
                &&& #[trigger] hash_map_with_weights(&result.closures_data, closure).contains(closures)
                &&& n == arena_map_contents(&result.type_of_expr).len() * vstd::layout::size_of::<Option<I::Ty>>()
                    + arena_map_contents(&result.type_of_pat).len() * vstd::layout::size_of::<Option<I::Ty>>()
                    + arena_map_contents(&result.type_of_binding).len() * vstd::layout::size_of::<Option<I::Ty>>()
                    + arena_map_contents(&result.binding_modes).len() * vstd::layout::size_of::<Option<I::BindingMode>>()
                    + methods
                    + fields
                    + closures
            };
        let picks: Seq<nat> = seq![
            arena_map_contents(&result.type_of_expr).len() * vstd::layout::size_of::<Option<I::Ty>>(),
            arena_map_contents(&result.type_of_pat).len() * vstd::layout::size_of::<Option<I::Ty>>(),
            arena_map_contents(&result.type_of_binding).len() * vstd::layout::size_of::<Option<I::Ty>>(),
            arena_map_contents(&result.binding_modes).len() * vstd::layout::size_of::<Option<I::BindingMode>>(),
            methods,
            fields,
            closures,
        ];
        assert(parts[0].contains(picks[0]));
        assert(parts[1].contains(picks[1]));
        assert(parts[2].contains(picks[2]));
        assert(parts[3].contains(picks[3]));
        assert(parts[4].contains(picks[4]));
        assert(parts[5].contains(picks[5]));
        assert(parts[6].contains(picks[6]));
        assert forall|i: int| 0 <= i < parts.len() implies #[trigger] parts[i].contains(picks[i]) by {}
        lemma_sum_step(picks, 0);
        lemma_sum_step(picks, 1);
        lemma_sum_step(picks, 2);
        lemma_sum_step(picks, 3);
        lemma_sum_step(picks, 4);
        lemma_sum_step(picks, 5);
        lemma_sum_step(picks, 6);
        assert(sum(picks) == n);
        assert(picked(parts, picks));
    }
}

/// An inference result never weighs less than all that its maps hold: a slot for
/// every type and mode, and an entry with its control byte for every resolved
/// method, resolved field and closure, whatever the other maps hold.
pub proof fn law_an_inference_result_pays_for_every_map<I: Inference>(
    result: &InferenceResult<I>,
    n: nat,
)
    requires
        sum_of(inference_result_parts(result)).contains(n),
    ensures
        n >= arena_map_contents(&result.type_of_expr).len() * vstd::layout::size_of::<Option<I::Ty>>()
            + arena_map_contents(&result.type_of_pat).len() * vstd::layout::size_of::<Option<I::Ty>>()
            + arena_map_contents(&result.type_of_binding).len() * vstd::layout::size_of::<
            Option<I::Ty>,
        >() + arena_map_contents(&result.binding_modes).len() * vstd::layout::size_of::<
            Option<I::BindingMode>,
        >() + result.method_resolutions.len() as nat * (vstd::layout::size_of::<
            (Idx<I::Expr>, I::MethodResolution),
        >() + 1) + result.field_resolutions.len() as nat * (vstd::layout::size_of::<
            (Idx<I::Expr>, I::FieldResolution),
        >() + 1) + result.closures_data.len() as nat * (vstd::layout::size_of::<
            (I::Closure, ClosureData<I>),
        >() + 1),
{
    let closure = |it: ClosureData<I>| sum_of(closure_data_parts(&it));
    law_an_inference_result_weighs_its_seven_maps(result, closure, n);
    let methods = hash_map_weights(&result.method_resolutions);
    let fields = hash_map_weights(&result.field_resolutions);
    let with = hash_map_with_weights(&result.closures_data, closure);
    let (a, b, c) = choose|a: nat, b: nat, c: nat|
        {
            &&& #[trigger] methods.contains(a)
            &&& #[trigger] fields.contains(b)
            &&& #[trigger] with.contains(c)
            &&& n == arena_map_contents(&result.type_of_expr).len() * vstd::layout::size_of::<
                Option<I::Ty>,
            >() + arena_map_contents(&result.type_of_pat).len() * vstd::layout::size_of::<
                Option<I::Ty>,
            >() + arena_map_contents(&result.type_of_binding).len() * vstd::layout::size_of::<
                Option<I::Ty>,
            >() + arena_map_contents(&result.binding_modes).len() * vstd::layout::size_of::<
                Option<I::BindingMode>,
            >() + a + b + c
        };
    law_a_hash_map_weighs_what_it_holds(&result.method_resolutions, a);
    law_a_hash_map_weighs_what_it_holds(&result.field_resolutions, b);
    let values = choose|values: Seq<&ClosureData<I>>| #[trigger]
        hash_map_yields(&result.closures_data, values) && sum_of(
            seq![
                hash_map_weights(&result.closures_data),
                sum_of(weights_of(values, closure)),
            ],
        ).contains(c);
    let halves = seq![
        hash_map_weights(&result.closures_data),
        sum_of(weights_of(values, closure)),
    ];
    let own = law_a_part_weighs_no_more(halves, 0, c);
    law_a_hash_map_weighs_what_it_holds(&result.closures_data, own);
}

} // verus!
