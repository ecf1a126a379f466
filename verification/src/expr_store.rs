//! Sizing the heap that a memoized body or signature hangs on to.
//!
//! A body and the map back to its source are two families of arenas and maps,
//! each with a half that is boxed because most stores do without it. Everything
//! here is one sum after another; what matters is that no field is left out and
//! none is counted twice.
//!
//! A body is handed out as a counted reference. Only the query that builds it
//! reports it, so the shared body is charged to one owner.

use la_arena::{Arena, ArenaMap, Idx};
use rowan::TextRange;
use rustc_hash::FxHashMap;
use thin_vec::ThinVec;
use triomphe::Arc;
use vstd::prelude::*;

use crate::containers;
use crate::containers::{
    arena, arena_bytes, arena_len, arena_map, arena_map_contents, arena_map_weights, arena_map_with,
    arena_map_with_weights, arena_weights, boxed, boxed_weights, hash_map, hash_map_weights,
    hash_map_with, hash_map_with_weights, law_a_box_weighs_its_value_and_what_it_owns,
    law_a_hash_map_weighs_what_it_holds, pointee, shared, shares, shares_one_value, slice,
    slice_weights, small_vec, small_vec_weights, thin_vec_weights, vec_weights, weighs_each,
    InlineVec,
};
use crate::weight::{
    added, charge_of, exactly, law_a_box_comes_on_top, law_exact_parts_make_an_exact_whole,
    law_two_counts_add_up, lemma_known_bytes_come_on_top, lemma_sum_step, lemma_total_measures,
    measures, picked, reports, sum, sum_of, total,
};

verus! {

/// The element types of the stores. Nothing here looks inside an element, so
/// the stores are weighed for any choice of them.
pub trait Hir {
    type TypeRef;

    type LifetimeRef;

    type Expr;

    type Pat;

    type Binding;

    type Label;

    type Block;

    type Hygiene;

    type ExprOrPat;

    type ExprRoot;

    type TypeSource;

    type LifetimeSource;

    type ExprSource;

    type PatSource;

    type LabelSource;

    type FieldSource;

    type PatFieldSource;

    type CaptureSource;

    type MacroCallSource;

    type MacroCall;

    type Diagnostic;

    type Name;

    type TypeOrConstParam;

    type LifetimeParam;

    type WherePredicate;

    type TypeBound;

    type Field;
}

// -------------------------------------------------------------------- stores
/// The half of a store that only an expression needs.
#[verifier::reject_recursive_types(H)]
pub struct ExpressionOnlyStore<H: Hir> {
    pub exprs: Arena<H::Expr>,
    pub pats: Arena<H::Pat>,
    pub bindings: Arena<H::Binding>,
    pub labels: Arena<H::Label>,
    pub binding_owners: FxHashMap<Idx<H::Binding>, Idx<H::Expr>>,
    pub block_scopes: Box<[H::Block]>,
    pub ident_hygiene: FxHashMap<H::ExprOrPat, H::Hygiene>,
    pub expr_roots: InlineVec<H::ExprRoot, 1>,
}

/// Types and lifetimes, and the expressions where there are any.
#[verifier::reject_recursive_types(H)]
pub struct ExpressionStore<H: Hir> {
    pub types: Arena<H::TypeRef>,
    pub lifetimes: Arena<H::LifetimeRef>,
    pub expr_only: Option<Box<ExpressionOnlyStore<H>>>,
}

/// The body of a function, constant or static.
#[verifier::reject_recursive_types(H)]
pub struct Body<H: Hir> {
    pub store: ExpressionStore<H>,
    pub params: Box<[Idx<H::Pat>]>,
    pub self_param: Option<Idx<H::Binding>>,
}

/// What the parts of an expression half may weigh.
pub open spec fn expr_only_store_parts<H: Hir>(store: &ExpressionOnlyStore<H>) -> Seq<Set<nat>> {
    seq![
        arena_weights(&store.exprs),
        arena_weights(&store.pats),
        arena_weights(&store.bindings),
        arena_weights(&store.labels),
        hash_map_weights(&store.binding_owners),
        slice_weights(&*store.block_scopes),
        hash_map_weights(&store.ident_hygiene),
        small_vec_weights(&store.expr_roots),
    ]
}

/// The heap of the expression half of a store.
pub fn expr_only_store_heap<H: Hir>(store: &ExpressionOnlyStore<H>) -> (r: Option<usize>)
    ensures
        measures(r, sum_of(expr_only_store_parts(store))),
{
    let charges = [
        arena(&store.exprs),
        arena(&store.pats),
        arena(&store.bindings),
        arena(&store.labels),
        hash_map(&store.binding_owners),
        slice(&*store.block_scopes),
        hash_map(&store.ident_hygiene),
        small_vec(&store.expr_roots),
    ];
    let r = total(&charges);
    proof {
        lemma_total_measures(charges@, expr_only_store_parts(store), r);
    }
    r
}

/// What the parts of a store may weigh.
pub open spec fn store_parts<H: Hir>(store: &ExpressionStore<H>) -> Seq<Set<nat>> {
    seq![
        arena_weights(&store.types),
        arena_weights(&store.lifetimes),
        boxed_weights(
            &store.expr_only,
            |it: ExpressionOnlyStore<H>| sum_of(expr_only_store_parts(&it)),
        ),
    ]
}

/// The heap of a store, its boxed expression half included.
pub fn store_heap<H: Hir>(store: &ExpressionStore<H>) -> (r: Option<usize>)
    ensures
        measures(r, sum_of(store_parts(store))),
{
    let charges = [
        arena(&store.types),
        arena(&store.lifetimes),
        boxed(&store.expr_only, expr_only_store_heap::<H>),
    ];
    let r = total(&charges);
    proof {
        assert(weighs_each(
            expr_only_store_heap::<H>,
            |it: ExpressionOnlyStore<H>| sum_of(expr_only_store_parts(&it)),
        ));
        lemma_total_measures(charges@, store_parts(store), r);
    }
    r
}

/// What the parts of a body may weigh. Its `self` parameter is inline and owns
/// nothing.
pub open spec fn body_parts<H: Hir>(body: &Body<H>) -> Seq<Set<nat>> {
    seq![sum_of(store_parts(&body.store)), slice_weights(&*body.params)]
}

/// The heap of a body.
pub fn body_heap<H: Hir>(body: &Body<H>) -> (r: Option<usize>)
    ensures
        measures(r, sum_of(body_parts(body))),
{
    let charges = [store_heap(&body.store), slice(&*body.params)];
    let r = total(&charges);
    proof {
        lemma_total_measures(charges@, body_parts(body), r);
    }
    r
}

// --------------------------------------------------------------- source maps
/// Where the arguments of formatting and assembly macros come from.
#[verifier::reject_recursive_types(H)]
pub struct FormatTemplate<H: Hir> {
    pub format_args_to_captures: FxHashMap<
        Idx<H::Expr>,
        (H::Hygiene, Vec<(TextRange, H::Name)>),
    >,
    pub asm_to_captures: FxHashMap<Idx<H::Expr>, Vec<Vec<(TextRange, usize)>>>,
    pub implicit_capture_to_source: FxHashMap<Idx<H::Expr>, H::CaptureSource>,
}

/// The half of a source map that only an expression needs.
#[verifier::reject_recursive_types(H)]
pub struct ExpressionOnlySourceMap<H: Hir> {
    pub expr_map: FxHashMap<H::ExprSource, H::ExprOrPat>,
    pub expr_map_back: ArenaMap<Idx<H::Expr>, H::ExprSource>,
    pub pat_map: FxHashMap<H::PatSource, H::ExprOrPat>,
    pub pat_map_back: ArenaMap<Idx<H::Pat>, H::PatSource>,
    pub label_map: FxHashMap<H::LabelSource, Idx<H::Label>>,
    pub label_map_back: ArenaMap<Idx<H::Label>, H::LabelSource>,
    pub binding_definitions: ArenaMap<Idx<H::Binding>, InlineVec<Idx<H::Pat>, 4>>,
    pub field_map_back: FxHashMap<Idx<H::Expr>, H::FieldSource>,
    pub pat_field_map_back: FxHashMap<Idx<H::Pat>, H::PatFieldSource>,
    pub template_map: Option<Box<FormatTemplate<H>>>,
    pub expansions: FxHashMap<H::MacroCallSource, H::MacroCall>,
    pub diagnostics: ThinVec<H::Diagnostic>,
}

/// The way back from a store to the source it was lowered from.
#[verifier::reject_recursive_types(H)]
pub struct ExpressionStoreSourceMap<H: Hir> {
    pub types_map_back: ArenaMap<Idx<H::TypeRef>, H::TypeSource>,
    pub types_map: FxHashMap<H::TypeSource, Idx<H::TypeRef>>,
    pub lifetime_map_back: ArenaMap<Idx<H::LifetimeRef>, H::LifetimeSource>,
    pub lifetime_map: FxHashMap<H::LifetimeSource, Idx<H::LifetimeRef>>,
    pub expr_only: Option<Box<ExpressionOnlySourceMap<H>>>,
}

/// The way back from a body to its source.
#[verifier::reject_recursive_types(H)]
pub struct BodySourceMap<H: Hir> {
    pub store: ExpressionStoreSourceMap<H>,
}

/// What a vector of vectors may weigh: itself, and each vector in it.
pub open spec fn nested_vec_parts<T>(items: &Vec<Vec<T>>) -> Seq<Set<nat>> {
    seq![
        vec_weights(items),
        sum_of(items@.map_values(|item: Vec<T>| vec_weights(&item))),
    ]
}

/// The heap of a vector of vectors.
fn nested_vec<T>(items: &Vec<Vec<T>>) -> (r: Option<usize>)
    ensures
        measures(r, sum_of(nested_vec_parts(items))),
{
    let mut inner: Vec<Option<usize>> = Vec::new();
    let mut i: usize = 0;
    while i < items.len()
        invariant
            i <= items.len(),
            inner@.len() == i,
            forall|j: int| 0 <= j < i ==> measures(#[trigger] inner@[j], vec_weights(&items@[j])),
        decreases items.len() - i,
    {
        inner.push(containers::vec(&items[i]));
        i = i + 1;
    }
    let charges = [containers::vec(items), total(inner.as_slice())];
    let r = total(&charges);
    proof {
        lemma_total_measures(
            inner@,
            items@.map_values(|item: Vec<T>| vec_weights(&item)),
            charges@[1],
        );
        lemma_total_measures(charges@, nested_vec_parts(items), r);
    }
    r
}

/// What the parts of a format template may weigh.
pub open spec fn format_template_parts<H: Hir>(template: &FormatTemplate<H>) -> Seq<Set<nat>> {
    seq![
        hash_map_with_weights(
            &template.format_args_to_captures,
            |it: (H::Hygiene, Vec<(TextRange, H::Name)>)| vec_weights(&it.1),
        ),
        hash_map_with_weights(
            &template.asm_to_captures,
            |it: Vec<Vec<(TextRange, usize)>>| sum_of(nested_vec_parts(&it)),
        ),
        hash_map_weights(&template.implicit_capture_to_source),
    ]
}

/// The heap of a format template.
pub fn format_template_heap<H: Hir>(template: &FormatTemplate<H>) -> (r: Option<usize>)
    ensures
        measures(r, sum_of(format_template_parts(template))),
{
    let captures = |it: &(H::Hygiene, Vec<(TextRange, H::Name)>)| -> (c: Option<usize>)
        ensures
            measures(c, vec_weights(&it.1)),
        { containers::vec(&it.1) };
    let ghost captures_weigh = |it: (H::Hygiene, Vec<(TextRange, H::Name)>)| vec_weights(&it.1);
    assert(weighs_each(captures, captures_weigh));
    assert(weighs_each(
        nested_vec::<(TextRange, usize)>,
        |it: Vec<Vec<(TextRange, usize)>>| sum_of(nested_vec_parts(&it)),
    ));
    let charges = [
        hash_map_with(&template.format_args_to_captures, captures),
        hash_map_with(&template.asm_to_captures, nested_vec::<(TextRange, usize)>),
        hash_map(&template.implicit_capture_to_source),
    ];
    let r = total(&charges);
    proof {
        lemma_total_measures(charges@, format_template_parts(template), r);
    }
    r
}

/// What the parts of the expression half of a source map may weigh.
pub open spec fn expr_only_source_map_parts<H: Hir>(
    source_map: &ExpressionOnlySourceMap<H>,
) -> Seq<Set<nat>> {
    seq![
        hash_map_weights(&source_map.expr_map),
        arena_map_weights(&source_map.expr_map_back),
        hash_map_weights(&source_map.pat_map),
        arena_map_weights(&source_map.pat_map_back),
        hash_map_weights(&source_map.label_map),
        arena_map_weights(&source_map.label_map_back),
        arena_map_with_weights(
            &source_map.binding_definitions,
            |it: InlineVec<Idx<H::Pat>, 4>| small_vec_weights(&it),
        ),
        hash_map_weights(&source_map.field_map_back),
        hash_map_weights(&source_map.pat_field_map_back),
        boxed_weights(
            &source_map.template_map,
            |it: FormatTemplate<H>| sum_of(format_template_parts(&it)),
        ),
        hash_map_weights(&source_map.expansions),
        thin_vec_weights(&source_map.diagnostics),
    ]
}

/// The heap of the expression half of a source map.
pub fn expr_only_source_map_heap<H: Hir>(source_map: &ExpressionOnlySourceMap<H>) -> (r: Option<
    usize,
>)
    ensures
        measures(r, sum_of(expr_only_source_map_parts(source_map))),
{
    assert(weighs_each(
        small_vec::<Idx<H::Pat>, 4>,
        |it: InlineVec<Idx<H::Pat>, 4>| small_vec_weights(&it),
    ));
    assert(weighs_each(
        format_template_heap::<H>,
        |it: FormatTemplate<H>| sum_of(format_template_parts(&it)),
    ));
    let charges = [
        hash_map(&source_map.expr_map),
        arena_map(&source_map.expr_map_back),
        hash_map(&source_map.pat_map),
        arena_map(&source_map.pat_map_back),
        hash_map(&source_map.label_map),
        arena_map(&source_map.label_map_back),
        arena_map_with(&source_map.binding_definitions, small_vec::<Idx<H::Pat>, 4>),
        hash_map(&source_map.field_map_back),
        hash_map(&source_map.pat_field_map_back),
        boxed(&source_map.template_map, format_template_heap::<H>),
        hash_map(&source_map.expansions),
        containers::thin_vec(&source_map.diagnostics),
    ];
    let r = total(&charges);
    proof {
        lemma_total_measures(charges@, expr_only_source_map_parts(source_map), r);
    }
    r
}

/// What the parts of a source map may weigh.
pub open spec fn store_source_map_parts<H: Hir>(
    source_map: &ExpressionStoreSourceMap<H>,
) -> Seq<Set<nat>> {
    seq![
        arena_map_weights(&source_map.types_map_back),
        hash_map_weights(&source_map.types_map),
        arena_map_weights(&source_map.lifetime_map_back),
        hash_map_weights(&source_map.lifetime_map),
        boxed_weights(
            &source_map.expr_only,
            |it: ExpressionOnlySourceMap<H>| sum_of(expr_only_source_map_parts(&it)),
        ),
    ]
}

/// The heap of a source map, its boxed expression half included.
pub fn store_source_map_heap<H: Hir>(source_map: &ExpressionStoreSourceMap<H>) -> (r: Option<usize>)
    ensures
        measures(r, sum_of(store_source_map_parts(source_map))),
{
    assert(weighs_each(
        expr_only_source_map_heap::<H>,
        |it: ExpressionOnlySourceMap<H>| sum_of(expr_only_source_map_parts(&it)),
    ));
    let charges = [
        arena_map(&source_map.types_map_back),
        hash_map(&source_map.types_map),
        arena_map(&source_map.lifetime_map_back),
        hash_map(&source_map.lifetime_map),
        boxed(&source_map.expr_only, expr_only_source_map_heap::<H>),
    ];
    let r = total(&charges);
    proof {
        lemma_total_measures(charges@, store_source_map_parts(source_map), r);
    }
    r
}

/// The heap of a body's source map.
pub fn source_map_heap<H: Hir>(source_map: &BodySourceMap<H>) -> (r: Option<usize>)
    ensures
        measures(r, sum_of(store_source_map_parts(&source_map.store))),
{
    store_source_map_heap(&source_map.store)
}

/// What a body may weigh together with its source map.
pub open spec fn body_with_source_map_weights<H: Hir>(
    value: &(Arc<Body<H>>, BodySourceMap<H>),
) -> Set<nat> {
    sum_of(
        seq![
            sum_of(body_parts(pointee(&value.0))),
            sum_of(store_source_map_parts(&value.1.store)),
        ],
    )
}

/// The heap of a body and its source map, as the query that builds them reports
/// it.
pub fn body_with_source_map<H: Hir>(value: &(Arc<Body<H>>, BodySourceMap<H>)) -> (r: Option<usize>)
    ensures
        measures(r, body_with_source_map_weights(value)),
        shares_one_value(&value.0),
{
    let body = shared(&value.0);
    let charges = [body_heap(body), source_map_heap(&value.1)];
    let r = total(&charges);
    proof {
        let parts = seq![
            sum_of(body_parts(body)),
            sum_of(store_source_map_parts(&value.1.store)),
        ];
        assert(shares(&value.0, body));
        lemma_total_measures(charges@, parts, r);
    }
    r
}

/// A body does not pay for its `self` parameter, which is inline.
pub proof fn law_the_self_param_is_free<H: Hir>(body: Body<H>, other: Option<Idx<H::Binding>>)
    ensures
        body_parts(&Body { self_param: other, ..body }) == body_parts(&body),
{
}

/// Sharing a body changes nothing, and neither does its `self` parameter: two
/// references to bodies with the same store and parameters weigh the same.
pub proof fn law_a_shared_body_weighs_the_same<H: Hir>(
    a: &(Arc<Body<H>>, BodySourceMap<H>),
    b: &(Arc<Body<H>>, BodySourceMap<H>),
)
    requires
        pointee(&a.0).store == pointee(&b.0).store,
        pointee(&a.0).params == pointee(&b.0).params,
        a.1 == b.1,
    ensures
        body_with_source_map_weights(a) == body_with_source_map_weights(b),
{
}

/// The counts of a body and its source map are exactly the sums of a count of
/// the one and a count of the other.
pub proof fn law_a_body_and_its_source_map_add_up<H: Hir>(
    value: &(Arc<Body<H>>, BodySourceMap<H>),
    charge: Option<usize>,
)
    ensures
        measures(charge, body_with_source_map_weights(value)) <==> exists|
            body: Option<usize>,
            source_map: Option<usize>,
        |
            #[trigger] measures(body, sum_of(body_parts(pointee(&value.0)))) && #[trigger] measures(
                source_map,
                sum_of(store_source_map_parts(&value.1.store)),
            ) && charge == added(body, source_map),
{
    law_two_counts_add_up(
        sum_of(body_parts(pointee(&value.0))),
        sum_of(store_source_map_parts(&value.1.store)),
        charge,
    );
}

/// The expression half of a store comes on top: a store without one weighs its
/// types and lifetimes, and the same store with one weighs that, the half's own
/// box and what the half owns.
pub proof fn law_a_store_pays_for_its_expressions<H: Hir>(
    bare: &ExpressionStore<H>,
    full: &ExpressionStore<H>,
    half: Box<ExpressionOnlyStore<H>>,
)
    requires
        bare.types == full.types,
        bare.lifetimes == full.lifetimes,
        bare.expr_only is None,
        full.expr_only == Some(half),
    ensures
        sum_of(store_parts(bare)) == exactly(arena_bytes(&bare.types) + arena_bytes(&bare.lifetimes)),
        sum_of(store_parts(full)) == sum_of(
            seq![
                sum_of(store_parts(bare)),
                sum_of(
                    seq![
                        exactly(vstd::layout::size_of::<ExpressionOnlyStore<H>>()),
                        sum_of(expr_only_store_parts(&*half)),
                    ],
                ),
            ],
        ),
{
    let parts = seq![arena_weights(&bare.types), arena_weights(&bare.lifetimes)];
    let size = vstd::layout::size_of::<ExpressionOnlyStore<H>>();
    let owned = sum_of(expr_only_store_parts(&*half));
    law_a_box_comes_on_top(parts, size, owned);
    assert(store_parts(bare) =~= parts.push(exactly(0)));
    assert(store_parts(full) =~= parts.push(sum_of(seq![exactly(size), owned])));
    let numbers = seq![arena_bytes(&bare.types), arena_bytes(&bare.lifetimes)];
    law_exact_parts_make_an_exact_whole(numbers);
    assert(numbers.map_values(|n: nat| exactly(n)) =~= parts);
    reveal_with_fuel(sum, 3);
    assert(numbers.drop_last().drop_last().len() == 0);
}

/// The expression half of a source map comes on top: the same maps with such a
/// half weigh what they weigh without, the half's own box and what the half
/// owns.
pub proof fn law_a_source_map_pays_for_its_expressions<H: Hir>(
    bare: &ExpressionStoreSourceMap<H>,
    full: &ExpressionStoreSourceMap<H>,
    half: Box<ExpressionOnlySourceMap<H>>,
)
    requires
        bare.types_map_back == full.types_map_back,
        bare.types_map == full.types_map,
        bare.lifetime_map_back == full.lifetime_map_back,
        bare.lifetime_map == full.lifetime_map,
        bare.expr_only is None,
        full.expr_only == Some(half),
    ensures
        sum_of(store_source_map_parts(bare)) == sum_of(
            seq![
                arena_map_weights(&bare.types_map_back),
                hash_map_weights(&bare.types_map),
                arena_map_weights(&bare.lifetime_map_back),
                hash_map_weights(&bare.lifetime_map),
            ],
        ),
        sum_of(store_source_map_parts(full)) == sum_of(
            seq![
                sum_of(store_source_map_parts(bare)),
                sum_of(
                    seq![
                        exactly(vstd::layout::size_of::<ExpressionOnlySourceMap<H>>()),
                        sum_of(expr_only_source_map_parts(&*half)),
                    ],
                ),
            ],
        ),
{
    let parts = seq![
        arena_map_weights(&bare.types_map_back),
        hash_map_weights(&bare.types_map),
        arena_map_weights(&bare.lifetime_map_back),
        hash_map_weights(&bare.lifetime_map),
    ];
    let size = vstd::layout::size_of::<ExpressionOnlySourceMap<H>>();
    let owned = sum_of(expr_only_source_map_parts(&*half));
    law_a_box_comes_on_top(parts, size, owned);
    assert(store_source_map_parts(bare) =~= parts.push(exactly(0)));
    assert(store_source_map_parts(full) =~= parts.push(sum_of(seq![exactly(size), owned])));
}

// ------------------------------------------------------------- exact weights
/// The expression half of a store weighs its four arenas and its block scopes by
/// number, and one weight of each of its two maps and of its roots: each once.
#[verifier::spinoff_prover]
pub proof fn law_an_expression_half_weighs_its_arenas_and_maps<H: Hir>(store: &ExpressionOnlyStore<H>, n: nat)
    ensures
        sum_of(expr_only_store_parts(store)).contains(n) <==> exists|
            owners: nat,
            hygiene: nat,
            roots: nat,
        |
            {
                &&& #[trigger] hash_map_weights(&store.binding_owners).contains(owners)
                &&& #[trigger] hash_map_weights(&store.ident_hygiene).contains(hygiene)
                &&& #[trigger] small_vec_weights(&store.expr_roots).contains(roots)
                &&& n == arena_len(&store.exprs) as nat * vstd::layout::size_of::<H::Expr>()
                    + arena_len(&store.pats) as nat * vstd::layout::size_of::<H::Pat>()
                    + arena_len(&store.bindings) as nat * vstd::layout::size_of::<H::Binding>()
                    + arena_len(&store.labels) as nat * vstd::layout::size_of::<H::Label>()
                    + owners
                    + store.block_scopes@.len() * vstd::layout::size_of::<H::Block>()
                    + hygiene
                    + roots
            },
{
    let parts = expr_only_store_parts(store);
    if sum_of(parts).contains(n) {
        let picks = choose|picks: Seq<nat>| #[trigger] picked(parts, picks) && n == sum(picks);
        assert(parts[0].contains(picks[0]));
        assert(parts[1].contains(picks[1]));
        assert(parts[2].contains(picks[2]));
        assert(parts[3].contains(picks[3]));
        assert(parts[4].contains(picks[4]));
        assert(parts[5].contains(picks[5]));
        assert(parts[6].contains(picks[6]));
        assert(parts[7].contains(picks[7]));
        assert(hash_map_weights(&store.binding_owners).contains(picks[4]));
        assert(hash_map_weights(&store.ident_hygiene).contains(picks[6]));
        assert(small_vec_weights(&store.expr_roots).contains(picks[7]));
        assert(picks.len() == 8);
        lemma_sum_step(picks, 0);
        lemma_sum_step(picks, 1);
        lemma_sum_step(picks, 2);
        lemma_sum_step(picks, 3);
        lemma_sum_step(picks, 4);
        lemma_sum_step(picks, 5);
        lemma_sum_step(picks, 6);
        lemma_sum_step(picks, 7);
        assert(n == picks[0] + picks[1] + picks[2] + picks[3]
            + picks[4] + picks[5] + picks[6] + picks[7]);
    }
    if exists|owners: nat, hygiene: nat, roots: nat|
        {
            &&& #[trigger] hash_map_weights(&store.binding_owners).contains(owners)
            &&& #[trigger] hash_map_weights(&store.ident_hygiene).contains(hygiene)
            &&& #[trigger] small_vec_weights(&store.expr_roots).contains(roots)
            &&& n == arena_len(&store.exprs) as nat * vstd::layout::size_of::<H::Expr>()
                + arena_len(&store.pats) as nat * vstd::layout::size_of::<H::Pat>()
                + arena_len(&store.bindings) as nat * vstd::layout::size_of::<H::Binding>()
                + arena_len(&store.labels) as nat * vstd::layout::size_of::<H::Label>()
                + owners
                + store.block_scopes@.len() * vstd::layout::size_of::<H::Block>()
                + hygiene
                + roots
        } {
        let (owners, hygiene, roots) = choose|owners: nat, hygiene: nat, roots: nat|
            {
                &&& #[trigger] hash_map_weights(&store.binding_owners).contains(owners)
                &&& #[trigger] hash_map_weights(&store.ident_hygiene).contains(hygiene)
                &&& #[trigger] small_vec_weights(&store.expr_roots).contains(roots)
                &&& n == arena_len(&store.exprs) as nat * vstd::layout::size_of::<H::Expr>()
                    + arena_len(&store.pats) as nat * vstd::layout::size_of::<H::Pat>()
                    + arena_len(&store.bindings) as nat * vstd::layout::size_of::<H::Binding>()
                    + arena_len(&store.labels) as nat * vstd::layout::size_of::<H::Label>()
                    + owners
                    + store.block_scopes@.len() * vstd::layout::size_of::<H::Block>()
                    + hygiene
                    + roots
            };
        let picks: Seq<nat> = seq![
            arena_len(&store.exprs) as nat * vstd::layout::size_of::<H::Expr>(),
            arena_len(&store.pats) as nat * vstd::layout::size_of::<H::Pat>(),
            arena_len(&store.bindings) as nat * vstd::layout::size_of::<H::Binding>(),
            arena_len(&store.labels) as nat * vstd::layout::size_of::<H::Label>(),
            owners,
            store.block_scopes@.len() * vstd::layout::size_of::<H::Block>(),
            hygiene,
            roots,
        ];
        assert(parts[0].contains(picks[0]));
        assert(parts[1].contains(picks[1]));
        assert(parts[2].contains(picks[2]));
        assert(parts[3].contains(picks[3]));
        assert(parts[4].contains(picks[4]));
        assert(parts[5].contains(picks[5]));
        assert(parts[6].contains(picks[6]));
        assert(parts[7].contains(picks[7]));
        assert forall|i: int| 0 <= i < parts.len() implies #[trigger] parts[i].contains(picks[i]) by {}
        lemma_sum_step(picks, 0);
        lemma_sum_step(picks, 1);
        lemma_sum_step(picks, 2);
        lemma_sum_step(picks, 3);
        lemma_sum_step(picks, 4);
        lemma_sum_step(picks, 5);
        lemma_sum_step(picks, 6);
        lemma_sum_step(picks, 7);
        assert(sum(picks) == n);
        assert(picked(parts, picks));
    }
}

/// A store weighs its types and lifetimes by number, and its expression half with
/// the box that it lies in, where there is one.
pub proof fn law_a_store_weighs_its_arenas_and_its_half<H: Hir>(
    store: &ExpressionStore<H>,
    half: spec_fn(ExpressionOnlyStore<H>) -> Set<nat>,
    n: nat,
)
    requires
        forall|it: ExpressionOnlyStore<H>| #[trigger] half(it) == sum_of(expr_only_store_parts(&it)),
    ensures
        sum_of(store_parts(store)).contains(n) <==> exists|boxed: nat|
            {
                &&& #[trigger] boxed_weights(&store.expr_only, half).contains(boxed)
                &&& n == arena_len(&store.types) as nat * vstd::layout::size_of::<H::TypeRef>()
                    + arena_len(&store.lifetimes) as nat * vstd::layout::size_of::<H::LifetimeRef>()
                    + boxed
            },
{
    assert(half =~= |it: ExpressionOnlyStore<H>| sum_of(expr_only_store_parts(&it)));
    let parts = store_parts(store);
    reveal_with_fuel(sum, 4);
    if sum_of(parts).contains(n) {
        let picks = choose|picks: Seq<nat>| #[trigger] picked(parts, picks) && n == sum(picks);
        assert(parts[0].contains(picks[0]));
        assert(parts[1].contains(picks[1]));
        assert(parts[2].contains(picks[2]));
        assert(boxed_weights(&store.expr_only, half).contains(picks[2]));
        assert(picks.len() == 3);
        assert(n == picks[0] + picks[1] + picks[2]);
    }
    if exists|boxed: nat|
        {
            &&& #[trigger] boxed_weights(&store.expr_only, half).contains(boxed)
            &&& n == arena_len(&store.types) as nat * vstd::layout::size_of::<H::TypeRef>()
                + arena_len(&store.lifetimes) as nat * vstd::layout::size_of::<H::LifetimeRef>()
                + boxed
        } {
        let boxed = choose|boxed: nat|
            {
                &&& #[trigger] boxed_weights(&store.expr_only, half).contains(boxed)
                &&& n == arena_len(&store.types) as nat * vstd::layout::size_of::<H::TypeRef>()
                    + arena_len(&store.lifetimes) as nat * vstd::layout::size_of::<H::LifetimeRef>()
                    + boxed
            };
        let picks: Seq<nat> = seq![
            arena_len(&store.types) as nat * vstd::layout::size_of::<H::TypeRef>(),
            arena_len(&store.lifetimes) as nat * vstd::layout::size_of::<H::LifetimeRef>(),
            boxed,
        ];
        assert(parts[0].contains(picks[0]));
        assert(parts[1].contains(picks[1]));
        assert(parts[2].contains(picks[2]));
        assert forall|i: int| 0 <= i < parts.len() implies #[trigger] parts[i].contains(picks[i]) by {}
        assert(sum(picks) == n);
        assert(picked(parts, picks));
    }
}

/// A body weighs what its store weighs, the expression half and its box included,
/// and its parameters by number. The counts of the body are exactly the sums of a
/// count of the store and the count of the parameters.
pub proof fn law_a_body_weighs_its_store_and_params<H: Hir>(
    body: &Body<H>,
    n: nat,
    charge: Option<usize>,
)
    ensures
        sum_of(body_parts(body)).contains(n) <==> exists|store: nat| #[trigger]
            sum_of(store_parts(&body.store)).contains(store) && n == store + body.params@.len()
                * vstd::layout::size_of::<Idx<H::Pat>>(),
        measures(charge, sum_of(body_parts(body))) <==> exists|store: Option<usize>| #[trigger]
            measures(store, sum_of(store_parts(&body.store))) && charge == added(
                store,
                charge_of(body.params@.len() * vstd::layout::size_of::<Idx<H::Pat>>()),
            ),
{
    let store = sum_of(store_parts(&body.store));
    let params = body.params@.len() * vstd::layout::size_of::<Idx<H::Pat>>();
    assert(body_parts(body) =~= seq![store, exactly(params)]);
    lemma_known_bytes_come_on_top(store, params, n);
    law_two_counts_add_up(store, exactly(params), charge);
    assert(exactly(params).contains(params));
    assert(reports(charge_of(params), params));
    assert(measures(charge_of(params), exactly(params)));
    assert forall|y: Option<usize>| #[trigger] measures(y, exactly(params)) implies y == charge_of(
        params,
    ) by {
        let bytes = choose|bytes: nat| #[trigger] exactly(params).contains(bytes) && reports(y, bytes);
        assert(bytes == params);
    }
}

/// A body never weighs less than all that is in it: its types, lifetimes and
/// parameters, and where it has expressions, their box, every expression,
/// pattern, binding and label, every block scope, and an entry with its control
/// byte for every binding owner and every identifier with hygiene.
#[verifier::spinoff_prover]
pub proof fn law_a_body_pays_for_its_expressions<H: Hir>(
    body: &Body<H>,
    half: Box<ExpressionOnlyStore<H>>,
    n: nat,
)
    requires
        body.store.expr_only == Some(half),
        sum_of(body_parts(body)).contains(n),
    ensures
        n >= arena_len(&body.store.types) as nat * vstd::layout::size_of::<H::TypeRef>() + arena_len(
            &body.store.lifetimes,
        ) as nat * vstd::layout::size_of::<H::LifetimeRef>() + body.params@.len()
            * vstd::layout::size_of::<Idx<H::Pat>>() + vstd::layout::size_of::<
            ExpressionOnlyStore<H>,
        >() + arena_len(&half.exprs) as nat * vstd::layout::size_of::<H::Expr>() + arena_len(
            &half.pats,
        ) as nat * vstd::layout::size_of::<H::Pat>() + arena_len(&half.bindings) as nat
            * vstd::layout::size_of::<H::Binding>() + arena_len(&half.labels) as nat
            * vstd::layout::size_of::<H::Label>() + half.block_scopes@.len() * vstd::layout::size_of::<
            H::Block,
        >() + half.binding_owners.len() as nat * (vstd::layout::size_of::<
            (Idx<H::Binding>, Idx<H::Expr>),
        >() + 1) + half.ident_hygiene.len() as nat * (vstd::layout::size_of::<
            (H::ExprOrPat, H::Hygiene),
        >() + 1),
{
    let each = |it: ExpressionOnlyStore<H>| sum_of(expr_only_store_parts(&it));
    law_a_body_weighs_its_store_and_params(body, n, None);
    let whole = sum_of(store_parts(&body.store));
    let store = choose|store: nat| #[trigger]
        whole.contains(store) && n == store + body.params@.len() * vstd::layout::size_of::<
            Idx<H::Pat>,
        >();
    law_a_store_weighs_its_arenas_and_its_half(&body.store, each, store);
    let boxes = boxed_weights(&body.store.expr_only, each);
    let boxed = choose|boxed: nat| #[trigger]
        boxes.contains(boxed) && store == arena_len(&body.store.types) as nat
            * vstd::layout::size_of::<H::TypeRef>() + arena_len(&body.store.lifetimes) as nat
            * vstd::layout::size_of::<H::LifetimeRef>() + boxed;
    law_a_box_weighs_its_value_and_what_it_owns(&body.store.expr_only, each, boxed);
    let inside = each(*half);
    let owned = choose|owned: nat| #[trigger]
        inside.contains(owned) && boxed == vstd::layout::size_of::<ExpressionOnlyStore<H>>() + owned;
    assert(inside == sum_of(expr_only_store_parts(&*half)));
    law_an_expression_half_weighs_its_arenas_and_maps(&*half, owned);
    let parts = expr_only_store_parts(&*half);
    let picks = choose|picks: Seq<nat>| #[trigger] picked(parts, picks) && owned == sum(picks);
    assert(parts[0].contains(picks[0]) && parts[1].contains(picks[1]) && parts[2].contains(picks[2])
        && parts[3].contains(picks[3]) && parts[4].contains(picks[4]) && parts[5].contains(picks[5])
        && parts[6].contains(picks[6]));
    law_a_hash_map_weighs_what_it_holds(&half.binding_owners, picks[4]);
    law_a_hash_map_weighs_what_it_holds(&half.ident_hygiene, picks[6]);
    lemma_sum_step(picks, 0);
    lemma_sum_step(picks, 1);
    lemma_sum_step(picks, 2);
    lemma_sum_step(picks, 3);
    lemma_sum_step(picks, 4);
    lemma_sum_step(picks, 5);
    lemma_sum_step(picks, 6);
    lemma_sum_step(picks, 7);
    assert(owned == picks[0] + picks[1] + picks[2] + picks[3] + picks[4] + picks[5] + picks[6]
        + picks[7]);
}

/// A vector of vectors weighs itself and each vector in it, each once.
pub proof fn law_a_nested_vector_weighs_every_vector<T>(
    items: &Vec<Vec<T>>,
    each: spec_fn(Vec<T>) -> Set<nat>,
    n: nat,
)
    requires
        forall|it: Vec<T>| #[trigger] each(it) == vec_weights(&it),
    ensures
        sum_of(nested_vec_parts(items)).contains(n) <==> exists|outer: nat, inner: nat|
            {
                &&& #[trigger] vec_weights(items).contains(outer)
                &&& #[trigger] sum_of(items@.map_values(each)).contains(inner)
                &&& n == outer
                    + inner
            },
{
    assert(items@.map_values(each) =~= items@.map_values(|it: Vec<T>| vec_weights(&it)));
    let parts = nested_vec_parts(items);
    reveal_with_fuel(sum, 3);
    if sum_of(parts).contains(n) {
        let picks = choose|picks: Seq<nat>| #[trigger] picked(parts, picks) && n == sum(picks);
        assert(parts[0].contains(picks[0]));
        assert(parts[1].contains(picks[1]));
        assert(vec_weights(items).contains(picks[0]));
        assert(sum_of(items@.map_values(each)).contains(picks[1]));
        assert(picks.len() == 2);
        assert(n == picks[0] + picks[1]);
    }
    if exists|outer: nat, inner: nat|
        {
            &&& #[trigger] vec_weights(items).contains(outer)
            &&& #[trigger] sum_of(items@.map_values(each)).contains(inner)
            &&& n == outer
                + inner
        } {
        let (outer, inner) = choose|outer: nat, inner: nat|
            {
                &&& #[trigger] vec_weights(items).contains(outer)
                &&& #[trigger] sum_of(items@.map_values(each)).contains(inner)
                &&& n == outer
                    + inner
            };
        let picks: Seq<nat> = seq![outer, inner];
        assert(parts[0].contains(picks[0]));
        assert(parts[1].contains(picks[1]));
        assert forall|i: int| 0 <= i < parts.len() implies #[trigger] parts[i].contains(picks[i]) by {}
        assert(sum(picks) == n);
        assert(picked(parts, picks));
    }
}

/// A format template weighs its three maps, with the captures that the values of
/// the first list and the vectors of vectors that the values of the second are.
pub proof fn law_a_format_template_weighs_its_three_maps<H: Hir>(
    template: &FormatTemplate<H>,
    captures: spec_fn((H::Hygiene, Vec<(TextRange, H::Name)>)) -> Set<nat>,
    operands: spec_fn(Vec<Vec<(TextRange, usize)>>) -> Set<nat>,
    n: nat,
)
    requires
        forall|it: (H::Hygiene, Vec<(TextRange, H::Name)>)| #[trigger]
            captures(it) == vec_weights(&it.1),
        forall|it: Vec<Vec<(TextRange, usize)>>| #[trigger]
            operands(it) == sum_of(nested_vec_parts(&it)),
    ensures
        sum_of(format_template_parts(template)).contains(n) <==> exists|
            formats: nat,
            assemblies: nat,
            implicit: nat,
        |
            {
                &&& #[trigger] hash_map_with_weights(&template.format_args_to_captures, captures).contains(formats)
                &&& #[trigger] hash_map_with_weights(&template.asm_to_captures, operands).contains(assemblies)
                &&& #[trigger] hash_map_weights(&template.implicit_capture_to_source).contains(implicit)
                &&& n == formats
                    + assemblies
                    + implicit
            },
{
    assert(captures =~= |it: (H::Hygiene, Vec<(TextRange, H::Name)>)| vec_weights(&it.1));
    assert(operands =~= |it: Vec<Vec<(TextRange, usize)>>| sum_of(nested_vec_parts(&it)));
    let parts = format_template_parts(template);
    reveal_with_fuel(sum, 4);
    if sum_of(parts).contains(n) {
        let picks = choose|picks: Seq<nat>| #[trigger] picked(parts, picks) && n == sum(picks);
        assert(parts[0].contains(picks[0]));
        assert(parts[1].contains(picks[1]));
        assert(parts[2].contains(picks[2]));
        assert(hash_map_with_weights(&template.format_args_to_captures, captures).contains(picks[0]));
        assert(hash_map_with_weights(&template.asm_to_captures, operands).contains(picks[1]));
        assert(hash_map_weights(&template.implicit_capture_to_source).contains(picks[2]));
        assert(picks.len() == 3);
        assert(n == picks[0] + picks[1] + picks[2]);
    }
    if exists|formats: nat, assemblies: nat, implicit: nat|
        {
            &&& #[trigger] hash_map_with_weights(&template.format_args_to_captures, captures).contains(formats)
            &&& #[trigger] hash_map_with_weights(&template.asm_to_captures, operands).contains(assemblies)
            &&& #[trigger] hash_map_weights(&template.implicit_capture_to_source).contains(implicit)
            &&& n == formats
                + assemblies
                + implicit
        } {
        let (formats, assemblies, implicit) = choose|formats: nat, assemblies: nat, implicit: nat|
            {
                &&& #[trigger] hash_map_with_weights(&template.format_args_to_captures, captures).contains(formats)
                &&& #[trigger] hash_map_with_weights(&template.asm_to_captures, operands).contains(assemblies)
                &&& #[trigger] hash_map_weights(&template.implicit_capture_to_source).contains(implicit)
                &&& n == formats
                    + assemblies
                    + implicit
            };
        let picks: Seq<nat> = seq![formats, assemblies, implicit];
        assert(parts[0].contains(picks[0]));
        assert(parts[1].contains(picks[1]));
        assert(parts[2].contains(picks[2]));
        assert forall|i: int| 0 <= i < parts.len() implies #[trigger] parts[i].contains(picks[i]) by {}
        assert(sum(picks) == n);
        assert(picked(parts, picks));
    }
}

/// The expression half of a source map weighs its three maps back by number, and
/// one weight of each of its other nine fields, each once.
#[verifier::spinoff_prover]
pub proof fn law_an_expression_source_half_weighs_its_twelve_fields<H: Hir>(
    map: &ExpressionOnlySourceMap<H>,
    definitions: spec_fn(InlineVec<Idx<H::Pat>, 4>) -> Set<nat>,
    template: spec_fn(FormatTemplate<H>) -> Set<nat>,
    n: nat,
)
    requires
        forall|it: InlineVec<Idx<H::Pat>, 4>| #[trigger] definitions(it) == small_vec_weights(&it),
        forall|it: FormatTemplate<H>| #[trigger] template(it) == sum_of(format_template_parts(&it)),
    ensures
        sum_of(expr_only_source_map_parts(map)).contains(n) <==> exists|
            exprs: nat,
            pats: nat,
            labels: nat,
            bindings: nat,
            fields: nat,
            pat_fields: nat,
            templates: nat,
            expansions: nat,
            diagnostics: nat,
        |
            {
                &&& #[trigger] hash_map_weights(&map.expr_map).contains(exprs)
                &&& #[trigger] hash_map_weights(&map.pat_map).contains(pats)
                &&& #[trigger] hash_map_weights(&map.label_map).contains(labels)
                &&& #[trigger] arena_map_with_weights(&map.binding_definitions, definitions).contains(bindings)
                &&& #[trigger] hash_map_weights(&map.field_map_back).contains(fields)
                &&& #[trigger] hash_map_weights(&map.pat_field_map_back).contains(pat_fields)
                &&& #[trigger] boxed_weights(&map.template_map, template).contains(templates)
                &&& #[trigger] hash_map_weights(&map.expansions).contains(expansions)
                &&& #[trigger] thin_vec_weights(&map.diagnostics).contains(diagnostics)
                &&& n == exprs
                    + arena_map_contents(&map.expr_map_back).len() * vstd::layout::size_of::<Option<H::ExprSource>>()
                    + pats
                    + arena_map_contents(&map.pat_map_back).len() * vstd::layout::size_of::<Option<H::PatSource>>()
                    + labels
                    + arena_map_contents(&map.label_map_back).len() * vstd::layout::size_of::<Option<H::LabelSource>>()
                    + bindings
                    + fields
                    + pat_fields
                    + templates
                    + expansions
                    + diagnostics
            },
{
    assert(definitions =~= |it: InlineVec<Idx<H::Pat>, 4>| small_vec_weights(&it));
    assert(template =~= |it: FormatTemplate<H>| sum_of(format_template_parts(&it)));
    let parts = expr_only_source_map_parts(map);
    if sum_of(parts).contains(n) {
        let picks = choose|picks: Seq<nat>| #[trigger] picked(parts, picks) && n == sum(picks);
        assert(parts[0].contains(picks[0]));
        assert(parts[1].contains(picks[1]));
        assert(parts[2].contains(picks[2]));
        assert(parts[3].contains(picks[3]));
        assert(parts[4].contains(picks[4]));
        assert(parts[5].contains(picks[5]));
        assert(parts[6].contains(picks[6]));
        assert(parts[7].contains(picks[7]));
        assert(parts[8].contains(picks[8]));
        assert(parts[9].contains(picks[9]));
        assert(parts[10].contains(picks[10]));
        assert(parts[11].contains(picks[11]));
        assert(hash_map_weights(&map.expr_map).contains(picks[0]));
        assert(hash_map_weights(&map.pat_map).contains(picks[2]));
        assert(hash_map_weights(&map.label_map).contains(picks[4]));
        assert(arena_map_with_weights(&map.binding_definitions, definitions).contains(picks[6]));
        assert(hash_map_weights(&map.field_map_back).contains(picks[7]));
        assert(hash_map_weights(&map.pat_field_map_back).contains(picks[8]));
        assert(boxed_weights(&map.template_map, template).contains(picks[9]));
        assert(hash_map_weights(&map.expansions).contains(picks[10]));
        assert(thin_vec_weights(&map.diagnostics).contains(picks[11]));
        assert(picks.len() == 12);
        lemma_sum_step(picks, 0);
        lemma_sum_step(picks, 1);
        lemma_sum_step(picks, 2);
        lemma_sum_step(picks, 3);
        lemma_sum_step(picks, 4);
        lemma_sum_step(picks, 5);
        lemma_sum_step(picks, 6);
        lemma_sum_step(picks, 7);
        lemma_sum_step(picks, 8);
        lemma_sum_step(picks, 9);
        lemma_sum_step(picks, 10);
        lemma_sum_step(picks, 11);
        assert(n == picks[0] + picks[1] + picks[2] + picks[3] + picks[4] + picks[5]
            + picks[6] + picks[7] + picks[8] + picks[9] + picks[10] + picks[11]);
    }
    if exists|
        exprs: nat,
        pats: nat,
        labels: nat,
        bindings: nat,
        fields: nat,
        pat_fields: nat,
        templates: nat,
        expansions: nat,
        diagnostics: nat,
    |
        {
            &&& #[trigger] hash_map_weights(&map.expr_map).contains(exprs)
            &&& #[trigger] hash_map_weights(&map.pat_map).contains(pats)
            &&& #[trigger] hash_map_weights(&map.label_map).contains(labels)
            &&& #[trigger] arena_map_with_weights(&map.binding_definitions, definitions).contains(bindings)
            &&& #[trigger] hash_map_weights(&map.field_map_back).contains(fields)
            &&& #[trigger] hash_map_weights(&map.pat_field_map_back).contains(pat_fields)
            &&& #[trigger] boxed_weights(&map.template_map, template).contains(templates)
            &&& #[trigger] hash_map_weights(&map.expansions).contains(expansions)
            &&& #[trigger] thin_vec_weights(&map.diagnostics).contains(diagnostics)
            &&& n == exprs
                + arena_map_contents(&map.expr_map_back).len() * vstd::layout::size_of::<Option<H::ExprSource>>()
                + pats
                + arena_map_contents(&map.pat_map_back).len() * vstd::layout::size_of::<Option<H::PatSource>>()
                + labels
                + arena_map_contents(&map.label_map_back).len() * vstd::layout::size_of::<Option<H::LabelSource>>()
                + bindings
                + fields
                + pat_fields
                + templates
                + expansions
                + diagnostics
        } {
        let (exprs, pats, labels, bindings, fields, pat_fields, templates, expansions, diagnostics) = choose|
            exprs: nat,
            pats: nat,
            labels: nat,
            bindings: nat,
            fields: nat,
            pat_fields: nat,
            templates: nat,
            expansions: nat,
            diagnostics: nat,
        |
            {
                &&& #[trigger] hash_map_weights(&map.expr_map).contains(exprs)
                &&& #[trigger] hash_map_weights(&map.pat_map).contains(pats)
                &&& #[trigger] hash_map_weights(&map.label_map).contains(labels)
                &&& #[trigger] arena_map_with_weights(&map.binding_definitions, definitions).contains(bindings)
                &&& #[trigger] hash_map_weights(&map.field_map_back).contains(fields)
                &&& #[trigger] hash_map_weights(&map.pat_field_map_back).contains(pat_fields)
                &&& #[trigger] boxed_weights(&map.template_map, template).contains(templates)
                &&& #[trigger] hash_map_weights(&map.expansions).contains(expansions)
                &&& #[trigger] thin_vec_weights(&map.diagnostics).contains(diagnostics)
                &&& n == exprs
                    + arena_map_contents(&map.expr_map_back).len() * vstd::layout::size_of::<Option<H::ExprSource>>()
                    + pats
                    + arena_map_contents(&map.pat_map_back).len() * vstd::layout::size_of::<Option<H::PatSource>>()
                    + labels
                    + arena_map_contents(&map.label_map_back).len() * vstd::layout::size_of::<Option<H::LabelSource>>()
                    + bindings
                    + fields
                    + pat_fields
                    + templates
                    + expansions
                    + diagnostics
            };
        let picks: Seq<nat> = seq![
            exprs,
            arena_map_contents(&map.expr_map_back).len() * vstd::layout::size_of::<Option<H::ExprSource>>(),
            pats,
            arena_map_contents(&map.pat_map_back).len() * vstd::layout::size_of::<Option<H::PatSource>>(),
            labels,
            arena_map_contents(&map.label_map_back).len() * vstd::layout::size_of::<Option<H::LabelSource>>(),
            bindings,
            fields,
            pat_fields,
            templates,
            expansions,
            diagnostics,
        ];
        assert(parts[0].contains(picks[0]));
        assert(parts[1].contains(picks[1]));
        assert(parts[2].contains(picks[2]));
        assert(parts[3].contains(picks[3]));
        assert(parts[4].contains(picks[4]));
        assert(parts[5].contains(picks[5]));
        assert(parts[6].contains(picks[6]));
        assert(parts[7].contains(picks[7]));
        assert(parts[8].contains(picks[8]));
        assert(parts[9].contains(picks[9]));
        assert(parts[10].contains(picks[10]));
        assert(parts[11].contains(picks[11]));
        assert forall|i: int| 0 <= i < parts.len() implies #[trigger] parts[i].contains(picks[i]) by {}
        lemma_sum_step(picks, 0);
        lemma_sum_step(picks, 1);
        lemma_sum_step(picks, 2);
        lemma_sum_step(picks, 3);
        lemma_sum_step(picks, 4);
        lemma_sum_step(picks, 5);
        lemma_sum_step(picks, 6);
        lemma_sum_step(picks, 7);
        lemma_sum_step(picks, 8);
        lemma_sum_step(picks, 9);
        lemma_sum_step(picks, 10);
        lemma_sum_step(picks, 11);
        assert(sum(picks) == n);
        assert(picked(parts, picks));
    }
}

/// A source map weighs its two maps back by number, one weight of each of its two
/// other maps, and its expression half with the box that it lies in, where there
/// is one.
pub proof fn law_a_source_map_weighs_its_maps_and_its_half<H: Hir>(
    map: &ExpressionStoreSourceMap<H>,
    half: spec_fn(ExpressionOnlySourceMap<H>) -> Set<nat>,
    n: nat,
)
    requires
        forall|it: ExpressionOnlySourceMap<H>| #[trigger]
            half(it) == sum_of(expr_only_source_map_parts(&it)),
    ensures
        sum_of(store_source_map_parts(map)).contains(n) <==> exists|
            types: nat,
            lifetimes: nat,
            boxed: nat,
        |
            {
                &&& #[trigger] hash_map_weights(&map.types_map).contains(types)
                &&& #[trigger] hash_map_weights(&map.lifetime_map).contains(lifetimes)
                &&& #[trigger] boxed_weights(&map.expr_only, half).contains(boxed)
                &&& n == arena_map_contents(&map.types_map_back).len() * vstd::layout::size_of::<Option<H::TypeSource>>()
                    + types
                    + arena_map_contents(&map.lifetime_map_back).len() * vstd::layout::size_of::<Option<H::LifetimeSource>>()
                    + lifetimes
                    + boxed
            },
{
    assert(half =~= |it: ExpressionOnlySourceMap<H>| sum_of(expr_only_source_map_parts(&it)));
    let parts = store_source_map_parts(map);
    reveal_with_fuel(sum, 6);
    if sum_of(parts).contains(n) {
        let picks = choose|picks: Seq<nat>| #[trigger] picked(parts, picks) && n == sum(picks);
        assert(parts[0].contains(picks[0]));
        assert(parts[1].contains(picks[1]));
        assert(parts[2].contains(picks[2]));
        assert(parts[3].contains(picks[3]));
        assert(parts[4].contains(picks[4]));
        assert(hash_map_weights(&map.types_map).contains(picks[1]));
        assert(hash_map_weights(&map.lifetime_map).contains(picks[3]));
        assert(boxed_weights(&map.expr_only, half).contains(picks[4]));
        assert(picks.len() == 5);
        assert(n == picks[0] + picks[1] + picks[2] + picks[3] + picks[4]);
    }
    if exists|types: nat, lifetimes: nat, boxed: nat|
        {
            &&& #[trigger] hash_map_weights(&map.types_map).contains(types)
            &&& #[trigger] hash_map_weights(&map.lifetime_map).contains(lifetimes)
            &&& #[trigger] boxed_weights(&map.expr_only, half).contains(boxed)
            &&& n == arena_map_contents(&map.types_map_back).len() * vstd::layout::size_of::<Option<H::TypeSource>>()
                + types
                + arena_map_contents(&map.lifetime_map_back).len() * vstd::layout::size_of::<Option<H::LifetimeSource>>()
                + lifetimes
                + boxed
        } {
        let (types, lifetimes, boxed) = choose|types: nat, lifetimes: nat, boxed: nat|
            {
                &&& #[trigger] hash_map_weights(&map.types_map).contains(types)
                &&& #[trigger] hash_map_weights(&map.lifetime_map).contains(lifetimes)
                &&& #[trigger] boxed_weights(&map.expr_only, half).contains(boxed)
                &&& n == arena_map_contents(&map.types_map_back).len() * vstd::layout::size_of::<Option<H::TypeSource>>()
                    + types
                    + arena_map_contents(&map.lifetime_map_back).len() * vstd::layout::size_of::<Option<H::LifetimeSource>>()
                    + lifetimes
                    + boxed
            };
        let picks: Seq<nat> = seq![
            arena_map_contents(&map.types_map_back).len() * vstd::layout::size_of::<Option<H::TypeSource>>(),
            types,
            arena_map_contents(&map.lifetime_map_back).len() * vstd::layout::size_of::<Option<H::LifetimeSource>>(),
            lifetimes,
            boxed,
        ];
        assert(parts[0].contains(picks[0]));
        assert(parts[1].contains(picks[1]));
        assert(parts[2].contains(picks[2]));
        assert(parts[3].contains(picks[3]));
        assert(parts[4].contains(picks[4]));
        assert forall|i: int| 0 <= i < parts.len() implies #[trigger] parts[i].contains(picks[i]) by {}
        assert(sum(picks) == n);
        assert(picked(parts, picks));
    }
}

} // verus!
