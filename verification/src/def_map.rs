//! Weighing the maps that name resolution builds.
//!
//! A crate-wide table is shared with every block def map inside the crate.
//! Exactly one owner is charged for it: the crate's own def map.

use rustc_hash::{FxHashMap, FxHashSet};
use std::mem::size_of;
use thin_vec::ThinVec;
use triomphe::Arc;
use vstd::prelude::*;

use crate::containers;
use crate::containers::{
    hash_map, hash_map_weights, hash_set, hash_set_weights, index_map, index_map_contents,
    index_map_weights, index_map_with, index_map_with_weights, law_a_hash_set_weighs_what_it_holds,
    law_a_thin_vec_weighs_what_it_holds, law_a_vec_weighs_what_it_holds,
    law_an_index_map_weighs_what_it_holds, pointee, shared, shares,
    shares_one_value, thin_vec_len, thin_vec_weights, vec_weights, weighs_each, weights_of, FxIndexMap,
};
use crate::weight::{
    added, exactly, fits_in, law_a_part_weighs_no_more, law_two_counts_add_up,
    law_two_parts_weigh_both, lemma_smaller_numbers_sum_to_less, lemma_sum_step, lemma_total_measures,
    measures, picked, sum, sum_of, total,
};

verus! {

/// The element types of a def map.
pub trait NameResolution {
    type Module;

    type Block;

    type Name;

    type Symbol;

    type Item;

    type Macro;

    type Definition;

    type Impl;

    type ExternCrate;

    type Diagnostic;
}

/// What a module declares and imports.
#[verifier::reject_recursive_types(N)]
pub struct ItemScope<N: NameResolution> {
    pub types: FxIndexMap<N::Name, N::Item>,
    pub values: FxIndexMap<N::Name, N::Item>,
    pub macros: FxIndexMap<N::Name, N::Item>,
    pub unresolved: FxHashSet<N::Name>,
    pub declarations: ThinVec<N::Definition>,
    pub impls: ThinVec<N::Impl>,
}

/// One module.
#[verifier::reject_recursive_types(N)]
pub struct ModuleData<N: NameResolution> {
    pub scope: ItemScope<N>,
}

/// What a crate and all the blocks in it have in common.
#[verifier::reject_recursive_types(N)]
pub struct DefMapCrateData<N: NameResolution> {
    pub registered_tools: Vec<N::Symbol>,
    pub unstable_features: FxHashSet<N::Symbol>,
}

/// The names that a crate, or a block inside it, resolves.
#[verifier::reject_recursive_types(N)]
pub struct DefMap<N: NameResolution> {
    /// The block, unless this is the map of a whole crate.
    pub block: Option<N::Block>,
    pub modules: FxIndexMap<N::Module, ModuleData<N>>,
    pub macro_use_prelude: FxHashMap<N::Name, N::Macro>,
    pub diagnostics: Vec<N::Diagnostic>,
    pub data: Arc<DefMapCrateData<N>>,
}

/// The part of a crate's names that only the crate itself sees.
#[verifier::reject_recursive_types(N)]
pub struct LocalDefMap<N: NameResolution> {
    pub extern_prelude: FxIndexMap<N::Name, N::ExternCrate>,
}

/// What the parts of a module may weigh.
pub open spec fn module_parts<N: NameResolution>(module: &ModuleData<N>) -> Seq<Set<nat>> {
    seq![
        index_map_weights(&module.scope.types),
        index_map_weights(&module.scope.values),
        index_map_weights(&module.scope.macros),
        hash_set_weights(&module.scope.unresolved),
        thin_vec_weights(&module.scope.declarations),
        thin_vec_weights(&module.scope.impls),
    ]
}

/// The heap of a module.
fn module<N: NameResolution>(data: &ModuleData<N>) -> (r: Option<usize>)
    ensures
        measures(r, sum_of(module_parts(data))),
{
    let charges = [
        index_map(&data.scope.types),
        index_map(&data.scope.values),
        index_map(&data.scope.macros),
        hash_set(&data.scope.unresolved),
        containers::thin_vec(&data.scope.declarations),
        containers::thin_vec(&data.scope.impls),
    ];
    let r = total(&charges);
    proof {
        lemma_total_measures(charges@, module_parts(data), r);
    }
    r
}

/// What the parts of the crate-wide data may weigh, the shared value itself
/// among them.
pub open spec fn crate_data_parts<N: NameResolution>(data: &DefMapCrateData<N>) -> Seq<Set<nat>> {
    seq![
        exactly(vstd::layout::size_of::<DefMapCrateData<N>>()),
        vec_weights(&data.registered_tools),
        hash_set_weights(&data.unstable_features),
    ]
}

/// The heap of the crate-wide data.
fn crate_data<N: NameResolution>(data: &DefMapCrateData<N>) -> (r: Option<usize>)
    ensures
        measures(r, sum_of(crate_data_parts(data))),
{
    let charges = [
        Some(size_of::<DefMapCrateData<N>>()),
        containers::vec(&data.registered_tools),
        hash_set(&data.unstable_features),
    ];
    let r = total(&charges);
    proof {
        assert(crate_data_parts(data)[0].contains(vstd::layout::size_of::<DefMapCrateData<N>>()));
        lemma_total_measures(charges@, crate_data_parts(data), r);
    }
    r
}

/// What the shared data adds to a def map: nothing to a block's, everything it
/// owns to a crate's.
pub open spec fn shared_weights<N: NameResolution>(map: &DefMap<N>) -> Set<nat> {
    if map.block is Some {
        exactly(0)
    } else {
        sum_of(crate_data_parts(pointee(&map.data)))
    }
}

/// What the parts of a def map may weigh.
pub open spec fn def_map_parts<N: NameResolution>(map: &DefMap<N>) -> Seq<Set<nat>> {
    seq![
        index_map_with_weights(&map.modules, |it: ModuleData<N>| sum_of(module_parts(&it))),
        hash_map_weights(&map.macro_use_prelude),
        vec_weights(&map.diagnostics),
        shared_weights(map),
    ]
}

impl<N: NameResolution> DefMap<N> {
    /// The heap of the shared data, where this map is its owner.
    fn shared_heap_size(&self) -> (r: Option<usize>)
        ensures
            measures(r, shared_weights(self)),
            self.block is None ==> shares_one_value(&self.data),
    {
        if self.block.is_some() {
            assert(shared_weights(self).contains(0));
            return Some(0);
        }
        let data = shared(&self.data);
        assert(shares(&self.data, data));
        crate_data(data)
    }

    /// The heap of the map; the crate-wide data counts for a crate's map only.
    pub fn heap_size(&self) -> (r: Option<usize>)
        ensures
            measures(r, sum_of(def_map_parts(self))),
            self.block is None ==> shares_one_value(&self.data),
    {
        assert(weighs_each(module::<N>, |it: ModuleData<N>| sum_of(module_parts(&it))));
        let charges = [
            index_map_with(&self.modules, module::<N>),
            hash_map(&self.macro_use_prelude),
            containers::vec(&self.diagnostics),
            self.shared_heap_size(),
        ];
        let r = total(&charges);
        proof {
            lemma_total_measures(charges@, def_map_parts(self), r);
        }
        r
    }
}

impl<N: NameResolution> LocalDefMap<N> {
    /// The heap of the map.
    pub fn heap_size(&self) -> (r: Option<usize>)
        ensures
            measures(r, index_map_weights(&self.extern_prelude)),
    {
        index_map(&self.extern_prelude)
    }
}

/// The heap of a block's def map.
pub fn def_map<N: NameResolution>(map: &DefMap<N>) -> (r: Option<usize>)
    ensures
        measures(r, sum_of(def_map_parts(map))),
        map.block is None ==> shares_one_value(&map.data),
{
    map.heap_size()
}

/// What a crate's def map may weigh together with its local half.
pub open spec fn def_map_pair_parts<N: NameResolution>(
    fields: &(DefMap<N>, LocalDefMap<N>),
) -> Seq<Set<nat>> {
    seq![sum_of(def_map_parts(&fields.0)), index_map_weights(&fields.1.extern_prelude)]
}

/// The heap of a crate's def map, which lives beside its local half.
pub fn def_map_pair<N: NameResolution>(fields: &(DefMap<N>, LocalDefMap<N>)) -> (r: Option<usize>)
    ensures
        measures(r, sum_of(def_map_pair_parts(fields))),
        fields.0.block is None ==> shares_one_value(&fields.0.data),
{
    let charges = [fields.0.heap_size(), fields.1.heap_size()];
    let r = total(&charges);
    proof {
        lemma_total_measures(charges@, def_map_pair_parts(fields), r);
    }
    r
}

// --------------------------------------------------------------------- laws
/// A block def map does not pay for the crate-wide data it borrows: whatever
/// that data is, the block may weigh the same.
pub proof fn law_a_block_does_not_pay_for_crate_data<N: NameResolution>(
    block: DefMap<N>,
    other_data: Arc<DefMapCrateData<N>>,
)
    requires
        block.block is Some,
    ensures
        sum_of(def_map_parts(&DefMap { data: other_data, ..block })) == sum_of(
            def_map_parts(&block),
        ),
{
    assert(def_map_parts(&DefMap { data: other_data, ..block }) =~= def_map_parts(&block));
}

/// A crate's def map pays for the crate-wide data in full: behind each of its
/// weights stands a weight of the data that is no greater, and that is no less
/// than the data's own bytes and the tools and features registered in it.
pub proof fn law_a_crate_pays_for_its_data<N: NameResolution>(map: DefMap<N>, n: nat) -> (paid: nat)
    requires
        map.block is None,
        sum_of(def_map_parts(&map)).contains(n),
    ensures
        sum_of(crate_data_parts(pointee(&map.data))).contains(paid),
        paid <= n,
        paid >= vstd::layout::size_of::<DefMapCrateData<N>>() + pointee(
            &map.data,
        ).registered_tools@.len() * vstd::layout::size_of::<N::Symbol>() + pointee(
            &map.data,
        ).unstable_features.len() as nat * (vstd::layout::size_of::<N::Symbol>() + 1),
{
    let paid = law_a_part_weighs_no_more(def_map_parts(&map), 3, n);
    let data = pointee(&map.data);
    let parts = crate_data_parts(data);
    let picks = choose|picks: Seq<nat>| #[trigger] picked(parts, picks) && paid == sum(picks);
    assert(parts[0].contains(picks[0]) && parts[1].contains(picks[1]) && parts[2].contains(
        picks[2],
    ));
    law_a_vec_weighs_what_it_holds(&data.registered_tools, picks[1]);
    law_a_hash_set_weighs_what_it_holds(&data.unstable_features, picks[2]);
    reveal_with_fuel(sum, 4);
    assert(picks.drop_last().drop_last().drop_last().len() == 0);
    paid
}

/// Both halves of a pair are charged, each once: the counts of the pair are
/// exactly the sums of a count of the def map and a count of its local half.
pub proof fn law_a_pair_pays_for_both_halves<N: NameResolution>(
    fields: &(DefMap<N>, LocalDefMap<N>),
    charge: Option<usize>,
)
    ensures
        measures(charge, sum_of(def_map_pair_parts(fields))) <==> exists|
            map: Option<usize>,
            local: Option<usize>,
        |
            #[trigger] measures(map, sum_of(def_map_parts(&fields.0))) && #[trigger] measures(
                local,
                index_map_weights(&fields.1.extern_prelude),
            ) && charge == added(map, local),
{
    law_two_counts_add_up(
        sum_of(def_map_parts(&fields.0)),
        index_map_weights(&fields.1.extern_prelude),
        charge,
    );
}

/// A def map pays for each of its modules: it never weighs less than an entry
/// for every module, and behind each of its weights stands a weight of each
/// module that is no greater.
pub proof fn law_a_def_map_pays_for_its_modules<N: NameResolution>(map: &DefMap<N>, n: nat)
    requires
        sum_of(def_map_parts(map)).contains(n),
    ensures
        n >= index_map_contents(&map.modules).len() * (vstd::layout::size_of::<usize>()
            + vstd::layout::size_of::<N::Module>() + vstd::layout::size_of::<ModuleData<N>>()),
        forall|i: int|
            0 <= i < index_map_contents(&map.modules).len() ==> fits_in(
                sum_of(module_parts(#[trigger] index_map_contents(&map.modules)[i])),
                n,
            ),
{
    let each = |it: ModuleData<N>| sum_of(module_parts(&it));
    let modules = index_map_contents(&map.modules);
    let part = law_a_part_weighs_no_more(def_map_parts(map), 0, n);
    let halves = seq![index_map_weights(&map.modules), sum_of(weights_of(modules, each))];
    let entries = law_a_part_weighs_no_more(halves, 0, part);
    law_an_index_map_weighs_what_it_holds(&map.modules, entries);
    let owned = law_a_part_weighs_no_more(halves, 1, part);
    assert forall|i: int| 0 <= i < modules.len() implies fits_in(
        sum_of(module_parts(#[trigger] modules[i])),
        n,
    ) by {
        let m = law_a_part_weighs_no_more(weights_of(modules, each), i, owned);
        assert(sum_of(module_parts(modules[i])).contains(m));
    }
}

// ------------------------------------------------------------- exact weights
/// A module weighs the three maps of its scope, its unresolved names, its
/// declarations and its impls, each once.
#[verifier::spinoff_prover]
pub proof fn law_a_module_weighs_all_of_its_scope<N: NameResolution>(module: &ModuleData<N>, n: nat)
    ensures
        sum_of(module_parts(module)).contains(n) <==> exists|
            types: nat,
            values: nat,
            macros: nat,
            unresolved: nat,
            declarations: nat,
            impls: nat,
        |
            {
                &&& #[trigger] index_map_weights(&module.scope.types).contains(types)
                &&& #[trigger] index_map_weights(&module.scope.values).contains(values)
                &&& #[trigger] index_map_weights(&module.scope.macros).contains(macros)
                &&& #[trigger] hash_set_weights(&module.scope.unresolved).contains(unresolved)
                &&& #[trigger] thin_vec_weights(&module.scope.declarations).contains(declarations)
                &&& #[trigger] thin_vec_weights(&module.scope.impls).contains(impls)
                &&& n == types
                    + values
                    + macros
                    + unresolved
                    + declarations
                    + impls
            },
{
    let parts = module_parts(module);
    if sum_of(parts).contains(n) {
        let picks = choose|picks: Seq<nat>| #[trigger] picked(parts, picks) && n == sum(picks);
        assert(parts[0].contains(picks[0]));
        assert(parts[1].contains(picks[1]));
        assert(parts[2].contains(picks[2]));
        assert(parts[3].contains(picks[3]));
        assert(parts[4].contains(picks[4]));
        assert(parts[5].contains(picks[5]));
        assert(index_map_weights(&module.scope.types).contains(picks[0]));
        assert(index_map_weights(&module.scope.values).contains(picks[1]));
        assert(index_map_weights(&module.scope.macros).contains(picks[2]));
        assert(hash_set_weights(&module.scope.unresolved).contains(picks[3]));
        assert(thin_vec_weights(&module.scope.declarations).contains(picks[4]));
        assert(thin_vec_weights(&module.scope.impls).contains(picks[5]));
        assert(picks.len() == 6);
        lemma_sum_step(picks, 0);
        lemma_sum_step(picks, 1);
        lemma_sum_step(picks, 2);
        lemma_sum_step(picks, 3);
        lemma_sum_step(picks, 4);
        lemma_sum_step(picks, 5);
        assert(n == picks[0] + picks[1] + picks[2] + picks[3] + picks[4] + picks[5]);
    }
    if exists|types: nat, values: nat, macros: nat, unresolved: nat, declarations: nat, impls: nat|
        {
            &&& #[trigger] index_map_weights(&module.scope.types).contains(types)
            &&& #[trigger] index_map_weights(&module.scope.values).contains(values)
            &&& #[trigger] index_map_weights(&module.scope.macros).contains(macros)
            &&& #[trigger] hash_set_weights(&module.scope.unresolved).contains(unresolved)
            &&& #[trigger] thin_vec_weights(&module.scope.declarations).contains(declarations)
            &&& #[trigger] thin_vec_weights(&module.scope.impls).contains(impls)
            &&& n == types
                + values
                + macros
                + unresolved
                + declarations
                + impls
        } {
        let (types, values, macros, unresolved, declarations, impls) = choose|
            types: nat,
            values: nat,
            macros: nat,
            unresolved: nat,
            declarations: nat,
            impls: nat,
        |
            {
                &&& #[trigger] index_map_weights(&module.scope.types).contains(types)
                &&& #[trigger] index_map_weights(&module.scope.values).contains(values)
                &&& #[trigger] index_map_weights(&module.scope.macros).contains(macros)
                &&& #[trigger] hash_set_weights(&module.scope.unresolved).contains(unresolved)
                &&& #[trigger] thin_vec_weights(&module.scope.declarations).contains(declarations)
                &&& #[trigger] thin_vec_weights(&module.scope.impls).contains(impls)
                &&& n == types
                    + values
                    + macros
                    + unresolved
                    + declarations
                    + impls
            };
        let picks: Seq<nat> = seq![types, values, macros, unresolved, declarations, impls];
        assert(parts[0].contains(picks[0]));
        assert(parts[1].contains(picks[1]));
        assert(parts[2].contains(picks[2]));
        assert(parts[3].contains(picks[3]));
        assert(parts[4].contains(picks[4]));
        assert(parts[5].contains(picks[5]));
        assert forall|i: int| 0 <= i < parts.len() implies #[trigger] parts[i].contains(picks[i]) by {}
        lemma_sum_step(picks, 0);
        lemma_sum_step(picks, 1);
        lemma_sum_step(picks, 2);
        lemma_sum_step(picks, 3);
        lemma_sum_step(picks, 4);
        lemma_sum_step(picks, 5);
        assert(sum(picks) == n);
        assert(picked(parts, picks));
    }
}

/// Crate-wide data weighs its own bytes, its tools and its features, each once.
pub proof fn law_crate_data_weighs_its_own_bytes_and_what_it_registers<N: NameResolution>(data: &DefMapCrateData<N>, n: nat)
    ensures
        sum_of(crate_data_parts(data)).contains(n) <==> exists|tools: nat, features: nat|
            {
                &&& #[trigger] vec_weights(&data.registered_tools).contains(tools)
                &&& #[trigger] hash_set_weights(&data.unstable_features).contains(features)
                &&& n == vstd::layout::size_of::<DefMapCrateData<N>>()
                    + tools
                    + features
            },
{
    let parts = crate_data_parts(data);
    reveal_with_fuel(sum, 4);
    if sum_of(parts).contains(n) {
        let picks = choose|picks: Seq<nat>| #[trigger] picked(parts, picks) && n == sum(picks);
        assert(parts[0].contains(picks[0]));
        assert(parts[1].contains(picks[1]));
        assert(parts[2].contains(picks[2]));
        assert(vec_weights(&data.registered_tools).contains(picks[1]));
        assert(hash_set_weights(&data.unstable_features).contains(picks[2]));
        assert(picks.len() == 3);
        assert(n == picks[0] + picks[1] + picks[2]);
    }
    if exists|tools: nat, features: nat|
        {
            &&& #[trigger] vec_weights(&data.registered_tools).contains(tools)
            &&& #[trigger] hash_set_weights(&data.unstable_features).contains(features)
            &&& n == vstd::layout::size_of::<DefMapCrateData<N>>()
                + tools
                + features
        } {
        let (tools, features) = choose|tools: nat, features: nat|
            {
                &&& #[trigger] vec_weights(&data.registered_tools).contains(tools)
                &&& #[trigger] hash_set_weights(&data.unstable_features).contains(features)
                &&& n == vstd::layout::size_of::<DefMapCrateData<N>>()
                    + tools
                    + features
            };
        let picks: Seq<nat> = seq![vstd::layout::size_of::<DefMapCrateData<N>>(), tools, features];
        assert(parts[0].contains(picks[0]));
        assert(parts[1].contains(picks[1]));
        assert(parts[2].contains(picks[2]));
        assert forall|i: int| 0 <= i < parts.len() implies #[trigger] parts[i].contains(picks[i]) by {}
        assert(sum(picks) == n);
        assert(picked(parts, picks));
    }
}

/// A def map weighs its modules with all that they own, its prelude, its
/// diagnostics, and the crate-wide data where it is a crate's: each once.
pub proof fn law_a_def_map_weighs_its_modules_and_tables<N: NameResolution>(
    map: &DefMap<N>,
    module: spec_fn(ModuleData<N>) -> Set<nat>,
    n: nat,
)
    requires
        forall|it: ModuleData<N>| #[trigger] module(it) == sum_of(module_parts(&it)),
    ensures
        sum_of(def_map_parts(map)).contains(n) <==> exists|
            modules: nat,
            prelude: nat,
            diagnostics: nat,
            data: nat,
        |
            {
                &&& #[trigger] index_map_with_weights(&map.modules, module).contains(modules)
                &&& #[trigger] hash_map_weights(&map.macro_use_prelude).contains(prelude)
                &&& #[trigger] vec_weights(&map.diagnostics).contains(diagnostics)
                &&& #[trigger] shared_weights(map).contains(data)
                &&& n == modules
                    + prelude
                    + diagnostics
                    + data
            },
{
    assert(module =~= |it: ModuleData<N>| sum_of(module_parts(&it)));
    let parts = def_map_parts(map);
    reveal_with_fuel(sum, 5);
    if sum_of(parts).contains(n) {
        let picks = choose|picks: Seq<nat>| #[trigger] picked(parts, picks) && n == sum(picks);
        assert(parts[0].contains(picks[0]));
        assert(parts[1].contains(picks[1]));
        assert(parts[2].contains(picks[2]));
        assert(parts[3].contains(picks[3]));
        assert(index_map_with_weights(&map.modules, module).contains(picks[0]));
        assert(hash_map_weights(&map.macro_use_prelude).contains(picks[1]));
        assert(vec_weights(&map.diagnostics).contains(picks[2]));
        assert(shared_weights(map).contains(picks[3]));
        assert(picks.len() == 4);
        assert(n == picks[0] + picks[1] + picks[2] + picks[3]);
    }
    if exists|modules: nat, prelude: nat, diagnostics: nat, data: nat|
        {
            &&& #[trigger] index_map_with_weights(&map.modules, module).contains(modules)
            &&& #[trigger] hash_map_weights(&map.macro_use_prelude).contains(prelude)
            &&& #[trigger] vec_weights(&map.diagnostics).contains(diagnostics)
            &&& #[trigger] shared_weights(map).contains(data)
            &&& n == modules
                + prelude
                + diagnostics
                + data
        } {
        let (modules, prelude, diagnostics, data) = choose|
            modules: nat,
            prelude: nat,
            diagnostics: nat,
            data: nat,
        |
            {
                &&& #[trigger] index_map_with_weights(&map.modules, module).contains(modules)
                &&& #[trigger] hash_map_weights(&map.macro_use_prelude).contains(prelude)
                &&& #[trigger] vec_weights(&map.diagnostics).contains(diagnostics)
                &&& #[trigger] shared_weights(map).contains(data)
                &&& n == modules
                    + prelude
                    + diagnostics
                    + data
            };
        let picks: Seq<nat> = seq![modules, prelude, diagnostics, data];
        assert(parts[0].contains(picks[0]));
        assert(parts[1].contains(picks[1]));
        assert(parts[2].contains(picks[2]));
        assert(parts[3].contains(picks[3]));
        assert forall|i: int| 0 <= i < parts.len() implies #[trigger] parts[i].contains(picks[i]) by {}
        assert(sum(picks) == n);
        assert(picked(parts, picks));
    }
}

/// A block's share of the crate-wide data is nothing, and a crate's is all of it.
pub proof fn law_crate_data_has_one_owner<N: NameResolution>(map: &DefMap<N>, n: nat)
    ensures
        map.block is Some ==> (shared_weights(map).contains(n) <==> n == 0),
        map.block is None ==> (shared_weights(map).contains(n) <==> sum_of(
            crate_data_parts(pointee(&map.data)),
        ).contains(n)),
{
}

/// A module never weighs less than all that its scope holds: an entry with its
/// hash for every name of a type, a value or a macro, every unresolved name with
/// its control byte, and every declaration and impl.
pub proof fn law_a_module_pays_for_all_of_its_scope<N: NameResolution>(
    module: &ModuleData<N>,
    n: nat,
)
    requires
        sum_of(module_parts(module)).contains(n),
    ensures
        n >= (index_map_contents(&module.scope.types).len() + index_map_contents(
            &module.scope.values,
        ).len() + index_map_contents(&module.scope.macros).len()) * (vstd::layout::size_of::<usize>()
            + vstd::layout::size_of::<N::Name>() + vstd::layout::size_of::<N::Item>())
            + module.scope.unresolved.len() as nat * (vstd::layout::size_of::<N::Name>() + 1)
            + thin_vec_len(&module.scope.declarations) as nat * vstd::layout::size_of::<
            N::Definition,
        >() + thin_vec_len(&module.scope.impls) as nat * vstd::layout::size_of::<N::Impl>(),
{
    let scope = module.scope;
    law_a_module_weighs_all_of_its_scope(module, n);
    let (types, values, macros, unresolved, declarations, impls) = choose|
        types: nat,
        values: nat,
        macros: nat,
        unresolved: nat,
        declarations: nat,
        impls: nat,
    |
        {
            &&& #[trigger] index_map_weights(&module.scope.types).contains(types)
            &&& #[trigger] index_map_weights(&module.scope.values).contains(values)
            &&& #[trigger] index_map_weights(&module.scope.macros).contains(macros)
            &&& #[trigger] hash_set_weights(&module.scope.unresolved).contains(unresolved)
            &&& #[trigger] thin_vec_weights(&module.scope.declarations).contains(declarations)
            &&& #[trigger] thin_vec_weights(&module.scope.impls).contains(impls)
            &&& n == types + values + macros + unresolved + declarations + impls
        };
    law_an_index_map_weighs_what_it_holds(&module.scope.types, types);
    law_an_index_map_weighs_what_it_holds(&module.scope.values, values);
    law_an_index_map_weighs_what_it_holds(&module.scope.macros, macros);
    law_a_hash_set_weighs_what_it_holds(&module.scope.unresolved, unresolved);
    law_a_thin_vec_weighs_what_it_holds(
        &module.scope.declarations,
        thin_vec_len(&module.scope.declarations),
        declarations,
    );
    law_a_thin_vec_weighs_what_it_holds(
        &module.scope.impls,
        thin_vec_len(&module.scope.impls),
        impls,
    );
    let (a, b, c) = (
        index_map_contents(&module.scope.types).len(),
        index_map_contents(&module.scope.values).len(),
        index_map_contents(&module.scope.macros).len(),
    );
    let entry = vstd::layout::size_of::<usize>() + vstd::layout::size_of::<N::Name>()
        + vstd::layout::size_of::<N::Item>();
    assert((a + b + c) * entry == a * entry + b * entry + c * entry) by (nonlinear_arith);
}

/// A def map never weighs less than an entry for each of its modules and all that
/// the scopes of all its modules hold, taken together.
pub proof fn law_a_def_map_pays_for_all_of_its_scopes<N: NameResolution>(map: &DefMap<N>, n: nat)
    requires
        sum_of(def_map_parts(map)).contains(n),
    ensures
        n >= index_map_contents(&map.modules).len() * (vstd::layout::size_of::<usize>()
            + vstd::layout::size_of::<N::Module>() + vstd::layout::size_of::<ModuleData<N>>()) + sum(
            index_map_contents(&map.modules).map_values(
                |module: &ModuleData<N>|
                    (index_map_contents(&module.scope.types).len() + index_map_contents(
                        &module.scope.values,
                    ).len() + index_map_contents(&module.scope.macros).len()) * (
                    vstd::layout::size_of::<usize>() + vstd::layout::size_of::<N::Name>()
                        + vstd::layout::size_of::<N::Item>()) + module.scope.unresolved.len() as nat * (
                    vstd::layout::size_of::<N::Name>() + 1) + thin_vec_len(&module.scope.declarations) as nat
                        * vstd::layout::size_of::<N::Definition>() + thin_vec_len(
                        &module.scope.impls,
                    ) as nat * vstd::layout::size_of::<N::Impl>(),
            ),
        ),
{
    let each = |it: ModuleData<N>| sum_of(module_parts(&it));
    let contents = index_map_contents(&map.modules);
    let part = law_a_part_weighs_no_more(def_map_parts(map), 0, n);
    let halves = seq![index_map_weights(&map.modules), sum_of(weights_of(contents, each))];
    law_two_parts_weigh_both(
        index_map_weights(&map.modules),
        sum_of(weights_of(contents, each)),
        part,
    );
    let owns = sum_of(weights_of(contents, each));
    let (entries, owned) = choose|entries: nat, owned: nat| #[trigger]
        index_map_weights(&map.modules).contains(entries) && #[trigger] owns.contains(owned)
            && part == entries + owned;
    law_an_index_map_weighs_what_it_holds(&map.modules, entries);
    let picks = choose|picks: Seq<nat>| #[trigger]
        picked(weights_of(contents, each), picks) && owned == sum(picks);
    let floors = contents.map_values(
        |module: &ModuleData<N>|
            (index_map_contents(&module.scope.types).len() + index_map_contents(
                &module.scope.values,
            ).len() + index_map_contents(&module.scope.macros).len()) * (vstd::layout::size_of::<
                usize,
            >() + vstd::layout::size_of::<N::Name>() + vstd::layout::size_of::<N::Item>())
                + module.scope.unresolved.len() as nat * (vstd::layout::size_of::<N::Name>() + 1)
                + thin_vec_len(&module.scope.declarations) as nat * vstd::layout::size_of::<
                N::Definition,
            >() + thin_vec_len(&module.scope.impls) as nat * vstd::layout::size_of::<N::Impl>(),
    );
    assert forall|i: int| 0 <= i < floors.len() implies #[trigger] floors[i] <= picks[i] by {
        assert(weights_of(contents, each)[i].contains(picks[i]));
        law_a_module_pays_for_all_of_its_scope(contents[i], picks[i]);
    }
    lemma_smaller_numbers_sum_to_less(floors, picks);
}

} // verus!
