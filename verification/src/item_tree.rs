//! Weighing the tree of items that a file or a block declares.

use vstd::prelude::*;

use crate::containers;
use crate::containers::{
    boxed, boxed_weights, law_a_box_and_its_value_add_up, law_a_vec_weighs_what_it_holds, vec_weights,
    weighs_each,
};
use crate::weight::{
    added, charge_of, exactly, lemma_sum_step, lemma_total_measures, measures, picked, sum, sum_of, total,
};

verus! {

/// The element types of an item tree.
pub trait Items {
    type ModItem;

    type Attrs;

    type Visibility;

    type BigItem;

    type SmallItem;
}

/// The items of a file or a block: five vectors and nothing else.
#[verifier::reject_recursive_types(I)]
pub struct ItemTree<I: Items> {
    pub top_level: Vec<I::ModItem>,
    pub attrs: Vec<I::Attrs>,
    pub vis: Vec<I::Visibility>,
    pub big_data: Vec<I::BigItem>,
    pub small_data: Vec<I::SmallItem>,
}

/// What the parts of an item tree may weigh.
pub open spec fn item_tree_parts<I: Items>(tree: &ItemTree<I>) -> Seq<Set<nat>> {
    seq![
        vec_weights(&tree.top_level),
        vec_weights(&tree.attrs),
        vec_weights(&tree.vis),
        vec_weights(&tree.big_data),
        vec_weights(&tree.small_data),
    ]
}

impl<I: Items> ItemTree<I> {
    /// The heap of the five vectors.
    pub fn heap_size(&self) -> (r: Option<usize>)
        ensures
            measures(r, sum_of(item_tree_parts(self))),
    {
        let charges = [
            containers::vec(&self.top_level),
            containers::vec(&self.attrs),
            containers::vec(&self.vis),
            containers::vec(&self.big_data),
            containers::vec(&self.small_data),
        ];
        let r = total(&charges);
        proof {
            lemma_total_measures(charges@, item_tree_parts(self), r);
        }
        r
    }
}

/// The heap of a block's item tree.
pub fn item_tree<I: Items>(tree: &ItemTree<I>) -> (r: Option<usize>)
    ensures
        measures(r, sum_of(item_tree_parts(tree))),
{
    tree.heap_size()
}

/// The heap of a file's item tree, where a file that declares nothing keeps no
/// tree at all.
pub fn file_item_tree<I: Items>(tree: &Option<Box<ItemTree<I>>>) -> (r: Option<usize>)
    ensures
        measures(r, boxed_weights(tree, |it: ItemTree<I>| sum_of(item_tree_parts(&it)))),
{
    assert(weighs_each(item_tree::<I>, |it: ItemTree<I>| sum_of(item_tree_parts(&it))));
    boxed(tree, item_tree::<I>)
}

/// An item tree never weighs less than the items, attributes and visibilities
/// in it, all of them together.
pub proof fn law_an_item_tree_weighs_what_it_holds<I: Items>(tree: &ItemTree<I>, n: nat)
    requires
        sum_of(item_tree_parts(tree)).contains(n),
    ensures
        n >= tree.top_level@.len() * vstd::layout::size_of::<I::ModItem>() + tree.attrs@.len()
            * vstd::layout::size_of::<I::Attrs>() + tree.vis@.len() * vstd::layout::size_of::<
            I::Visibility,
        >() + tree.big_data@.len() * vstd::layout::size_of::<I::BigItem>()
            + tree.small_data@.len() * vstd::layout::size_of::<I::SmallItem>(),
{
    let parts = item_tree_parts(tree);
    let picks = choose|picks: Seq<nat>| #[trigger] picked(parts, picks) && n == sum(picks);
    assert(parts[0].contains(picks[0]) && parts[1].contains(picks[1]) && parts[2].contains(picks[2])
        && parts[3].contains(picks[3]) && parts[4].contains(picks[4]));
    law_a_vec_weighs_what_it_holds(&tree.top_level, picks[0]);
    law_a_vec_weighs_what_it_holds(&tree.attrs, picks[1]);
    law_a_vec_weighs_what_it_holds(&tree.vis, picks[2]);
    law_a_vec_weighs_what_it_holds(&tree.big_data, picks[3]);
    law_a_vec_weighs_what_it_holds(&tree.small_data, picks[4]);
    reveal_with_fuel(sum, 6);
}

/// A file's tree costs its box on top of what a block's tree costs: the counts of
/// a boxed tree are exactly the tree's size and a count of the tree.
pub proof fn law_a_boxed_tree_costs_its_box<I: Items>(tree: Box<ItemTree<I>>, charge: Option<usize>)
    ensures
        measures(
            charge,
            boxed_weights(&Some(tree), |it: ItemTree<I>| sum_of(item_tree_parts(&it))),
        ) <==> exists|owned: Option<usize>| #[trigger]
            measures(owned, sum_of(item_tree_parts(&*tree))) && charge == added(
                charge_of(vstd::layout::size_of::<ItemTree<I>>()),
                owned,
            ),
{
    let each = |it: ItemTree<I>| sum_of(item_tree_parts(&it));
    law_a_box_and_its_value_add_up(&Some(tree), each, charge);
    assert(each(*tree) == sum_of(item_tree_parts(&*tree)));
}

/// A file that declares nothing costs nothing.
pub proof fn law_a_file_without_items_is_free<I: Items>(tree: &Option<Box<ItemTree<I>>>)
    requires
        tree is None,
    ensures
        boxed_weights(tree, |it: ItemTree<I>| sum_of(item_tree_parts(&it))) == exactly(0),
{
}

/// An item tree weighs its five vectors, each once.
#[verifier::spinoff_prover]
pub proof fn law_an_item_tree_weighs_its_five_vectors<I: Items>(tree: &ItemTree<I>, n: nat)
    ensures
        sum_of(item_tree_parts(tree)).contains(n) <==> exists|
            top_level: nat,
            attrs: nat,
            vis: nat,
            big_data: nat,
            small_data: nat,
        |
            {
                &&& #[trigger] vec_weights(&tree.top_level).contains(top_level)
                &&& #[trigger] vec_weights(&tree.attrs).contains(attrs)
                &&& #[trigger] vec_weights(&tree.vis).contains(vis)
                &&& #[trigger] vec_weights(&tree.big_data).contains(big_data)
                &&& #[trigger] vec_weights(&tree.small_data).contains(small_data)
                &&& n == top_level
                    + attrs
                    + vis
                    + big_data
                    + small_data
            },
{
    let parts = item_tree_parts(tree);
    if sum_of(parts).contains(n) {
        let picks = choose|picks: Seq<nat>| #[trigger] picked(parts, picks) && n == sum(picks);
        assert(parts[0].contains(picks[0]));
        assert(parts[1].contains(picks[1]));
        assert(parts[2].contains(picks[2]));
        assert(parts[3].contains(picks[3]));
        assert(parts[4].contains(picks[4]));
        assert(vec_weights(&tree.top_level).contains(picks[0]));
        assert(vec_weights(&tree.attrs).contains(picks[1]));
        assert(vec_weights(&tree.vis).contains(picks[2]));
        assert(vec_weights(&tree.big_data).contains(picks[3]));
        assert(vec_weights(&tree.small_data).contains(picks[4]));
        assert(picks.len() == 5);
        lemma_sum_step(picks, 0);
        lemma_sum_step(picks, 1);
        lemma_sum_step(picks, 2);
        lemma_sum_step(picks, 3);
        lemma_sum_step(picks, 4);
        assert(n == picks[0] + picks[1] + picks[2] + picks[3] + picks[4]);
    }
    if exists|top_level: nat, attrs: nat, vis: nat, big_data: nat, small_data: nat|
        {
            &&& #[trigger] vec_weights(&tree.top_level).contains(top_level)
            &&& #[trigger] vec_weights(&tree.attrs).contains(attrs)
            &&& #[trigger] vec_weights(&tree.vis).contains(vis)
            &&& #[trigger] vec_weights(&tree.big_data).contains(big_data)
            &&& #[trigger] vec_weights(&tree.small_data).contains(small_data)
            &&& n == top_level
                + attrs
                + vis
                + big_data
                + small_data
        } {
        let (top_level, attrs, vis, big_data, small_data) = choose|
            top_level: nat,
            attrs: nat,
            vis: nat,
            big_data: nat,
            small_data: nat,
        |
            {
                &&& #[trigger] vec_weights(&tree.top_level).contains(top_level)
                &&& #[trigger] vec_weights(&tree.attrs).contains(attrs)
                &&& #[trigger] vec_weights(&tree.vis).contains(vis)
                &&& #[trigger] vec_weights(&tree.big_data).contains(big_data)
                &&& #[trigger] vec_weights(&tree.small_data).contains(small_data)
                &&& n == top_level
                    + attrs
                    + vis
                    + big_data
                    + small_data
            };
        let picks: Seq<nat> = seq![top_level, attrs, vis, big_data, small_data];
        assert(parts[0].contains(picks[0]));
        assert(parts[1].contains(picks[1]));
        assert(parts[2].contains(picks[2]));
        assert(parts[3].contains(picks[3]));
        assert(parts[4].contains(picks[4]));
        assert forall|i: int| 0 <= i < parts.len() implies #[trigger] parts[i].contains(picks[i]) by {}
        lemma_sum_step(picks, 0);
        lemma_sum_step(picks, 1);
        lemma_sum_step(picks, 2);
        lemma_sum_step(picks, 3);
        lemma_sum_step(picks, 4);
        assert(sum(picks) == n);
        assert(picked(parts, picks));
    }
}

} // verus!
