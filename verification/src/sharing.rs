//! What sharing does to the weight of a green tree.

use rowan::{GreenNodeData, GreenTokenData};
use vstd::prelude::*;
use vstd::utf8::encode_utf8;

use crate::green::{
    allocation_bytes, allocations_bytes, child_slot_bytes, green_bytes, lemma_closed_covers,
    lemma_subtrees_finite,
    lemma_subtrees_in_finite, lemma_subtrees_nest, lemma_subtrees_nest_in, lemma_subtrees_of_one,
    lemma_sum_over_empty, lemma_sum_over_insert, subtrees, subtrees_in, sum_over, GreenTree,
};

verus! {

/// What a walk adds up that charges `f` for every tree each time it meets it.
pub open spec fn unshared(tree: GreenTree, f: spec_fn(GreenTree) -> nat) -> nat
    decreases tree,
{
    match tree {
        GreenTree::Node { children, .. } => f(tree) + unshared_in(children, f),
        GreenTree::Token { .. } => f(tree),
    }
}

/// [`unshared`] over a sequence of trees.
pub open spec fn unshared_in(trees: Seq<GreenTree>, f: spec_fn(GreenTree) -> nat) -> nat
    decreases trees,
{
    if trees.len() == 0 {
        0
    } else {
        unshared_in(trees.drop_last(), f) + unshared(trees.last(), f)
    }
}

/// What a node is charged for its child slots.
pub open spec fn slot_bytes(tree: GreenTree) -> nat {
    match tree {
        GreenTree::Node { children, .. } => children.len() * child_slot_bytes(),
        GreenTree::Token { .. } => 0,
    }
}

/// What a token is charged for its text.
pub open spec fn text_bytes(tree: GreenTree) -> nat {
    match tree {
        GreenTree::Node { .. } => 0,
        GreenTree::Token { text, .. } => encode_utf8(text).len(),
    }
}

/// The sum of `f` along a sequence of trees, each as often as it occurs.
pub open spec fn sum_along(trees: Seq<GreenTree>, f: spec_fn(GreenTree) -> nat) -> nat
    decreases trees.len(),
{
    if trees.len() == 0 {
        0
    } else {
        sum_along(trees.drop_last(), f) + f(trees.last())
    }
}

/// The sum of `f` along the children of a node, each as often as it occurs.
pub open spec fn along_children(tree: GreenTree, f: spec_fn(GreenTree) -> nat) -> nat {
    match tree {
        GreenTree::Node { children, .. } => sum_along(children, f),
        GreenTree::Token { .. } => 0,
    }
}

/// The text of the tokens directly below a node, each as often as it occurs.
pub open spec fn child_text_bytes(tree: GreenTree) -> nat {
    along_children(tree, |t: GreenTree| text_bytes(t))
}

/// What the walk would come to if it charged every allocation once per parent.
pub open spec fn naive_bytes(tree: GreenTree) -> nat {
    unshared(tree, |t: GreenTree| allocation_bytes(t))
}

/// What the walk would come to if it charged every node once per parent, and
/// every token once.
pub open spec fn nodes_per_parent_bytes(tree: GreenTree) -> nat {
    unshared(tree, |t: GreenTree| slot_bytes(t)) + sum_over(
        subtrees(tree),
        |t: GreenTree| text_bytes(t),
    )
}

/// What the walk would come to if it charged every node once, and every token
/// once for each slot of those nodes that it hangs in.
pub open spec fn tokens_per_parent_bytes(tree: GreenTree) -> nat {
    sum_over(subtrees(tree), |t: GreenTree| slot_bytes(t) + child_text_bytes(t))
}

proof fn lemma_sum_over_subset<A>(some: Set<A>, all: Set<A>, f: spec_fn(A) -> nat)
    requires
        all.finite(),
        some.subset_of(all),
    ensures
        some.finite(),
        sum_over(some, f) <= sum_over(all, f),
    decreases all.len(),
{
    if all.is_empty() {
        assert(some =~= all);
    } else {
        let a = all.choose();
        let fewer = all.remove(a);
        assert(fewer.insert(a) =~= all);
        lemma_sum_over_insert(fewer, f, a);
        if some.contains(a) {
            lemma_sum_over_subset(some.remove(a), fewer, f);
            lemma_sum_over_insert(some.remove(a), f, a);
            assert(some.remove(a).insert(a) =~= some);
        } else {
            lemma_sum_over_subset(some, fewer, f);
        }
    }
}

proof fn lemma_sum_over_union<A>(a: Set<A>, b: Set<A>, f: spec_fn(A) -> nat)
    requires
        a.finite(),
        b.finite(),
    ensures
        sum_over(a.union(b), f) <= sum_over(a, f) + sum_over(b, f),
        a.disjoint(b) ==> sum_over(a.union(b), f) == sum_over(a, f) + sum_over(b, f),
    decreases b.len(),
{
    if b.is_empty() {
        lemma_sum_over_empty(f);
        assert(b =~= Set::empty());
        assert(a.union(b) =~= a);
    } else {
        let x = b.choose();
        let fewer = b.remove(x);
        lemma_sum_over_union(a, fewer, f);
        lemma_sum_over_insert(fewer, f, x);
        assert(fewer.insert(x) =~= b);
        if a.union(fewer).contains(x) {
            assert(a.union(b) =~= a.union(fewer));
        } else {
            assert(a.union(b) =~= a.union(fewer).insert(x));
            lemma_sum_over_insert(a.union(fewer), f, x);
        }
    }
}

proof fn lemma_sum_over_adds<A>(
    set: Set<A>,
    f: spec_fn(A) -> nat,
    g: spec_fn(A) -> nat,
    h: spec_fn(A) -> nat,
)
    requires
        set.finite(),
        forall|a: A| set.contains(a) ==> #[trigger] h(a) == f(a) + g(a),
    ensures
        sum_over(set, h) == sum_over(set, f) + sum_over(set, g),
    decreases set.len(),
{
    if set.is_empty() {
        assert(set =~= Set::empty());
        lemma_sum_over_empty(f);
        lemma_sum_over_empty(g);
        lemma_sum_over_empty(h);
    } else {
        let a = set.choose();
        let fewer = set.remove(a);
        assert(fewer.insert(a) =~= set);
        lemma_sum_over_adds(fewer, f, g, h);
        lemma_sum_over_insert(fewer, f, a);
        lemma_sum_over_insert(fewer, g, a);
        lemma_sum_over_insert(fewer, h, a);
    }
}

/// Charging each tree once comes to at most what charging it each time comes to.
proof fn lemma_once_at_most_unshared(tree: GreenTree, f: spec_fn(GreenTree) -> nat)
    ensures
        sum_over(subtrees(tree), f) <= unshared(tree, f),
    decreases tree,
{
    match tree {
        GreenTree::Node { children, .. } => {
            lemma_once_at_most_unshared_in(children, f);
            lemma_subtrees_in_finite(children);
            if subtrees_in(children).contains(tree) {
                assert(subtrees_in(children).insert(tree) =~= subtrees_in(children));
            } else {
                lemma_sum_over_insert(subtrees_in(children), f, tree);
            }
        },
        GreenTree::Token { .. } => {
            lemma_sum_over_empty(f);
            lemma_sum_over_insert(Set::empty(), f, tree);
        },
    }
}

proof fn lemma_once_at_most_unshared_in(trees: Seq<GreenTree>, f: spec_fn(GreenTree) -> nat)
    ensures
        sum_over(subtrees_in(trees), f) <= unshared_in(trees, f),
    decreases trees,
{
    if trees.len() == 0 {
        lemma_sum_over_empty(f);
    } else {
        lemma_once_at_most_unshared_in(trees.drop_last(), f);
        lemma_once_at_most_unshared(trees.last(), f);
        lemma_subtrees_in_finite(trees.drop_last());
        lemma_subtrees_finite(trees.last());
        lemma_sum_over_union(subtrees_in(trees.drop_last()), subtrees(trees.last()), f);
    }
}

proof fn lemma_green_bytes_split(tree: GreenTree)
    ensures
        green_bytes(tree) == sum_over(subtrees(tree), |t: GreenTree| slot_bytes(t)) + sum_over(
            subtrees(tree),
            |t: GreenTree| text_bytes(t),
        ),
{
    lemma_subtrees_finite(tree);
    lemma_sum_over_adds(
        subtrees(tree),
        |t: GreenTree| slot_bytes(t),
        |t: GreenTree| text_bytes(t),
        |t: GreenTree| allocation_bytes(t),
    );
}

/// A tree never weighs more than it would if every allocation were charged once
/// per parent.
pub proof fn law_sharing_never_adds(tree: GreenTree)
    ensures
        green_bytes(tree) <= naive_bytes(tree),
{
    lemma_once_at_most_unshared(tree, |t: GreenTree| allocation_bytes(t));
}

/// A tree never weighs more than it would if only its nodes were charged once
/// per parent.
pub proof fn law_sharing_nodes_never_adds(tree: GreenTree)
    ensures
        green_bytes(tree) <= nodes_per_parent_bytes(tree),
{
    lemma_green_bytes_split(tree);
    lemma_once_at_most_unshared(tree, |t: GreenTree| slot_bytes(t));
}

/// A tree never weighs less than a tree inside it.
pub proof fn law_a_subtree_weighs_no_more(tree: GreenTree, inner: GreenTree)
    requires
        subtrees(tree).contains(inner),
    ensures
        green_bytes(inner) <= green_bytes(tree),
{
    lemma_subtrees_finite(tree);
    lemma_subtrees_nest(tree, inner);
    lemma_sum_over_subset(
        subtrees(inner),
        subtrees(tree),
        |t: GreenTree| allocation_bytes(t),
    );
}

/// A tree weighs more than a tree strictly inside it, by a slot at least.
pub proof fn law_a_larger_tree_weighs_more(tree: GreenTree, inner: GreenTree)
    requires
        subtrees(tree).contains(inner),
        inner != tree,
    ensures
        green_bytes(inner) + child_slot_bytes() <= green_bytes(tree),
        green_bytes(inner) < green_bytes(tree),
{
    let f = |t: GreenTree| allocation_bytes(t);
    let others = subtrees(tree).remove(tree);
    let slots = tree->children.len();
    lemma_subtrees_finite(tree);
    lemma_subtrees_nest(tree, inner);
    lemma_below_is_smaller_in(tree->children, inner, |t: GreenTree| 1nat);
    if subtrees(inner).contains(tree) {
        lemma_below_is_smaller(inner, tree, |t: GreenTree| 1nat);
    }
    assert(subtrees(inner).subset_of(others));
    lemma_sum_over_subset(subtrees(inner), others, f);
    lemma_sum_over_insert(others, f, tree);
    assert(others.insert(tree) =~= subtrees(tree));
    lemma_slots_weigh();
    assert(slots * child_slot_bytes() >= child_slot_bytes()) by (nonlinear_arith)
        requires
            slots > 0,
    ;
}

proof fn lemma_slots_weigh()
    ensures
        child_slot_bytes() > 0,
{
    assert(usize::BITS == 32 || usize::BITS == 64);
}

/// The weight is a lower bound: whatever the allocations of a tree really take,
/// as long as none takes less than its slots or its text, all of them together
/// take no less than the tree weighs.
pub proof fn law_the_weight_is_a_lower_bound(tree: GreenTree, sizes: spec_fn(GreenTree) -> nat)
    requires
        forall|t: GreenTree| #[trigger]
            subtrees(tree).contains(t) ==> allocation_bytes(t) <= sizes(t),
    ensures
        green_bytes(tree) <= sum_over(subtrees(tree), sizes),
{
    lemma_subtrees_finite(tree);
    lemma_sum_over_at_most(subtrees(tree), |t: GreenTree| allocation_bytes(t), sizes);
}

proof fn lemma_sum_over_at_most<A>(set: Set<A>, f: spec_fn(A) -> nat, g: spec_fn(A) -> nat)
    requires
        set.finite(),
        forall|a: A| #[trigger] set.contains(a) ==> f(a) <= g(a),
    ensures
        sum_over(set, f) <= sum_over(set, g),
    decreases set.len(),
{
    if set.is_empty() {
        assert(set =~= Set::empty());
        lemma_sum_over_empty(f);
        lemma_sum_over_empty(g);
    } else {
        let a = set.choose();
        let fewer = set.remove(a);
        assert(fewer.insert(a) =~= set);
        assert forall|b: A| #[trigger] fewer.contains(b) implies f(b) <= g(b) by {
            assert(set.contains(b));
        }
        lemma_sum_over_at_most(fewer, f, g);
        lemma_sum_over_insert(fewer, f, a);
        lemma_sum_over_insert(fewer, g, a);
    }
}

/// A node weighs at most its slots and what its children weigh, and exactly that
/// where nothing is shared.
pub proof fn law_a_node_weighs_its_slots_and_children(tree: GreenTree)
    requires
        tree is Node,
    ensures
        green_bytes(tree) <= tree->children.len() * child_slot_bytes() + sum_along(
            tree->children,
            |t: GreenTree| green_bytes(t),
        ),
        nothing_shared(tree) ==> green_bytes(tree) == tree->children.len() * child_slot_bytes()
            + sum_along(tree->children, |t: GreenTree| green_bytes(t)),
{
    lemma_subtrees_in_finite(tree->children);
    lemma_not_below_itself(tree);
    lemma_sum_over_insert(
        subtrees_in(tree->children),
        |t: GreenTree| allocation_bytes(t),
        tree,
    );
    lemma_children_weigh(tree->children);
}

proof fn lemma_children_weigh(trees: Seq<GreenTree>)
    ensures
        allocations_bytes(subtrees_in(trees)) <= sum_along(trees, |t: GreenTree| green_bytes(t)),
        nothing_shared_in(trees) ==> allocations_bytes(subtrees_in(trees)) == sum_along(
            trees,
            |t: GreenTree| green_bytes(t),
        ),
    decreases trees.len(),
{
    let f = |t: GreenTree| allocation_bytes(t);
    if trees.len() == 0 {
        lemma_sum_over_empty(f);
    } else {
        lemma_children_weigh(trees.drop_last());
        lemma_subtrees_in_finite(trees.drop_last());
        lemma_subtrees_finite(trees.last());
        lemma_sum_over_union(subtrees_in(trees.drop_last()), subtrees(trees.last()), f);
    }
}

/// A tree is not among the trees below it.
proof fn lemma_not_below_itself(tree: GreenTree)
    requires
        tree is Node,
    ensures
        !subtrees_in(tree->children).contains(tree),
{
    if subtrees_in(tree->children).contains(tree) {
        lemma_below_is_smaller_in(tree->children, tree, |t: GreenTree| 1nat);
    }
}

/// A walk over a tree adds up no less than a walk over a tree inside it.
proof fn lemma_below_is_smaller(tree: GreenTree, inner: GreenTree, f: spec_fn(GreenTree) -> nat)
    requires
        subtrees(tree).contains(inner),
    ensures
        f(inner) <= unshared(inner, f) <= unshared(tree, f),
    decreases tree,
{
    if inner != tree {
        lemma_below_is_smaller_in(tree->children, inner, f);
    }
}

proof fn lemma_below_is_smaller_in(
    trees: Seq<GreenTree>,
    inner: GreenTree,
    f: spec_fn(GreenTree) -> nat,
)
    requires
        subtrees_in(trees).contains(inner),
    ensures
        f(inner) <= unshared(inner, f) <= unshared_in(trees, f),
    decreases trees,
{
    if subtrees(trees.last()).contains(inner) {
        lemma_below_is_smaller(trees.last(), inner, f);
    } else {
        lemma_below_is_smaller_in(trees.drop_last(), inner, f);
    }
}

/// One more child under a node costs its slot and the allocations in it that
/// were not there yet. A child that was there already costs the slot alone.
pub proof fn law_another_child_costs_what_is_new(tree: GreenTree, child: GreenTree)
    requires
        tree is Node,
    ensures
        ({
            let held = subtrees_in(tree->children);
            let grown = GreenTree::Node {
                node: tree->node,
                children: tree->children.push(child),
            };
            &&& green_bytes(grown) == green_bytes(tree) + child_slot_bytes() + allocations_bytes(
                subtrees(child).difference(held),
            )
            &&& held.contains(child) ==> green_bytes(grown) == green_bytes(tree)
                + child_slot_bytes()
        }),
{
    let f = |t: GreenTree| allocation_bytes(t);
    let children = tree->children;
    let held = subtrees_in(children);
    let more = children.push(child);
    let grown = GreenTree::Node { node: tree->node, children: more };
    let fresh = subtrees(child).difference(held);
    assert(more.drop_last() =~= children);
    assert(subtrees_in(more) =~= held.union(subtrees(child)));
    assert(subtrees_in(more) =~= held.union(fresh));
    lemma_subtrees_in_finite(children);
    lemma_subtrees_finite(child);
    lemma_not_below_itself(tree);
    lemma_not_below_itself(grown);
    lemma_sum_over_union(held, fresh, f);
    lemma_sum_over_insert(held, f, tree);
    lemma_sum_over_insert(held.union(fresh), f, grown);
    assert((children.len() + 1) * child_slot_bytes() == children.len() * child_slot_bytes()
        + child_slot_bytes()) by (nonlinear_arith);
    if held.contains(child) {
        lemma_subtrees_nest_in(children, child);
        assert(fresh =~= Set::empty());
        lemma_sum_over_empty(f);
    }
}

/// No allocation hangs under two slots of the tree.
pub open spec fn nothing_shared(tree: GreenTree) -> bool
    decreases tree,
{
    match tree {
        GreenTree::Node { children, .. } => nothing_shared_in(children),
        GreenTree::Token { .. } => true,
    }
}

/// [`nothing_shared`] over a sequence of trees.
pub open spec fn nothing_shared_in(trees: Seq<GreenTree>) -> bool
    decreases trees,
{
    trees.len() == 0 || {
        &&& nothing_shared_in(trees.drop_last())
        &&& nothing_shared(trees.last())
        &&& subtrees_in(trees.drop_last()).disjoint(subtrees(trees.last()))
    }
}

/// A tree that shares nothing weighs what it is charged without any regard to
/// sharing.
pub proof fn law_nothing_shared_nothing_saved(tree: GreenTree)
    requires
        nothing_shared(tree),
    ensures
        green_bytes(tree) == naive_bytes(tree),
{
    lemma_nothing_saved(tree, |t: GreenTree| allocation_bytes(t));
}

proof fn lemma_nothing_saved(tree: GreenTree, f: spec_fn(GreenTree) -> nat)
    requires
        nothing_shared(tree),
    ensures
        sum_over(subtrees(tree), f) == unshared(tree, f),
    decreases tree,
{
    match tree {
        GreenTree::Node { children, .. } => {
            lemma_nothing_saved_in(children, f);
            lemma_subtrees_in_finite(children);
            lemma_not_below_itself(tree);
            lemma_sum_over_insert(subtrees_in(children), f, tree);
        },
        GreenTree::Token { .. } => {
            lemma_sum_over_empty(f);
            lemma_sum_over_insert(Set::empty(), f, tree);
        },
    }
}

proof fn lemma_nothing_saved_in(trees: Seq<GreenTree>, f: spec_fn(GreenTree) -> nat)
    requires
        nothing_shared_in(trees),
    ensures
        sum_over(subtrees_in(trees), f) == unshared_in(trees, f),
    decreases trees,
{
    if trees.len() == 0 {
        lemma_sum_over_empty(f);
    } else {
        lemma_nothing_saved_in(trees.drop_last(), f);
        lemma_nothing_saved(trees.last(), f);
        lemma_subtrees_in_finite(trees.drop_last());
        lemma_subtrees_finite(trees.last());
        lemma_sum_over_union(subtrees_in(trees.drop_last()), subtrees(trees.last()), f);
    }
}

/// The tokens among `trees`.
spec fn tokens_among(trees: Seq<GreenTree>) -> Set<GreenTree> {
    Set::new(|t: GreenTree| t is Token && trees.contains(t))
}

/// The tokens that hang directly under one of `nodes`.
spec fn tokens_under(nodes: Set<GreenTree>) -> Set<GreenTree> {
    Set::new(
        |t: GreenTree|
            exists|node: GreenTree| #[trigger]
                nodes.contains(node) && node is Node && tokens_among(node->children).contains(t),
    )
}

proof fn lemma_tokens_among(trees: Seq<GreenTree>, f: spec_fn(GreenTree) -> nat)
    ensures
        tokens_among(trees).finite(),
        sum_over(tokens_among(trees), f) <= sum_along(trees, f),
    decreases trees.len(),
{
    if trees.len() == 0 {
        lemma_sum_over_empty(f);
        assert(tokens_among(trees) =~= Set::empty());
    } else {
        let fewer = trees.drop_last();
        let last = trees.last();
        lemma_tokens_among(fewer, f);
        assert forall|t: GreenTree| trees.contains(t) <==> t == last || #[trigger] fewer.contains(
            t,
        ) by {
            if fewer.contains(t) {
                let i = choose|i: int| 0 <= i < fewer.len() && fewer[i] == t;
                assert(trees[i] == t);
            }
            if trees.contains(t) && t != last {
                let i = choose|i: int| 0 <= i < trees.len() && trees[i] == t;
                assert(fewer[i] == t);
            }
        }
        if last is Token && !tokens_among(fewer).contains(last) {
            assert(tokens_among(trees) =~= tokens_among(fewer).insert(last));
            lemma_sum_over_insert(tokens_among(fewer), f, last);
        } else {
            assert(tokens_among(trees) =~= tokens_among(fewer));
        }
    }
}

proof fn lemma_tokens_under(nodes: Set<GreenTree>, f: spec_fn(GreenTree) -> nat)
    requires
        nodes.finite(),
    ensures
        tokens_under(nodes).finite(),
        sum_over(tokens_under(nodes), f) <= sum_over(nodes, |t: GreenTree| along_children(t, f)),
    decreases nodes.len(),
{
    let g = |t: GreenTree| along_children(t, f);
    if nodes.is_empty() {
        assert(nodes =~= Set::empty());
        lemma_sum_over_empty(f);
        lemma_sum_over_empty(g);
        assert(tokens_under(nodes) =~= Set::empty());
    } else {
        let node = nodes.choose();
        let fewer = nodes.remove(node);
        assert(fewer.insert(node) =~= nodes);
        lemma_tokens_under(fewer, f);
        lemma_sum_over_insert(fewer, g, node);
        if node is Node {
            lemma_tokens_among(node->children, f);
            assert(tokens_under(nodes) =~= tokens_under(fewer).union(
                tokens_among(node->children),
            ));
            lemma_sum_over_union(tokens_under(fewer), tokens_among(node->children), f);
        } else {
            assert(tokens_under(nodes) =~= tokens_under(fewer));
        }
    }
}

/// Every token below a node hangs directly under some node in the tree.
proof fn lemma_tokens_hang_somewhere(tree: GreenTree, token: GreenTree)
    requires
        tree is Node,
        token is Token,
        subtrees(tree).contains(token),
    ensures
        tokens_under(subtrees(tree)).contains(token),
    decreases tree,
{
    let i = lemma_below_one(tree->children, token);
    let child = tree->children[i];
    if child is Token {
        assert(tree->children.contains(token));
        assert(subtrees(tree).contains(tree));
    } else {
        lemma_tokens_hang_somewhere(child, token);
        let node = choose|node: GreenTree| #[trigger]
            subtrees(child).contains(node) && node is Node && tokens_among(
                node->children,
            ).contains(token);
        lemma_subtrees_of_one(tree->children, i);
        assert(subtrees(tree).contains(node));
    }
}

/// What is below some of `trees` is below one of them.
proof fn lemma_below_one(trees: Seq<GreenTree>, inner: GreenTree) -> (i: int)
    requires
        subtrees_in(trees).contains(inner),
    ensures
        0 <= i < trees.len(),
        subtrees(trees[i]).contains(inner),
    decreases trees.len(),
{
    if subtrees(trees.last()).contains(inner) {
        trees.len() - 1
    } else {
        lemma_below_one(trees.drop_last(), inner)
    }
}

proof fn lemma_sum_over_zero<A>(set: Set<A>, f: spec_fn(A) -> nat)
    requires
        set.finite(),
        forall|a: A| set.contains(a) ==> #[trigger] f(a) == 0,
    ensures
        sum_over(set, f) == 0,
    decreases set.len(),
{
    if set.is_empty() {
        assert(set =~= Set::empty());
        lemma_sum_over_empty(f);
    } else {
        let a = set.choose();
        let fewer = set.remove(a);
        assert(fewer.insert(a) =~= set);
        lemma_sum_over_zero(fewer, f);
        lemma_sum_over_insert(fewer, f, a);
    }
}

/// What the tokens of a tree come to, each once, is at most what they come to as
/// children, each once per slot.
proof fn lemma_tokens_per_slot(tree: GreenTree, f: spec_fn(GreenTree) -> nat)
    requires
        tree is Node,
        forall|t: GreenTree| t is Node ==> #[trigger] f(t) == 0,
    ensures
        sum_over(subtrees(tree), f) <= sum_over(
            subtrees(tree),
            |t: GreenTree| along_children(t, f),
        ),
{
    let all = subtrees(tree);
    let tokens = all.filter(|t: GreenTree| t is Token);
    let nodes = all.filter(|t: GreenTree| t is Node);
    lemma_subtrees_finite(tree);
    assert(all =~= tokens.union(nodes));
    lemma_sum_over_subset(tokens, all, f);
    lemma_sum_over_subset(nodes, all, f);
    lemma_sum_over_union(tokens, nodes, f);
    lemma_sum_over_zero(nodes, f);
    lemma_tokens_under(all, f);
    assert forall|t: GreenTree| tokens.contains(t) implies tokens_under(all).contains(t) by {
        lemma_tokens_hang_somewhere(tree, t);
    }
    lemma_sum_over_subset(tokens, tokens_under(all), f);
}

/// A tree never weighs more than it would if only its tokens were charged once
/// per parent.
pub proof fn law_sharing_tokens_never_adds(tree: GreenTree)
    requires
        tree is Node,
    ensures
        green_bytes(tree) <= tokens_per_parent_bytes(tree),
{
    let slots = |t: GreenTree| slot_bytes(t);
    let text = |t: GreenTree| text_bytes(t);
    let child_text = |t: GreenTree| along_children(t, text);
    let all = subtrees(tree);
    lemma_subtrees_finite(tree);
    lemma_green_bytes_split(tree);
    lemma_sum_over_adds(all, slots, child_text, |t: GreenTree| slot_bytes(t) + child_text_bytes(t));
    lemma_tokens_per_slot(tree, text);
}

// ------------------------------------------------------------ strict savings
/// `inner` hangs in slot `i` of `node`, somewhere in `tree`.
pub open spec fn hangs_in(tree: GreenTree, inner: GreenTree, node: GreenTree, i: int) -> bool {
    &&& subtrees(tree).contains(node)
    &&& node is Node
    &&& 0 <= i < node->children.len()
    &&& node->children[i] == inner
}

/// Where an allocation that weighs something hangs in two slots, charging it
/// once saves: the tree weighs less than it would with every allocation, with
/// the nodes only or with the tokens only charged once per parent, as the shared
/// allocation is a node or a token.
pub proof fn law_sharing_saves(
    tree: GreenTree,
    inner: GreenTree,
    a: GreenTree,
    i: int,
    b: GreenTree,
    j: int,
)
    requires
        hangs_in(tree, inner, a, i),
        hangs_in(tree, inner, b, j),
        a != b || i != j,
        allocation_bytes(inner) > 0,
    ensures
        green_bytes(tree) < naive_bytes(tree),
        inner is Node ==> green_bytes(tree) < nodes_per_parent_bytes(tree),
        inner is Token ==> green_bytes(tree) < tokens_per_parent_bytes(tree),
{
    lemma_charged_twice(tree, inner, a, i, b, j, |t: GreenTree| allocation_bytes(t));
    if inner is Node {
        lemma_charged_twice(tree, inner, a, i, b, j, |t: GreenTree| slot_bytes(t));
        lemma_green_bytes_split(tree);
    } else {
        lemma_text_charged_twice(tree, inner, a, i, b, j);
    }
}

/// Charging a tree that hangs in two slots each time it is met costs at least its
/// charge more than charging it once.
proof fn lemma_charged_twice(
    tree: GreenTree,
    inner: GreenTree,
    a: GreenTree,
    i: int,
    b: GreenTree,
    j: int,
    f: spec_fn(GreenTree) -> nat,
)
    requires
        hangs_in(tree, inner, a, i),
        hangs_in(tree, inner, b, j),
        a != b || i != j,
    ensures
        sum_over(subtrees(tree), f) + f(inner) <= unshared(tree, f),
{
    let own = |t: GreenTree|
        if t == inner {
            f(t)
        } else {
            0nat
        };
    let others = |t: GreenTree|
        if t == inner {
            0nat
        } else {
            f(t)
        };
    lemma_subtrees_finite(tree);
    lemma_unshared_adds(tree, others, own, f);
    lemma_sum_over_adds(subtrees(tree), others, own, f);
    lemma_once_at_most_unshared(tree, others);
    lemma_met_twice(tree, inner, a, i, b, j, own);
    lemma_sum_over_one(subtrees(tree), own, inner);
}

/// The sum over a set of what is nothing but at `a` is at most what it is there.
proof fn lemma_sum_over_one<A>(set: Set<A>, f: spec_fn(A) -> nat, a: A)
    requires
        set.finite(),
        forall|b: A| b != a ==> #[trigger] f(b) == 0,
    ensures
        sum_over(set, f) <= f(a),
        set.contains(a) ==> sum_over(set, f) == f(a),
{
    let others = set.remove(a);
    assert forall|b: A| others.contains(b) implies #[trigger] f(b) == 0 by {}
    lemma_sum_over_zero(others, f);
    if set.contains(a) {
        lemma_sum_over_insert(others, f, a);
        assert(others.insert(a) =~= set);
    } else {
        assert(others =~= set);
    }
}

proof fn lemma_unshared_adds(
    tree: GreenTree,
    f: spec_fn(GreenTree) -> nat,
    g: spec_fn(GreenTree) -> nat,
    h: spec_fn(GreenTree) -> nat,
)
    requires
        forall|t: GreenTree| #[trigger] h(t) == f(t) + g(t),
    ensures
        unshared(tree, h) == unshared(tree, f) + unshared(tree, g),
    decreases tree,
{
    if let GreenTree::Node { children, .. } = tree {
        lemma_unshared_in_adds(children, f, g, h);
    }
    assert(h(tree) == f(tree) + g(tree));
}

proof fn lemma_unshared_in_adds(
    trees: Seq<GreenTree>,
    f: spec_fn(GreenTree) -> nat,
    g: spec_fn(GreenTree) -> nat,
    h: spec_fn(GreenTree) -> nat,
)
    requires
        forall|t: GreenTree| #[trigger] h(t) == f(t) + g(t),
    ensures
        unshared_in(trees, h) == unshared_in(trees, f) + unshared_in(trees, g),
    decreases trees,
{
    if trees.len() > 0 {
        lemma_unshared_in_adds(trees.drop_last(), f, g, h);
        lemma_unshared_adds(trees.last(), f, g, h);
    }
}

/// A walk meets what is below two of `trees` in both of them.
proof fn lemma_two_trees(trees: Seq<GreenTree>, i: int, j: int, f: spec_fn(GreenTree) -> nat)
    requires
        0 <= i < trees.len(),
        0 <= j < trees.len(),
        i != j,
    ensures
        unshared(trees[i], f) + unshared(trees[j], f) <= unshared_in(trees, f),
    decreases trees.len(),
{
    let last = trees.len() - 1;
    if i < last && j < last {
        lemma_two_trees(trees.drop_last(), i, j, f);
    } else {
        lemma_one_tree(
            trees.drop_last(),
            if i == last {
                j
            } else {
                i
            },
            f,
        );
    }
}

proof fn lemma_one_tree(trees: Seq<GreenTree>, i: int, f: spec_fn(GreenTree) -> nat)
    requires
        0 <= i < trees.len(),
    ensures
        unshared(trees[i], f) <= unshared_in(trees, f),
    decreases trees.len(),
{
    if i < trees.len() - 1 {
        lemma_one_tree(trees.drop_last(), i, f);
    }
}

/// The child of `tree` that `inner` hangs in or below, by way of slot `i` of
/// `node`.
proof fn lemma_leads_to(tree: GreenTree, inner: GreenTree, node: GreenTree, i: int) -> (k: int)
    requires
        hangs_in(tree, inner, node, i),
    ensures
        tree is Node,
        0 <= k < tree->children.len(),
        subtrees(tree->children[k]).contains(inner),
        node == tree ==> k == i,
        node != tree ==> hangs_in(tree->children[k], inner, node, i),
{
    lemma_subtrees_finite(inner);
    if node == tree {
        i
    } else {
        let k = lemma_below_one(tree->children, node);
        lemma_subtrees_of_one(node->children, i);
        lemma_subtrees_nest(tree->children[k], node);
        k
    }
}

/// A walk meets a tree that hangs in two slots twice.
proof fn lemma_met_twice(
    tree: GreenTree,
    inner: GreenTree,
    a: GreenTree,
    i: int,
    b: GreenTree,
    j: int,
    f: spec_fn(GreenTree) -> nat,
)
    requires
        hangs_in(tree, inner, a, i),
        hangs_in(tree, inner, b, j),
        a != b || i != j,
    ensures
        f(inner) + f(inner) <= unshared(tree, f),
    decreases tree,
{
    let children = tree->children;
    let k = lemma_leads_to(tree, inner, a, i);
    let l = lemma_leads_to(tree, inner, b, j);
    if k != l {
        lemma_two_trees(children, k, l, f);
        lemma_below_is_smaller(children[k], inner, f);
        lemma_below_is_smaller(children[l], inner, f);
    } else if a == tree {
        lemma_no_way_back(inner, b, j);
    } else if b == tree {
        lemma_no_way_back(inner, a, i);
    } else {
        lemma_met_twice(children[k], inner, a, i, b, j, f);
        lemma_one_tree(children, k, f);
    }
}

/// A tree does not hang below itself.
proof fn lemma_no_way_back(inner: GreenTree, node: GreenTree, i: int)
    ensures
        !hangs_in(inner, inner, node, i),
{
    if hangs_in(inner, inner, node, i) {
        let one = |t: GreenTree| 1nat;
        lemma_below_is_smaller(inner, node, one);
        lemma_one_tree(node->children, i, one);
    }
}

/// Charging the text of a token that hangs in two slots in both of them costs
/// more than charging it once.
proof fn lemma_text_charged_twice(
    tree: GreenTree,
    inner: GreenTree,
    a: GreenTree,
    i: int,
    b: GreenTree,
    j: int,
)
    requires
        hangs_in(tree, inner, a, i),
        hangs_in(tree, inner, b, j),
        a != b || i != j,
        inner is Token,
        text_bytes(inner) > 0,
    ensures
        green_bytes(tree) < tokens_per_parent_bytes(tree),
{
    let slots = |t: GreenTree| slot_bytes(t);
    let text = |t: GreenTree| text_bytes(t);
    let own = |t: GreenTree|
        if t == inner {
            text_bytes(t)
        } else {
            0nat
        };
    let others = |t: GreenTree|
        if t == inner {
            0nat
        } else {
            text_bytes(t)
        };
    let child_text = |t: GreenTree| along_children(t, text);
    let child_own = |t: GreenTree| along_children(t, own);
    let child_others = |t: GreenTree| along_children(t, others);
    let all = subtrees(tree);
    let k = lemma_leads_to(tree, inner, a, i);
    lemma_subtrees_finite(tree);
    lemma_green_bytes_split(tree);
    lemma_sum_over_adds(all, slots, child_text, |t: GreenTree| slot_bytes(t) + child_text_bytes(t));
    lemma_sum_over_adds(all, others, own, text);
    lemma_sum_over_one(all, own, inner);
    assert forall|t: GreenTree| all.contains(t) implies #[trigger] child_text(t) == child_others(t)
        + child_own(t) by {
        if let GreenTree::Node { children, .. } = t {
            lemma_sum_along_adds(children, others, own, text);
        }
    }
    lemma_sum_over_adds(all, child_others, child_own, child_text);
    lemma_tokens_per_slot(tree, others);
    lemma_along(a->children, i, own);
    lemma_along(b->children, j, own);
    if a == b {
        lemma_two_along(a->children, i, j, own);
        lemma_sum_over_two(all, child_own, a, a);
    } else {
        lemma_sum_over_two(all, child_own, a, b);
    }
}

proof fn lemma_sum_along_adds(
    trees: Seq<GreenTree>,
    f: spec_fn(GreenTree) -> nat,
    g: spec_fn(GreenTree) -> nat,
    h: spec_fn(GreenTree) -> nat,
)
    requires
        forall|t: GreenTree| #[trigger] h(t) == f(t) + g(t),
    ensures
        sum_along(trees, h) == sum_along(trees, f) + sum_along(trees, g),
    decreases trees.len(),
{
    if trees.len() > 0 {
        lemma_sum_along_adds(trees.drop_last(), f, g, h);
        assert(h(trees.last()) == f(trees.last()) + g(trees.last()));
    }
}

proof fn lemma_along(trees: Seq<GreenTree>, i: int, f: spec_fn(GreenTree) -> nat)
    requires
        0 <= i < trees.len(),
    ensures
        f(trees[i]) <= sum_along(trees, f),
    decreases trees.len(),
{
    if i < trees.len() - 1 {
        lemma_along(trees.drop_last(), i, f);
    }
}

proof fn lemma_two_along(trees: Seq<GreenTree>, i: int, j: int, f: spec_fn(GreenTree) -> nat)
    requires
        0 <= i < trees.len(),
        0 <= j < trees.len(),
        i != j,
    ensures
        f(trees[i]) + f(trees[j]) <= sum_along(trees, f),
    decreases trees.len(),
{
    let last = trees.len() - 1;
    if i < last && j < last {
        lemma_two_along(trees.drop_last(), i, j, f);
    } else {
        lemma_along(
            trees.drop_last(),
            if i == last {
                j
            } else {
                i
            },
            f,
        );
    }
}

/// The sum over a set is at least what one, or two, of its elements add.
proof fn lemma_sum_over_two<A>(set: Set<A>, f: spec_fn(A) -> nat, a: A, b: A)
    requires
        set.finite(),
        set.contains(a),
        set.contains(b),
    ensures
        a == b ==> f(a) <= sum_over(set, f),
        a != b ==> f(a) + f(b) <= sum_over(set, f),
{
    let rest = set.remove(a);
    lemma_sum_over_insert(rest, f, a);
    assert(rest.insert(a) =~= set);
    if a != b {
        lemma_sum_over_insert(rest.remove(b), f, b);
        assert(rest.remove(b).insert(b) =~= rest);
    }
}

// ------------------------------------------------------------- exact weights
/// A token weighs the bytes of its text, whatever the text is: text that is
/// longer by some characters weighs more by the bytes of those characters.
pub proof fn law_a_token_weighs_its_text(token: GreenTokenData, text: Seq<char>, more: Seq<char>)
    ensures
        green_bytes(GreenTree::Token { token, text }) == encode_utf8(text).len(),
        green_bytes(GreenTree::Token { token, text: text + more }) == green_bytes(
            GreenTree::Token { token, text },
        ) + encode_utf8(more).len(),
{
    let f = |t: GreenTree| allocation_bytes(t);
    let short = GreenTree::Token { token, text };
    let long = GreenTree::Token { token, text: text + more };
    lemma_sum_over_empty(f);
    lemma_sum_over_insert(Set::empty(), f, short);
    lemma_sum_over_insert(Set::empty(), f, long);
    lemma_encodings_join(text, more);
}

proof fn lemma_encodings_join(text: Seq<char>, more: Seq<char>)
    ensures
        encode_utf8(text + more) == encode_utf8(text) + encode_utf8(more),
    decreases text.len(),
{
    if text.len() == 0 {
        assert(text + more =~= more);
        assert(encode_utf8(text) + encode_utf8(more) =~= encode_utf8(more));
    } else {
        assert((text + more).drop_first() =~= text.drop_first() + more);
        lemma_encodings_join(text.drop_first(), more);
        assert(encode_utf8(text + more) =~= encode_utf8(text) + encode_utf8(more));
    }
}

/// A node without children weighs nothing, and a node over one token weighs two
/// pointers and the bytes of the token's text.
pub proof fn law_a_node_of_one_token_weighs_a_slot_and_its_text(
    node: GreenNodeData,
    token: GreenTokenData,
    text: Seq<char>,
)
    ensures
        green_bytes(GreenTree::Node { node, children: Seq::empty() }) == 0,
        green_bytes(
            GreenTree::Node { node, children: seq![GreenTree::Token { token, text }] },
        ) == 2 * vstd::layout::size_of::<usize>() + encode_utf8(text).len(),
{
    let leaf = GreenTree::Token { token, text };
    let bare = GreenTree::Node { node, children: Seq::empty() };
    law_every_allocation_is_charged_once(bare, seq![bare]);
    reveal_with_fuel(Seq::fold_left, 3);
    assert(seq![bare].contains(bare)) by {
        assert(seq![bare][0] == bare);
    }
    law_a_token_weighs_its_text(token, text, Seq::empty());
    law_another_child_costs_what_is_new(bare, leaf);
    assert(seq![leaf] =~= bare->children.push(leaf));
    assert(subtrees(leaf).difference(subtrees_in(bare->children)) =~= subtrees(leaf));
}

/// Every allocation of a tree is charged once, and nothing else is: list the
/// trees in it in any order, each once, with nothing listed that does not hang
/// under something listed but the tree itself, and the tree weighs two pointers
/// for each child of each listed node and the bytes of each listed token.
pub proof fn law_every_allocation_is_charged_once(tree: GreenTree, all: Seq<GreenTree>)
    requires
        all.no_duplicates(),
        all.contains(tree),
        forall|t: GreenTree, i: int| #![trigger all.contains(t), t->children[i]]
            all.contains(t) && t is Node && 0 <= i < t->children.len() ==> all.contains(
                t->children[i],
            ),
        forall|t: GreenTree| #[trigger]
            all.contains(t) && t != tree ==> exists|parent: GreenTree| #[trigger]
                all.contains(parent) && parent is Node && parent->children.contains(t),
    ensures
        green_bytes(tree) == all.fold_left(
            0nat,
            |so_far: nat, t: GreenTree|
                so_far + match t {
                    GreenTree::Node { children, .. } => 2 * vstd::layout::size_of::<usize>()
                        * children.len(),
                    GreenTree::Token { text: chars, .. } => encode_utf8(chars).len(),
                },
        ),
{
    let set = all.to_set();
    lemma_closed_covers(set, tree);
    let bound = sum_along(all, |t: GreenTree| unshared(t, |u: GreenTree| 1nat));
    assert forall|t: GreenTree| set.contains(t) implies subtrees(tree).contains(t) by {
        lemma_listed_is_inside(tree, all, t, bound);
    }
    assert(set =~= subtrees(tree));
    lemma_listed_sum(all);
}

/// What is listed hangs, by way of what is listed, under the tree.
proof fn lemma_listed_is_inside(tree: GreenTree, all: Seq<GreenTree>, t: GreenTree, bound: nat)
    requires
        all.contains(t),
        bound == sum_along(all, |t: GreenTree| unshared(t, |u: GreenTree| 1nat)),
        forall|t: GreenTree| #[trigger]
            all.contains(t) && t != tree ==> exists|parent: GreenTree| #[trigger]
                all.contains(parent) && parent is Node && parent->children.contains(t),
    ensures
        subtrees(tree).contains(t),
    decreases bound - unshared(t, |u: GreenTree| 1nat),
{
    let one = |u: GreenTree| 1nat;
    let sizes = |t: GreenTree| unshared(t, |u: GreenTree| 1nat);
    lemma_subtrees_finite(tree);
    if t != tree {
        let parent = choose|parent: GreenTree| #[trigger]
            all.contains(parent) && parent is Node && parent->children.contains(t);
        let i = choose|i: int| 0 <= i < parent->children.len() && parent->children[i] == t;
        let k = choose|k: int| 0 <= k < all.len() && all[k] == parent;
        lemma_one_tree(parent->children, i, one);
        lemma_along(all, k, sizes);
        assert(sizes(parent) == unshared(parent, one));
        lemma_listed_is_inside(tree, all, parent, bound);
        lemma_subtrees_finite(t);
        lemma_subtrees_of_one(parent->children, i);
        lemma_subtrees_nest(tree, parent);
    }
}

proof fn lemma_listed_sum(all: Seq<GreenTree>)
    requires
        all.no_duplicates(),
    ensures
        all.to_set().finite(),
        allocations_bytes(all.to_set()) == all.fold_left(
            0nat,
            |so_far: nat, t: GreenTree|
                so_far + match t {
                    GreenTree::Node { children, .. } => 2 * vstd::layout::size_of::<usize>()
                        * children.len(),
                    GreenTree::Token { text: chars, .. } => encode_utf8(chars).len(),
                },
        ),
    decreases all.len(),
{
    let f = |t: GreenTree| allocation_bytes(t);
    if all.len() == 0 {
        assert(all.to_set() =~= Set::empty());
        lemma_sum_over_empty(f);
    } else {
        let fewer = all.drop_last();
        let last = all.last();
        lemma_listed_sum(fewer);
        assert(!fewer.to_set().contains(last));
        assert forall|t: GreenTree| all.to_set().contains(t) <==> fewer.to_set().insert(
            last,
        ).contains(t) by {
            if all.to_set().contains(t) && t != last {
                let i = choose|i: int| 0 <= i < all.len() && all[i] == t;
                assert(fewer[i] == t);
            }
            if fewer.to_set().contains(t) {
                let i = choose|i: int| 0 <= i < fewer.len() && fewer[i] == t;
                assert(all[i] == t);
            }
            assert(all[all.len() - 1] == last);
        }
        assert(all.to_set() =~= fewer.to_set().insert(last));
        lemma_sum_over_insert(fewer.to_set(), f, last);
        if let GreenTree::Node { children, .. } = last {
            let slots = children.len();
            let pointer = vstd::layout::size_of::<usize>();
            assert(slots * (2 * pointer) == 2 * pointer * slots) by (nonlinear_arith);
        }
    }
}

} // verus!
